//! The repeating-transfers setting payload: a JSON array of schedule objects
//! with fixed keys, as the settings writer stores it. The format is defined
//! by the specification-level parser here; the executable parser is pinned
//! to it exactly, so a malformed payload is rejected if and only if the text
//! is outside the format.
//!
//! Grammar (whitespace = space, tab, carriage return, newline):
//! `[ obj (, obj)* ]` or `[ ]`, where each `obj` is
//! `{ "start": "YYYY-MM-DD", "repeat": "DAILY"|"WEEKLY"|"MONTHLY",
//!    "repeat_count": digits, "from_account_id": "...",
//!    "to_account_ids": ["...", ...] }`.
//! Strings carry no escapes; counts have at most nine digits and no leading
//! zero.

use vstd::prelude::*;
use vstd::string::StrSliceExecFns;
use crate::date::Date;
use crate::schema::{DateRepeat, EngineError, RepeatingTransfer, RepeatingTransferV};

verus! {

pub open spec fn is_ws(c: char) -> bool {
    c == ' ' || c == '\n' || c == '\t' || c == '\r'
}

pub open spec fn is_digit(c: char) -> bool {
    '0' <= c && c <= '9'
}

/// The first non-whitespace position at or after `i`.
pub open spec fn ws_end(s: Seq<char>, i: int) -> int
    decreases s.len() - i,
{
    if 0 <= i < s.len() && is_ws(s[i]) {
        ws_end(s, i + 1)
    } else {
        i
    }
}

pub proof fn lemma_ws_end(s: Seq<char>, i: int)
    requires
        0 <= i <= s.len(),
    ensures
        i <= ws_end(s, i) <= s.len(),
        ws_end(s, i) < s.len() ==> !is_ws(s[ws_end(s, i)]),
    decreases s.len() - i,
{
    if i < s.len() && is_ws(s[i]) {
        lemma_ws_end(s, i + 1);
    }
}

/// The first position at or after `i` that is not a digit.
pub open spec fn digits_end(s: Seq<char>, i: int) -> int
    decreases s.len() - i,
{
    if 0 <= i < s.len() && is_digit(s[i]) {
        digits_end(s, i + 1)
    } else {
        i
    }
}

pub proof fn lemma_digits_end(s: Seq<char>, i: int)
    requires
        0 <= i <= s.len(),
    ensures
        i <= digits_end(s, i) <= s.len(),
        forall|m: int| i <= m < digits_end(s, i) ==> is_digit(s[m]),
        digits_end(s, i) < s.len() ==> !is_digit(s[digits_end(s, i)]),
    decreases s.len() - i,
{
    if i < s.len() && is_digit(s[i]) {
        lemma_digits_end(s, i + 1);
    }
}

/// The number denoted by the digits from `i` to `e`.
pub open spec fn num_val(s: Seq<char>, i: int, e: int) -> int
    decreases e - i,
{
    if e <= i {
        0
    } else {
        num_val(s, i, e - 1) * 10 + (s[e - 1] as int - '0' as int)
    }
}

pub proof fn lemma_num_val_bound(s: Seq<char>, i: int, e: int, k: int)
    requires
        forall|m: int| i <= m < e ==> is_digit(#[trigger] s[m]),
        e - i <= k,
        0 <= k,
    ensures
        0 <= num_val(s, i, e) < pow10(k),
    decreases k,
{
    if e <= i {
        lemma_pow10_pos(k);
    } else {
        lemma_num_val_bound(s, i, e - 1, k - 1);
        assert(num_val(s, i, e) == num_val(s, i, e - 1) * 10 + (s[e - 1] as int - '0' as int));
        assert(num_val(s, i, e - 1) <= pow10(k - 1) - 1);
        assert(num_val(s, i, e - 1) * 10 <= (pow10(k - 1) - 1) * 10) by (nonlinear_arith)
            requires
                num_val(s, i, e - 1) <= pow10(k - 1) - 1,
        ;
    }
}

pub open spec fn pow10(k: int) -> int
    decreases k,
{
    if k <= 0 {
        1
    } else {
        10 * pow10(k - 1)
    }
}

proof fn lemma_pow10_pos(k: int)
    ensures
        pow10(k) >= 1,
    decreases k,
{
    if k > 0 {
        lemma_pow10_pos(k - 1);
    }
}

/// The end of a plain string body: the first quote or backslash.
pub open spec fn plain_str_end(s: Seq<char>, i: int) -> int
    decreases s.len() - i,
{
    if 0 <= i < s.len() && s[i] != '"' && s[i] != '\\' {
        plain_str_end(s, i + 1)
    } else {
        i
    }
}

pub proof fn lemma_plain_str_end(s: Seq<char>, i: int)
    requires
        0 <= i <= s.len(),
    ensures
        i <= plain_str_end(s, i) <= s.len(),
    decreases s.len() - i,
{
    if i < s.len() && s[i] != '"' && s[i] != '\\' {
        lemma_plain_str_end(s, i + 1);
    }
}

/// A quoted string without escapes, and the position after it.
pub open spec fn spec_string_tok(s: Seq<char>, i: int) -> Option<(Seq<char>, int)> {
    if 0 <= i < s.len() && s[i] == '"' {
        let e = plain_str_end(s, i + 1);
        if e < s.len() && s[e] == '"' {
            Some((s.subrange(i + 1, e), e + 1))
        } else {
            None
        }
    } else {
        None
    }
}

pub proof fn lemma_string_tok(s: Seq<char>, i: int)
    requires
        spec_string_tok(s, i) is Some,
    ensures
        i + 2 <= spec_string_tok(s, i)->Some_0.1 <= s.len(),
{
    lemma_plain_str_end(s, i + 1);
}

/// The literal at position `i`, and the position after it.
pub open spec fn spec_lit(s: Seq<char>, i: int, lit: Seq<char>) -> Option<int> {
    if 0 <= i && i + lit.len() <= s.len() && s.subrange(i, i + lit.len() as int) == lit {
        Some(i + lit.len() as int)
    } else {
        None
    }
}

/// An unsigned count: up to nine digits, no leading zero.
pub open spec fn spec_uint(s: Seq<char>, i: int) -> Option<(u32, int)> {
    if 0 <= i < s.len() && is_digit(s[i]) {
        let e = digits_end(s, i);
        if e - i <= 9 && (s[i] == '0' ==> e == i + 1) {
            Some((num_val(s, i, e) as u32, e))
        } else {
            None
        }
    } else {
        None
    }
}

/// A quoted calendar date `"YYYY-MM-DD"`, and the position after it.
pub open spec fn spec_date_tok(s: Seq<char>, i: int) -> Option<(Date, int)> {
    if 0 <= i && i + 12 <= s.len() && s[i] == '"' && is_digit(s[i + 1]) && is_digit(s[i + 2])
        && is_digit(s[i + 3]) && is_digit(s[i + 4]) && s[i + 5] == '-' && is_digit(s[i + 6])
        && is_digit(s[i + 7]) && s[i + 8] == '-' && is_digit(s[i + 9]) && is_digit(s[i + 10]) && s[
        i + 11] == '"' {
        Some(
            (
                Date {
                    year: num_val(s, i + 1, i + 5) as u32,
                    month: num_val(s, i + 6, i + 8) as u8,
                    day: num_val(s, i + 9, i + 11) as u8,
                },
                i + 12,
            ),
        )
    } else {
        None
    }
}

/// A quoted repeat granularity, and the position after it.
pub open spec fn spec_repeat_tok(s: Seq<char>, i: int) -> Option<(DateRepeat, int)> {
    if spec_lit(s, i, "\"DAILY\""@) is Some {
        Some((DateRepeat::Daily, spec_lit(s, i, "\"DAILY\""@)->Some_0))
    } else if spec_lit(s, i, "\"WEEKLY\""@) is Some {
        Some((DateRepeat::Weekly, spec_lit(s, i, "\"WEEKLY\""@)->Some_0))
    } else if spec_lit(s, i, "\"MONTHLY\""@) is Some {
        Some((DateRepeat::Monthly, spec_lit(s, i, "\"MONTHLY\""@)->Some_0))
    } else {
        None
    }
}

/// A key with surrounding whitespace and its colon; the position of the
/// value after it.
pub open spec fn spec_key(s: Seq<char>, i: int, key: Seq<char>) -> Option<int> {
    let j = ws_end(s, i);
    match spec_lit(s, j, key) {
        None => None,
        Some(k) => {
            let m = ws_end(s, k);
            if m < s.len() && s[m] == ':' {
                Some(ws_end(s, m + 1))
            } else {
                None
            }
        },
    }
}

/// A separator character with leading whitespace; the position after it.
pub open spec fn spec_sep(s: Seq<char>, i: int, c: char) -> Option<int> {
    let j = ws_end(s, i);
    if j < s.len() && s[j] == c {
        Some(j + 1)
    } else {
        None
    }
}

pub proof fn lemma_key_bounds(s: Seq<char>, i: int, key: Seq<char>)
    requires
        0 <= i <= s.len(),
        spec_key(s, i, key) is Some,
    ensures
        i <= spec_key(s, i, key)->Some_0 <= s.len(),
{
    lemma_ws_end(s, i);
    let j = ws_end(s, i);
    let k = spec_lit(s, j, key)->Some_0;
    lemma_ws_end(s, k);
    let m = ws_end(s, k);
    lemma_ws_end(s, m + 1);
}

pub proof fn lemma_sep_bounds(s: Seq<char>, i: int, c: char)
    requires
        0 <= i <= s.len(),
        spec_sep(s, i, c) is Some,
    ensures
        i < spec_sep(s, i, c)->Some_0 <= s.len(),
{
    lemma_ws_end(s, i);
}

/// One schedule object with its five keys in order; the position after it.
pub open spec fn spec_obj(s: Seq<char>, i: int) -> Option<(RepeatingTransferV, int)> {
    if !(0 <= i < s.len() && s[i] == '{') {
        None
    } else {
        match spec_key(s, i + 1, "\"start\""@) {
            None => None,
            Some(j1) => match spec_date_tok(s, j1) {
                None => None,
                Some((start, j2)) => match spec_sep(s, j2, ',') {
                    None => None,
                    Some(j3) => match spec_key(s, j3, "\"repeat\""@) {
                        None => None,
                        Some(j4) => match spec_repeat_tok(s, j4) {
                            None => None,
                            Some((repeat, j5)) => match spec_sep(s, j5, ',') {
                                None => None,
                                Some(j6) => match spec_key(s, j6, "\"repeat_count\""@) {
                                    None => None,
                                    Some(j7) => match spec_uint(s, j7) {
                                        None => None,
                                        Some((count, j8)) => match spec_sep(s, j8, ',') {
                                            None => None,
                                            Some(j9) => match spec_key(
                                                s,
                                                j9,
                                                "\"from_account_id\""@,
                                            ) {
                                                None => None,
                                                Some(j10) => match spec_string_tok(s, j10) {
                                                    None => None,
                                                    Some((from, j11)) => match spec_sep(
                                                        s,
                                                        j11,
                                                        ',',
                                                    ) {
                                                        None => None,
                                                        Some(j12) => match spec_key(
                                                            s,
                                                            j12,
                                                            "\"to_account_ids\""@,
                                                        ) {
                                                            None => None,
                                                            Some(j13) => match spec_str_array(
                                                                s,
                                                                j13,
                                                            ) {
                                                                None => None,
                                                                Some((tos, j14)) => match spec_sep(
                                                                    s,
                                                                    j14,
                                                                    '}',
                                                                ) {
                                                                    None => None,
                                                                    Some(j15) => Some(
                                                                        (
                                                                            RepeatingTransferV {
                                                                                start,
                                                                                repeat,
                                                                                repeat_count: count,
                                                                                from_account_id:
                                                                                    from,
                                                                                to_account_ids: tos,
                                                                            },
                                                                            j15,
                                                                        ),
                                                                    ),
                                                                },
                                                            },
                                                        },
                                                    },
                                                },
                                            },
                                        },
                                    },
                                },
                            },
                        },
                    },
                },
            },
        }
    }
}

/// The items of a non-empty string array, starting at the first string; the
/// position after the closing bracket.
pub open spec fn spec_str_items(s: Seq<char>, i: int) -> Option<(Seq<Seq<char>>, int)>
    decreases s.len() - i,
        via spec_str_items_decreases
{
    if !(0 <= i <= s.len()) {
        None
    } else {
        match spec_string_tok(s, i) {
            None => None,
            Some((v, j)) => {
                let k = ws_end(s, j);
                if k < s.len() && s[k] == ',' {
                    let m = ws_end(s, k + 1);
                    match spec_str_items(s, m) {
                        None => None,
                        Some((rest, e)) => Some((seq![v] + rest, e)),
                    }
                } else if k < s.len() && s[k] == ']' {
                    Some((seq![v], k + 1))
                } else {
                    None
                }
            },
        }
    }
}

#[via_fn]
proof fn spec_str_items_decreases(s: Seq<char>, i: int) {
    if 0 <= i <= s.len() {
        match spec_string_tok(s, i) {
            None => {},
            Some((v, j)) => {
                lemma_string_tok(s, i);
                lemma_ws_end(s, j);
                let k = ws_end(s, j);
                if k < s.len() && s[k] == ',' {
                    lemma_ws_end(s, k + 1);
                }
            },
        }
    }
}

/// A string array `[ ... ]`; the position after it.
pub open spec fn spec_str_array(s: Seq<char>, i: int) -> Option<(Seq<Seq<char>>, int)> {
    if 0 <= i < s.len() && s[i] == '[' {
        let j = ws_end(s, i + 1);
        if j < s.len() && s[j] == ']' {
            Some((Seq::empty(), j + 1))
        } else {
            spec_str_items(s, j)
        }
    } else {
        None
    }
}

pub proof fn lemma_obj_bounds(s: Seq<char>, i: int)
    requires
        0 <= i <= s.len(),
        spec_obj(s, i) is Some,
    ensures
        i < spec_obj(s, i)->Some_0.1 <= s.len(),
{
    let j1 = spec_key(s, i + 1, "\"start\""@)->Some_0;
    lemma_key_bounds(s, i + 1, "\"start\""@);
    let j2 = spec_date_tok(s, j1)->Some_0.1;
    let j3 = spec_sep(s, j2, ',')->Some_0;
    lemma_sep_bounds(s, j2, ',');
    let j4 = spec_key(s, j3, "\"repeat\""@)->Some_0;
    lemma_key_bounds(s, j3, "\"repeat\""@);
    let j5 = spec_repeat_tok(s, j4)->Some_0.1;
    let j6 = spec_sep(s, j5, ',')->Some_0;
    lemma_sep_bounds(s, j5, ',');
    let j7 = spec_key(s, j6, "\"repeat_count\""@)->Some_0;
    lemma_key_bounds(s, j6, "\"repeat_count\""@);
    let j8 = spec_uint(s, j7)->Some_0.1;
    proof_uint_bounds(s, j7);
    let j9 = spec_sep(s, j8, ',')->Some_0;
    lemma_sep_bounds(s, j8, ',');
    let j10 = spec_key(s, j9, "\"from_account_id\""@)->Some_0;
    lemma_key_bounds(s, j9, "\"from_account_id\""@);
    let j11 = spec_string_tok(s, j10)->Some_0.1;
    lemma_string_tok(s, j10);
    let j12 = spec_sep(s, j11, ',')->Some_0;
    lemma_sep_bounds(s, j11, ',');
    let j13 = spec_key(s, j12, "\"to_account_ids\""@)->Some_0;
    lemma_key_bounds(s, j12, "\"to_account_ids\""@);
    let j14 = spec_str_array(s, j13)->Some_0.1;
    proof_str_array_bounds(s, j13);
    lemma_sep_bounds(s, j14, '}');
}

proof fn proof_uint_bounds(s: Seq<char>, i: int)
    requires
        0 <= i <= s.len(),
        spec_uint(s, i) is Some,
    ensures
        i <= spec_uint(s, i)->Some_0.1 <= s.len(),
{
    lemma_digits_end(s, i);
}

proof fn proof_str_array_bounds(s: Seq<char>, i: int)
    requires
        0 <= i <= s.len(),
        spec_str_array(s, i) is Some,
    ensures
        i <= spec_str_array(s, i)->Some_0.1 <= s.len(),
{
    lemma_ws_end(s, i + 1);
    let j = ws_end(s, i + 1);
    if j < s.len() && s[j] == ']' {
    } else {
        proof_str_items_bounds(s, j);
    }
}

proof fn proof_str_items_bounds(s: Seq<char>, i: int)
    requires
        spec_str_items(s, i) is Some,
    ensures
        i <= spec_str_items(s, i)->Some_0.1 <= s.len(),
    decreases s.len() - i,
{
    let (v, j) = spec_string_tok(s, i)->Some_0;
    lemma_string_tok(s, i);
    lemma_ws_end(s, j);
    let k = ws_end(s, j);
    if k < s.len() && s[k] == ',' {
        lemma_ws_end(s, k + 1);
        proof_str_items_bounds(s, ws_end(s, k + 1));
    }
}

/// The schedule objects of a non-empty payload, starting at the first
/// object; the position after the closing bracket.
pub open spec fn spec_objs(s: Seq<char>, i: int) -> Option<(Seq<RepeatingTransferV>, int)>
    decreases s.len() - i,
        via spec_objs_decreases
{
    if !(0 <= i <= s.len()) {
        None
    } else {
        match spec_obj(s, i) {
            None => None,
            Some((v, j)) => {
                let k = ws_end(s, j);
                if k < s.len() && s[k] == ',' {
                    let m = ws_end(s, k + 1);
                    match spec_objs(s, m) {
                        None => None,
                        Some((rest, e)) => Some((seq![v] + rest, e)),
                    }
                } else if k < s.len() && s[k] == ']' {
                    Some((seq![v], k + 1))
                } else {
                    None
                }
            },
        }
    }
}

#[via_fn]
proof fn spec_objs_decreases(s: Seq<char>, i: int) {
    if 0 <= i <= s.len() {
        match spec_obj(s, i) {
            None => {},
            Some((v, j)) => {
                lemma_obj_bounds(s, i);
                lemma_ws_end(s, j);
                let k = ws_end(s, j);
                if k < s.len() && s[k] == ',' {
                    lemma_ws_end(s, k + 1);
                }
            },
        }
    }
}

/// What the whole payload denotes: the schedule list, or nothing when the
/// text lies outside the format.
pub open spec fn spec_payload(s: Seq<char>) -> Option<Seq<RepeatingTransferV>> {
    let i = ws_end(s, 0);
    if i < s.len() && s[i] == '[' {
        let j = ws_end(s, i + 1);
        if j < s.len() && s[j] == ']' {
            if ws_end(s, j + 1) == s.len() {
                Some(Seq::empty())
            } else {
                None
            }
        } else {
            match spec_objs(s, j) {
                None => None,
                Some((vs, e)) => if ws_end(s, e) == s.len() {
                    Some(vs)
                } else {
                    None
                },
            }
        }
    } else {
        None
    }
}

fn is_ws_exec(c: char) -> (r: bool)
    ensures
        r == is_ws(c),
{
    c == ' ' || c == '\n' || c == '\t' || c == '\r'
}

fn is_digit_exec(c: char) -> (r: bool)
    ensures
        r == is_digit(c),
{
    '0' <= c && c <= '9'
}

fn ws_skip(s: &str, n: usize, i: usize) -> (r: usize)
    requires
        i <= n,
        n == s@.len(),
    ensures
        r as int == ws_end(s@, i as int),
        i <= r <= n,
{
    let mut cur: usize = i;
    while cur < n && is_ws_exec(s.get_char(cur))
        invariant
            i <= cur <= n,
            n == s@.len(),
            ws_end(s@, i as int) == ws_end(s@, cur as int),
        decreases n - cur,
    {
        cur = cur + 1;
    }
    cur
}

fn lit_match(s: &str, n: usize, i: usize, lit: &str, lit_n: usize) -> (r: Option<usize>)
    requires
        i <= n,
        n == s@.len(),
        lit_n == lit@.len(),
    ensures
        match r {
            Some(e) => spec_lit(s@, i as int, lit@) == Some(e as int) && i <= e <= n,
            None => spec_lit(s@, i as int, lit@) is None,
        },
{
    if lit_n > n - i {
        return None;
    }
    let mut k: usize = 0;
    while k < lit_n
        invariant
            k <= lit_n,
            i + lit_n <= n,
            n == s@.len(),
            lit_n == lit@.len(),
            forall|m: int| 0 <= m < k ==> s@[i + m] == lit@[m],
        decreases lit_n - k,
    {
        if s.get_char(i + k) != lit.get_char(k) {
            proof {
                assert(s@.subrange(i as int, i + lit@.len() as int)[k as int] != lit@[k as int]);
            }
            return None;
        }
        k = k + 1;
    }
    proof {
        assert(s@.subrange(i as int, i + lit@.len() as int) =~= lit@);
    }
    Some(i + lit_n)
}

fn parse_string_tok(s: &str, n: usize, i: usize) -> (r: Option<(String, usize)>)
    requires
        i <= n,
        n == s@.len(),
    ensures
        match r {
            Some((v, e)) => spec_string_tok(s@, i as int) == Some((v@, e as int)) && i < e <= n,
            None => spec_string_tok(s@, i as int) is None,
        },
{
    if !(i < n && s.get_char(i) == '"') {
        return None;
    }
    let mut e: usize = i + 1;
    while e < n && s.get_char(e) != '"' && s.get_char(e) != '\\'
        invariant
            i + 1 <= e <= n,
            n == s@.len(),
            plain_str_end(s@, i as int + 1) == plain_str_end(s@, e as int),
        decreases n - e,
    {
        e = e + 1;
    }
    if e < n && s.get_char(e) == '"' {
        let body = s.substring_char(i + 1, e);
        Some((body.to_owned(), e + 1))
    } else {
        None
    }
}

fn parse_uint_tok(s: &str, n: usize, i: usize) -> (r: Option<(u32, usize)>)
    requires
        i <= n,
        n == s@.len(),
    ensures
        match r {
            Some((v, e)) => spec_uint(s@, i as int) == Some((v, e as int)) && i < e <= n,
            None => spec_uint(s@, i as int) is None,
        },
{
    if !(i < n && is_digit_exec(s.get_char(i))) {
        return None;
    }
    let mut e: usize = i + 1;
    while e < n && is_digit_exec(s.get_char(e))
        invariant
            i + 1 <= e <= n,
            n == s@.len(),
            digits_end(s@, i as int) == digits_end(s@, e as int),
            forall|m: int| i <= m < e ==> is_digit(#[trigger] s@[m]),
        decreases n - e,
    {
        e = e + 1;
    }
    proof {
        assert(digits_end(s@, e as int) == e);
    }
    if e - i > 9 {
        return None;
    }
    if s.get_char(i) == '0' && e != i + 1 {
        return None;
    }
    let mut acc: u32 = 0;
    let mut k: usize = i;
    proof {
        reveal_with_fuel(pow10, 11);
    }
    while k < e
        invariant
            i <= k <= e <= n,
            e - i <= 9,
            n == s@.len(),
            forall|m: int| i <= m < e ==> is_digit(#[trigger] s@[m]),
            acc as int == num_val(s@, i as int, k as int),
            acc < 1000000000,
        decreases e - k,
    {
        proof {
            lemma_num_val_bound(s@, i as int, k as int + 1, 9);
            assert(pow10(9) == 1000000000) by {
                reveal_with_fuel(pow10, 11);
            }
        }
        let c = s.get_char(k);
        let d: u32 = c as u32 - '0' as u32;
        acc = acc * 10 + d;
        k = k + 1;
    }
    Some((acc, e))
}

fn parse_date_tok(s: &str, n: usize, i: usize) -> (r: Option<(Date, usize)>)
    requires
        i <= n,
        n == s@.len(),
    ensures
        match r {
            Some((v, e)) => spec_date_tok(s@, i as int) == Some((v, e as int)) && i < e <= n,
            None => spec_date_tok(s@, i as int) is None,
        },
{
    if n - i < 12 {
        return None;
    }
    if !(s.get_char(i) == '"' && s.get_char(i + 5) == '-' && s.get_char(i + 8) == '-'
        && s.get_char(i + 11) == '"') {
        return None;
    }
    let d1 = s.get_char(i + 1);
    let d2 = s.get_char(i + 2);
    let d3 = s.get_char(i + 3);
    let d4 = s.get_char(i + 4);
    let m1 = s.get_char(i + 6);
    let m2 = s.get_char(i + 7);
    let a1 = s.get_char(i + 9);
    let a2 = s.get_char(i + 10);
    if !(is_digit_exec(d1) && is_digit_exec(d2) && is_digit_exec(d3) && is_digit_exec(d4)
        && is_digit_exec(m1) && is_digit_exec(m2) && is_digit_exec(a1) && is_digit_exec(a2)) {
        return None;
    }
    let year: u32 = (((d1 as u32 - '0' as u32) * 10 + (d2 as u32 - '0' as u32)) * 10 + (d3 as u32
        - '0' as u32)) * 10 + (d4 as u32 - '0' as u32);
    let month: u8 = ((m1 as u32 - '0' as u32) * 10 + (m2 as u32 - '0' as u32)) as u8;
    let day: u8 = ((a1 as u32 - '0' as u32) * 10 + (a2 as u32 - '0' as u32)) as u8;
    proof {
        reveal_with_fuel(num_val, 6);
        assert(year as int == num_val(s@, i as int + 1, i as int + 5));
        assert(month as int == num_val(s@, i as int + 6, i as int + 8));
        assert(day as int == num_val(s@, i as int + 9, i as int + 11));
    }
    Some((Date { year, month, day }, i + 12))
}

fn parse_repeat_tok(s: &str, n: usize, i: usize) -> (r: Option<(DateRepeat, usize)>)
    requires
        i <= n,
        n == s@.len(),
    ensures
        match r {
            Some((v, e)) => spec_repeat_tok(s@, i as int) == Some((v, e as int)) && i < e <= n,
            None => spec_repeat_tok(s@, i as int) is None,
        },
{
    proof {
        reveal_strlit("\"DAILY\"");
        reveal_strlit("\"WEEKLY\"");
        reveal_strlit("\"MONTHLY\"");
    }
    if let Some(e) = lit_match(s, n, i, "\"DAILY\"", 7) {
        return Some((DateRepeat::Daily, e));
    }
    if let Some(e) = lit_match(s, n, i, "\"WEEKLY\"", 8) {
        return Some((DateRepeat::Weekly, e));
    }
    if let Some(e) = lit_match(s, n, i, "\"MONTHLY\"", 9) {
        return Some((DateRepeat::Monthly, e));
    }
    None
}

fn parse_key(s: &str, n: usize, i: usize, key: &str, key_n: usize) -> (r: Option<usize>)
    requires
        i <= n,
        n == s@.len(),
        key_n == key@.len(),
    ensures
        match r {
            Some(e) => spec_key(s@, i as int, key@) == Some(e as int) && e <= n,
            None => spec_key(s@, i as int, key@) is None,
        },
{
    let j = ws_skip(s, n, i);
    match lit_match(s, n, j, key, key_n) {
        None => None,
        Some(k) => {
            let m = ws_skip(s, n, k);
            if m < n && s.get_char(m) == ':' {
                Some(ws_skip(s, n, m + 1))
            } else {
                None
            }
        },
    }
}

fn parse_sep(s: &str, n: usize, i: usize, c: char) -> (r: Option<usize>)
    requires
        i <= n,
        n == s@.len(),
    ensures
        match r {
            Some(e) => spec_sep(s@, i as int, c) == Some(e as int) && i < e <= n,
            None => spec_sep(s@, i as int, c) is None,
        },
{
    let j = ws_skip(s, n, i);
    if j < n && s.get_char(j) == c {
        Some(j + 1)
    } else {
        None
    }
}

/// Ghost view of a string list.
pub open spec fn ids_view(v: Seq<String>) -> Seq<Seq<char>> {
    Seq::new(v.len(), |i: int| v[i]@)
}

fn parse_str_array(s: &str, n: usize, i: usize) -> (r: Option<(Vec<String>, usize)>)
    requires
        i <= n,
        n == s@.len(),
    ensures
        match r {
            Some((v, e)) => spec_str_array(s@, i as int) == Some((ids_view(v@), e as int)) && e
                <= n,
            None => spec_str_array(s@, i as int) is None,
        },
{
    if !(i < n && s.get_char(i) == '[') {
        return None;
    }
    let j0 = ws_skip(s, n, i + 1);
    if j0 < n && s.get_char(j0) == ']' {
        let out: Vec<String> = Vec::new();
        proof {
            assert(ids_view(out@) =~= Seq::<Seq<char>>::empty());
        }
        return Some((out, j0 + 1));
    }
    let mut out: Vec<String> = Vec::new();
    let mut cur: usize = j0;
    proof {
        assert(ids_view(out@) + spec_str_items(s@, j0 as int)->Some_0.0 =~= spec_str_items(
            s@,
            j0 as int,
        )->Some_0.0);
    }
    loop
        invariant
            cur <= n,
            n == s@.len(),
            i < n && s@[i as int] == '[',
            ws_end(s@, i as int + 1) == j0,
            !(j0 < n && s@[j0 as int] == ']'),
            match spec_str_items(s@, cur as int) {
                Some((rest, e)) => spec_str_items(s@, j0 as int) == Some(
                    (ids_view(out@) + rest, e),
                ),
                None => spec_str_items(s@, j0 as int) is None,
            },
        decreases n - cur,
    {
        let (v, j) = match parse_string_tok(s, n, cur) {
            None => {
                return None;
            },
            Some(p) => p,
        };
        let ghost prev = ids_view(out@);
        let ghost gv = v@;
        out.push(v);
        proof {
            assert(ids_view(out@) =~= prev.push(gv));
            assert(ids_view(out@) =~= prev + seq![gv]);
        }
        let k = ws_skip(s, n, j);
        if k < n && s.get_char(k) == ',' {
            let m = ws_skip(s, n, k + 1);
            proof {
                if spec_str_items(s@, m as int) is Some {
                    let rest = spec_str_items(s@, m as int)->Some_0.0;
                    assert(prev + (seq![gv] + rest) =~= ids_view(out@) + rest);
                }
            }
            cur = m;
        } else if k < n && s.get_char(k) == ']' {
            proof {
                assert(prev + seq![gv] =~= ids_view(out@));
            }
            return Some((out, k + 1));
        } else {
            return None;
        }
    }
}

fn parse_obj(s: &str, n: usize, i: usize) -> (r: Option<(RepeatingTransfer, usize)>)
    requires
        i <= n,
        n == s@.len(),
    ensures
        match r {
            Some((v, e)) => spec_obj(s@, i as int) == Some((v@, e as int)) && i < e <= n,
            None => spec_obj(s@, i as int) is None,
        },
{
    if !(i < n && s.get_char(i) == '{') {
        return None;
    }
    proof {
        reveal_strlit("\"start\"");
        reveal_strlit("\"repeat\"");
        reveal_strlit("\"repeat_count\"");
        reveal_strlit("\"from_account_id\"");
        reveal_strlit("\"to_account_ids\"");
    }
    let j1 = match parse_key(s, n, i + 1, "\"start\"", 7) {
        None => {
            return None;
        },
        Some(v) => v,
    };
    let (start, j2) = match parse_date_tok(s, n, j1) {
        None => {
            return None;
        },
        Some(v) => v,
    };
    let j3 = match parse_sep(s, n, j2, ',') {
        None => {
            return None;
        },
        Some(v) => v,
    };
    let j4 = match parse_key(s, n, j3, "\"repeat\"", 8) {
        None => {
            return None;
        },
        Some(v) => v,
    };
    let (repeat, j5) = match parse_repeat_tok(s, n, j4) {
        None => {
            return None;
        },
        Some(v) => v,
    };
    let j6 = match parse_sep(s, n, j5, ',') {
        None => {
            return None;
        },
        Some(v) => v,
    };
    let j7 = match parse_key(s, n, j6, "\"repeat_count\"", 14) {
        None => {
            return None;
        },
        Some(v) => v,
    };
    let (count, j8) = match parse_uint_tok(s, n, j7) {
        None => {
            return None;
        },
        Some(v) => v,
    };
    let j9 = match parse_sep(s, n, j8, ',') {
        None => {
            return None;
        },
        Some(v) => v,
    };
    let j10 = match parse_key(s, n, j9, "\"from_account_id\"", 17) {
        None => {
            return None;
        },
        Some(v) => v,
    };
    let (from, j11) = match parse_string_tok(s, n, j10) {
        None => {
            return None;
        },
        Some(v) => v,
    };
    let j12 = match parse_sep(s, n, j11, ',') {
        None => {
            return None;
        },
        Some(v) => v,
    };
    let j13 = match parse_key(s, n, j12, "\"to_account_ids\"", 16) {
        None => {
            return None;
        },
        Some(v) => v,
    };
    let (tos, j14) = match parse_str_array(s, n, j13) {
        None => {
            return None;
        },
        Some(v) => v,
    };
    let j15 = match parse_sep(s, n, j14, '}') {
        None => {
            return None;
        },
        Some(v) => v,
    };
    let ghost gfrom = from@;
    let ghost gtos = ids_view(tos@);
    let rt = RepeatingTransfer {
        start,
        repeat,
        repeat_count: count,
        from_account_id: from,
        to_account_ids: tos,
    };
    proof {
        let expected = RepeatingTransferV {
            start,
            repeat,
            repeat_count: count,
            from_account_id: gfrom,
            to_account_ids: gtos,
        };
        assert(spec_obj(s@, i as int) == Some((expected, j15 as int)));
        assert(rt@.to_account_ids =~= gtos);
        assert(rt@ =~~= expected);
        lemma_obj_bounds(s@, i as int);
    }
    Some((rt, j15))
}

/// Ghost view of a schedule list.
pub open spec fn rts_view(v: Seq<RepeatingTransfer>) -> Seq<RepeatingTransferV> {
    Seq::new(v.len(), |i: int| v[i]@)
}

/// Parse the repeating-transfers setting payload. The text is accepted if
/// and only if it lies in the documented schedule format; anything else is
/// the malformed-payload input error.
pub fn parse_repeating_transfers(value: &str) -> (r: Result<Vec<RepeatingTransfer>, EngineError>)
    ensures
        match r {
            Ok(v) => spec_payload(value@) == Some(rts_view(v@)),
            Err(e) => {
                &&& e == EngineError::MalformedRepeatingTransfers
                &&& spec_payload(value@) is None
            },
        },
{
    let n = value.unicode_len();
    let i = ws_skip(value, n, 0);
    if !(i < n && value.get_char(i) == '[') {
        return Err(EngineError::MalformedRepeatingTransfers);
    }
    let j0 = ws_skip(value, n, i + 1);
    if j0 < n && value.get_char(j0) == ']' {
        if ws_skip(value, n, j0 + 1) == n {
            let out: Vec<RepeatingTransfer> = Vec::new();
            proof {
                assert(rts_view(out@) =~= Seq::<RepeatingTransferV>::empty());
            }
            return Ok(out);
        } else {
            return Err(EngineError::MalformedRepeatingTransfers);
        }
    }
    let mut out: Vec<RepeatingTransfer> = Vec::new();
    let mut cur: usize = j0;
    loop
        invariant
            cur <= n,
            n == value@.len(),
            ws_end(value@, 0) == i,
            i < n && value@[i as int] == '[',
            ws_end(value@, i as int + 1) == j0,
            !(j0 < n && value@[j0 as int] == ']'),
            match spec_objs(value@, cur as int) {
                Some((rest, e)) => spec_objs(value@, j0 as int) == Some(
                    (rts_view(out@) + rest, e),
                ),
                None => spec_objs(value@, j0 as int) is None,
            },
        decreases n - cur,
    {
        let (v, j) = match parse_obj(value, n, cur) {
            None => {
                return Err(EngineError::MalformedRepeatingTransfers);
            },
            Some(p) => p,
        };
        let ghost prev = rts_view(out@);
        let ghost gv = v@;
        out.push(v);
        proof {
            assert(rts_view(out@) =~= prev.push(gv));
            assert(rts_view(out@) =~= prev + seq![gv]);
        }
        let k = ws_skip(value, n, j);
        if k < n && value.get_char(k) == ',' {
            let m = ws_skip(value, n, k + 1);
            proof {
                if spec_objs(value@, m as int) is Some {
                    let rest = spec_objs(value@, m as int)->Some_0.0;
                    assert(prev + (seq![gv] + rest) =~= rts_view(out@) + rest);
                }
            }
            cur = m;
        } else if k < n && value.get_char(k) == ']' {
            proof {
                assert(prev + seq![gv] =~= rts_view(out@));
            }
            if ws_skip(value, n, k + 1) == n {
                return Ok(out);
            } else {
                return Err(EngineError::MalformedRepeatingTransfers);
            }
        } else {
            return Err(EngineError::MalformedRepeatingTransfers);
        }
    }
}

} // verus!
