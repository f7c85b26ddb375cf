//! Parsing of the stored settings the issue detector reads: account-id
//! ignore lists are held as one comma-joined string.

use vstd::prelude::*;
use vstd::string::StrSliceExecFns;
use crate::reports::names_view;

verus! {

/// The position of the first comma, or the length when there is none.
pub open spec fn first_comma(s: Seq<char>) -> int
    decreases s.len(),
{
    if s.len() == 0 {
        0
    } else if s[0] == ',' {
        0
    } else {
        1 + first_comma(s.skip(1))
    }
}

pub proof fn lemma_first_comma(s: Seq<char>)
    ensures
        0 <= first_comma(s) <= s.len(),
        forall|i: int| 0 <= i < first_comma(s) ==> s[i] != ',',
        first_comma(s) < s.len() ==> s[first_comma(s)] == ',',
    decreases s.len(),
{
    if s.len() > 0 && s[0] != ',' {
        lemma_first_comma(s.skip(1));
        assert forall|i: int| 0 <= i < first_comma(s) implies s[i] != ',' by {
            if i > 0 {
                assert(s.skip(1)[i - 1] == s[i]);
            }
        }
        if first_comma(s) < s.len() {
            assert(s.skip(1)[first_comma(s) - 1] == s[first_comma(s)]);
        }
    }
}

/// A comma-joined string as the list of its segments; the empty string is
/// one empty segment.
pub open spec fn spec_split_ids(s: Seq<char>) -> Seq<Seq<char>>
    decreases s.len(),
        via spec_split_ids_decreases
{
    let k = first_comma(s);
    if k == s.len() {
        seq![s]
    } else {
        seq![s.take(k)] + spec_split_ids(s.skip(k + 1))
    }
}

#[via_fn]
proof fn spec_split_ids_decreases(s: Seq<char>) {
    lemma_first_comma(s);
}

/// A comma stands between two adjacent segments, so splitting after the
/// prefix of unsplit text continues the whole split.
proof fn lemma_split_step(s: Seq<char>, start: int, i: int)
    requires
        0 <= start <= i <= s.len(),
        forall|m: int| start <= m < i ==> s[m] != ',',
        i < s.len() ==> s[i] == ',',
    ensures
        first_comma(s.skip(start)) == i - start,
    decreases i - start,
{
    lemma_first_comma(s.skip(start));
    if start < i {
        assert(s.skip(start)[0] == s[start]);
        assert(s.skip(start).skip(1) =~= s.skip(start + 1));
        lemma_split_step(s, start + 1, i);
    } else {
        if i < s.len() {
            assert(s.skip(start)[0] == s[i]);
        }
    }
}

/// Split a comma-joined account-id list into its ids.
pub fn split_account_ids(value: &str) -> (r: Vec<String>)
    ensures
        names_view(r@) == spec_split_ids(value@),
{
    let n = value.unicode_len();
    let mut out: Vec<String> = Vec::new();
    let mut start: usize = 0;
    let mut i: usize = 0;
    proof {
        assert(value@.skip(0) =~= value@);
    }
    while i < n
        invariant
            start <= i <= n,
            n == value@.len(),
            forall|m: int| start <= m < i ==> value@[m] != ',',
            names_view(out@) + spec_split_ids(value@.skip(start as int)) == spec_split_ids(
                value@,
            ),
        decreases n - i,
    {
        let c = value.get_char(i);
        if c == ',' {
            let seg = value.substring_char(start, i);
            let ghost pre = names_view(out@);
            out.push(seg.to_owned());
            proof {
                lemma_split_step(value@, start as int, i as int);
                assert(value@.skip(start as int).take(i as int - start as int) =~= value@.subrange(
                    start as int,
                    i as int,
                ));
                assert(value@.skip(start as int).skip(i as int - start as int + 1) =~= value@.skip(
                    i as int + 1,
                ));
                assert(names_view(out@) =~= pre.push(value@.subrange(start as int, i as int)));
                assert(names_view(out@) + spec_split_ids(value@.skip(i as int + 1)) =~= (pre
                    + (seq![value@.subrange(start as int, i as int)] + spec_split_ids(
                    value@.skip(i as int + 1),
                ))));
            }
            start = i + 1;
        }
        i = i + 1;
    }
    let seg = value.substring_char(start, n);
    let ghost pre = names_view(out@);
    out.push(seg.to_owned());
    proof {
        lemma_split_step(value@, start as int, n as int);
        assert(value@.skip(start as int) =~= value@.subrange(start as int, n as int));
        assert(names_view(out@) =~= pre.push(value@.skip(start as int)));
        assert(names_view(out@) =~= pre + seq![value@.skip(start as int)]);
    }
    out
}

} // verus!
