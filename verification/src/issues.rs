//! The issue detector: cross-references transactions, ignore lists and
//! repeating-transfer schedules to produce a deterministic, sorted list of
//! data-quality issues — transfers without a corroborating balance, accounts
//! missing their monthly balance, and missed scheduled transfers.

use vstd::prelude::*;
use crate::date::{
    add_days, add_months, date_le, date_lt, day_index, lemma_day_index_order, month_index, Date,
    MAX_YEAR, spec_add_days, spec_add_months,
};
use crate::engine::{account_index, distinct_ids, find_account, has_account};
use crate::schema::{
    issues_view, Account, AccountType, DateRepeat, EngineError, Issue, IssueType, IssueV,
    RepeatingTransfer, Transaction, TransactionType,
};

verus! {

/// Some transaction records a balance for the account on the date.
pub open spec fn has_balance(txs: Seq<Transaction>, a: Seq<char>, d: Date) -> bool {
    exists|i: int|
        0 <= i < txs.len() && (#[trigger] txs[i]).transaction_type == TransactionType::Balance
            && txs[i].account_id@ == a && txs[i].date == d
}

/// Whether a transfer touches the account on the date (as either side).
pub open spec fn tx_touches(t: Transaction, a: Seq<char>, d: Date) -> bool {
    &&& t.transaction_type == TransactionType::Transfer
    &&& t.date == d
    &&& (t.account_id@ == a || match t.from_account_id {
        Some(f) => f@ == a,
        None => false,
    })
}

/// Some transfer before index `i` already touches the account on the date.
pub open spec fn touched_before(txs: Seq<Transaction>, i: int, a: Seq<char>, d: Date) -> bool {
    exists|j: int| 0 <= j < i && tx_touches(#[trigger] txs[j], a, d)
}

/// The id occurs in a list of account ids.
pub open spec fn in_id_list(ids: Seq<Seq<char>>, a: Seq<char>) -> bool {
    exists|j: int| 0 <= j < ids.len() && ids[j] == a
}

/// A transfer-without-balance issue for the account on the date.
pub open spec fn twb_issue(a: Seq<char>, d: Date) -> IssueV {
    IssueV {
        issue_type: IssueType::TransferWithoutBalance,
        date: Some(d),
        account_id: Some(a),
        from_account_id: None,
    }
}

/// Whether scanning transaction `i` emits a transfer-without-balance issue
/// for the account `a` it touches: the account is not ignored, no balance
/// exists for that exact account and date, and no earlier transfer already
/// reported the same pair.
pub open spec fn twb_emits(
    txs: Seq<Transaction>,
    ignore: Seq<Seq<char>>,
    i: int,
    a: Seq<char>,
) -> bool {
    &&& !in_id_list(ignore, a)
    &&& !has_balance(txs, a, txs[i].date)
    &&& !touched_before(txs, i, a, txs[i].date)
}

/// The transfer-without-balance issues contributed by transaction `i`.
pub open spec fn twb_of(txs: Seq<Transaction>, ignore: Seq<Seq<char>>, i: int) -> Seq<IssueV> {
    let t = txs[i];
    if t.transaction_type == TransactionType::Transfer {
        let acct_part: Seq<IssueV> = if twb_emits(txs, ignore, i, t.account_id@) {
            seq![twb_issue(t.account_id@, t.date)]
        } else {
            Seq::empty()
        };
        let from_part: Seq<IssueV> = match t.from_account_id {
            Some(f) => if f@ != t.account_id@ && twb_emits(txs, ignore, i, f@) {
                seq![twb_issue(f@, t.date)]
            } else {
                Seq::empty()
            },
            None => Seq::empty(),
        };
        acct_part + from_part
    } else {
        Seq::empty()
    }
}

/// The transfer-without-balance issues of the first `k` transactions.
pub open spec fn twb_issues(txs: Seq<Transaction>, ignore: Seq<Seq<char>>, k: int) -> Seq<IssueV>
    decreases k,
{
    if k <= 0 {
        Seq::empty()
    } else {
        twb_issues(txs, ignore, k - 1) + twb_of(txs, ignore, k - 1)
    }
}

/// The missing-monthly-balance issues of the first `k` accounts: every
/// account that is not external, is not excused, and has no balance on the
/// first day of the current month.
pub open spec fn nb_issues(
    accounts: Seq<Account>,
    no_reg: Seq<Seq<char>>,
    txs: Seq<Transaction>,
    first: Date,
    k: int,
) -> Seq<IssueV>
    decreases k,
{
    if k <= 0 {
        Seq::empty()
    } else {
        let pre = nb_issues(accounts, no_reg, txs, first, k - 1);
        let a = accounts[k - 1];
        if a.account_type != AccountType::External && !in_id_list(no_reg, a.id@) && !has_balance(
            txs,
            a.id@,
            first,
        ) {
            pre.push(
                IssueV {
                    issue_type: IssueType::NoBalance,
                    date: Some(first),
                    account_id: Some(a.id@),
                    from_account_id: None,
                },
            )
        } else {
            pre
        }
    }
}

/// The largest representable day index.
pub open spec fn max_day_index() -> int {
    (Date { year: MAX_YEAR, month: 12, day: 31 }).day_index()
}

/// The next scheduled occurrence after `d`, or nothing when it would leave
/// the supported date range (and so certainly lies after any valid today).
pub open spec fn spec_due_next(repeat: DateRepeat, count: u32, d: Date) -> Option<Date> {
    match repeat {
        DateRepeat::Daily => if d.day_index() + count <= max_day_index() {
            Some(spec_add_days(d, count as nat))
        } else {
            None
        },
        DateRepeat::Weekly => if d.day_index() + 7 * count <= max_day_index() {
            Some(spec_add_days(d, (7 * count) as nat))
        } else {
            None
        },
        DateRepeat::Monthly => if month_index(d) + count <= 12 * MAX_YEAR + 11 {
            Some(spec_add_months(d, count as int))
        } else {
            None
        },
    }
}

/// The latest scheduled occurrence on or before `today`: step forward from
/// `start` while the next step would not overshoot.
pub open spec fn spec_latest_due(repeat: DateRepeat, count: u32, start: Date, today: Date) -> Date
    decreases today.day_index() - start.day_index(),
        via spec_latest_due_decreases
{
    if start.valid() && today.valid() && start.spec_le(today) && count >= 1 {
        match spec_due_next(repeat, count, start) {
            None => start,
            Some(n) => if today.spec_lt(n) {
                start
            } else {
                spec_latest_due(repeat, count, n, today)
            },
        }
    } else {
        start
    }
}

proof fn lemma_due_next(repeat: DateRepeat, count: u32, d: Date)
    requires
        d.valid(),
        count >= 1,
        spec_due_next(repeat, count, d) is Some,
    ensures
        spec_due_next(repeat, count, d)->Some_0.valid(),
        d.spec_lt(spec_due_next(repeat, count, d)->Some_0),
{
    let n = spec_due_next(repeat, count, d)->Some_0;
    match repeat {
        DateRepeat::Daily => {
            crate::date::lemma_spec_add_days_index(d, count as nat);
            lemma_day_index_order(d, n);
        },
        DateRepeat::Weekly => {
            crate::date::lemma_spec_add_days_index(d, (7 * count) as nat);
            lemma_day_index_order(d, n);
        },
        DateRepeat::Monthly => {
            let mi = month_index(d) + count;
            vstd::arithmetic::div_mod::lemma_fundamental_div_mod(mi, 12);
            assert(12 * n.year + n.month - 1 == mi);
            assert(crate::date::spec_days_in_month(n.year as int, n.month as int) >= 28);
            assert(12 * d.year + d.month < 12 * n.year + n.month);
        },
    }
}

#[via_fn]
proof fn spec_latest_due_decreases(repeat: DateRepeat, count: u32, start: Date, today: Date) {
    if start.valid() && today.valid() && start.spec_le(today) && count >= 1 {
        match spec_due_next(repeat, count, start) {
            None => {},
            Some(n) => {
                lemma_due_next(repeat, count, start);
                lemma_day_index_order(start, n);
                lemma_day_index_order(start, today);
                lemma_day_index_order(n, today);
            },
        }
    }
}

/// The latest due date of a schedule stays valid and on or before today.
pub proof fn lemma_latest_due(repeat: DateRepeat, count: u32, start: Date, today: Date)
    requires
        start.valid(),
        today.valid(),
        start.spec_le(today),
        count >= 1,
    ensures
        spec_latest_due(repeat, count, start, today).valid(),
        spec_latest_due(repeat, count, start, today).spec_le(today),
    decreases today.day_index() - start.day_index(),
{
    match spec_due_next(repeat, count, start) {
        None => {},
        Some(n) => {
            lemma_due_next(repeat, count, start);
            if !today.spec_lt(n) {
                lemma_day_index_order(start, n);
                lemma_day_index_order(start, today);
                lemma_day_index_order(n, today);
                lemma_latest_due(repeat, count, n, today);
            }
        },
    }
}

/// Walk the schedule forward from its start; the result is the latest
/// occurrence on or before `today`.
pub fn find_latest_repeat_date(repeating_transfer: &RepeatingTransfer, today: &Date) -> (r: Date)
    requires
        repeating_transfer.start.valid(),
        today.valid(),
        repeating_transfer.start.spec_le(*today),
        repeating_transfer.repeat_count >= 1,
    ensures
        r == spec_latest_due(
            repeating_transfer.repeat,
            repeating_transfer.repeat_count,
            repeating_transfer.start,
            *today,
        ),
        r.valid(),
        r.spec_le(*today),
{
    let repeat = repeating_transfer.repeat;
    let count = repeating_transfer.repeat_count;
    let mut cur: Date = repeating_transfer.start;
    let max_idx: u32 = day_index(&Date { year: MAX_YEAR, month: 12, day: 31 });
    loop
        invariant
            repeat == repeating_transfer.repeat,
            count == repeating_transfer.repeat_count,
            cur.valid(),
            today.valid(),
            cur.spec_le(*today),
            count >= 1,
            max_idx == max_day_index(),
            spec_latest_due(repeat, count, cur, *today) == spec_latest_due(
                repeat,
                count,
                repeating_transfer.start,
                *today,
            ),
        ensures
            cur == spec_latest_due(repeat, count, repeating_transfer.start, *today),
        decreases today.day_index() - cur.day_index(),
    {
        proof {
            lemma_day_index_order(cur, *today);
            if spec_due_next(repeat, count, cur) is Some {
                lemma_due_next(repeat, count, cur);
            }
        }
        let next: Option<Date> = match repeat {
            DateRepeat::Daily => {
                let idx = day_index(&cur);
                if idx as u64 + count as u64 <= max_idx as u64 {
                    Some(add_days(&cur, count))
                } else {
                    None
                }
            },
            DateRepeat::Weekly => {
                let idx = day_index(&cur);
                let step: u64 = 7u64 * count as u64;
                if idx as u64 + step <= max_idx as u64 {
                    Some(add_days(&cur, (7 * count as u64) as u32))
                } else {
                    None
                }
            },
            DateRepeat::Monthly => {
                let mi: u64 = 12u64 * cur.year as u64 + (cur.month - 1) as u64 + count as u64;
                if mi <= 12 * MAX_YEAR as u64 + 11 {
                    Some(add_months(&cur, count))
                } else {
                    None
                }
            },
        };
        match next {
            None => {
                proof {
                    assert(spec_due_next(repeat, count, cur) is None);
                    assert(spec_latest_due(repeat, count, cur, *today) == cur);
                }
                return cur;
            },
            Some(n) => {
                proof {
                    assert(spec_due_next(repeat, count, cur) == Some(n));
                }
                if date_lt(today, &n) {
                    proof {
                        assert(spec_latest_due(repeat, count, cur, *today) == cur);
                    }
                    return cur;
                }
                proof {
                    lemma_day_index_order(cur, n);
                    lemma_day_index_order(n, *today);
                }
                cur = n;
            },
        }
    }
}

/// A missed-transfer issue for a destination account.
pub open spec fn nt_issue(to: Seq<char>, from: Seq<char>, due: Date) -> IssueV {
    IssueV {
        issue_type: IssueType::NoTransfer,
        date: Some(due),
        account_id: Some(to),
        from_account_id: Some(from),
    }
}

/// Some transaction realizes the scheduled transfer to this destination.
pub open spec fn transfer_realized(
    txs: Seq<Transaction>,
    from: Seq<char>,
    to: Seq<char>,
    due: Date,
) -> bool {
    exists|i: int|
        0 <= i < txs.len() && (#[trigger] txs[i]).transaction_type == TransactionType::Transfer
            && txs[i].date == due && txs[i].account_id@ == to && match txs[i].from_account_id {
            Some(f) => f@ == from,
            None => false,
        }
}

/// The missed-transfer issues of one schedule's first `k` destinations:
/// each distinct destination without a realized transfer on the due date.
pub open spec fn nt_of(
    txs: Seq<Transaction>,
    rt: RepeatingTransfer,
    due: Date,
    k: int,
) -> Seq<IssueV>
    decreases k,
{
    if k <= 0 {
        Seq::empty()
    } else {
        let pre = nt_of(txs, rt, due, k - 1);
        let to = rt.to_account_ids@[k - 1]@;
        let dup = exists|j: int| 0 <= j < k - 1 && rt.to_account_ids@[j]@ == to;
        if !dup && !transfer_realized(txs, rt.from_account_id@, to, due) {
            pre.push(nt_issue(to, rt.from_account_id@, due))
        } else {
            pre
        }
    }
}

/// The missed-transfer issues of the first `k` schedules.
pub open spec fn nt_issues(
    txs: Seq<Transaction>,
    rts: Seq<RepeatingTransfer>,
    today: Date,
    k: int,
) -> Seq<IssueV>
    decreases k,
{
    if k <= 0 {
        Seq::empty()
    } else {
        let rt = rts[k - 1];
        let due = spec_latest_due(rt.repeat, rt.repeat_count, rt.start, today);
        nt_issues(txs, rts, today, k - 1) + nt_of(txs, rt, due, rt.to_account_ids@.len() as int)
    }
}

/// The sort rank of an issue type.
pub open spec fn type_rank(t: IssueType) -> int {
    match t {
        IssueType::TransferWithoutBalance => 0,
        IssueType::NoBalance => 1,
        IssueType::NoTransfer => 2,
    }
}

fn type_rank_exec(t: &IssueType) -> (r: u8)
    ensures
        r as int == type_rank(*t),
{
    match t {
        IssueType::TransferWithoutBalance => 0,
        IssueType::NoBalance => 1,
        IssueType::NoTransfer => 2,
    }
}

/// The sort rank of an account type (declaration order).
pub open spec fn account_type_rank(t: AccountType) -> int {
    match t {
        AccountType::Savings => 0,
        AccountType::Checking => 1,
        AccountType::Loan => 2,
        AccountType::CreditCard => 3,
        AccountType::Investment => 4,
        AccountType::Retirement => 5,
        AccountType::PhysicalAsset => 6,
        AccountType::External => 7,
    }
}

fn account_type_rank_exec(t: &AccountType) -> (r: u8)
    ensures
        r as int == account_type_rank(*t),
{
    match t {
        AccountType::Savings => 0,
        AccountType::Checking => 1,
        AccountType::Loan => 2,
        AccountType::CreditCard => 3,
        AccountType::Investment => 4,
        AccountType::Retirement => 5,
        AccountType::PhysicalAsset => 6,
        AccountType::External => 7,
    }
}

/// Lexicographic order on character sequences, by code point.
pub open spec fn str_lt(a: Seq<char>, b: Seq<char>) -> bool
    decreases a.len(),
{
    if b.len() == 0 {
        false
    } else if a.len() == 0 {
        true
    } else if a[0] != b[0] {
        (a[0] as int) < (b[0] as int)
    } else {
        str_lt(a.skip(1), b.skip(1))
    }
}

/// Lexicographic comparison of two strings.
fn str_lt_exec(a: &String, b: &String) -> (r: bool)
    ensures
        r == str_lt(a@, b@),
{
    let la = a.as_str().unicode_len();
    let lb = b.as_str().unicode_len();
    let mut i: usize = 0;
    proof {
        assert(a@.skip(0) =~= a@);
        assert(b@.skip(0) =~= b@);
    }
    loop
        invariant
            i <= la,
            i <= lb,
            la == a@.len(),
            lb == b@.len(),
            str_lt(a@, b@) == str_lt(a@.skip(i as int), b@.skip(i as int)),
        decreases la - i,
    {
        proof {
            if i < la && i < lb {
                assert(a@.skip(i as int)[0] == a@[i as int]);
                assert(b@.skip(i as int)[0] == b@[i as int]);
                assert(a@.skip(i as int).skip(1) =~= a@.skip(i as int + 1));
                assert(b@.skip(i as int).skip(1) =~= b@.skip(i as int + 1));
            }
        }
        if i >= lb {
            return false;
        }
        if i >= la {
            return true;
        }
        let ca = a.as_str().get_char(i);
        let cb = b.as_str().get_char(i);
        if ca != cb {
            return (ca as u32) < (cb as u32);
        }
        i = i + 1;
    }
}

/// Order on optional dates: absent sorts before any date.
pub open spec fn opt_date_lt(x: Option<Date>, y: Option<Date>) -> bool {
    match (x, y) {
        (None, None) => false,
        (None, Some(_)) => true,
        (Some(_), None) => false,
        (Some(dx), Some(dy)) => dx.spec_lt(dy),
    }
}

/// Whether the issue's account reference resolves to a known account.
pub open spec fn issue_resolved(accounts: Seq<Account>, x: Option<Seq<char>>) -> bool {
    match x {
        Some(a) => has_account(accounts, a),
        None => false,
    }
}

/// The issue order: most recent date first, then issue type, then — when
/// both sides resolve to a known account — the account's type and name
/// ascending; unresolved references sort after resolved ones.
pub open spec fn issue_le(accounts: Seq<Account>, a: IssueV, b: IssueV) -> bool {
    if a.date != b.date {
        opt_date_lt(b.date, a.date)
    } else if type_rank(a.issue_type) != type_rank(b.issue_type) {
        type_rank(a.issue_type) < type_rank(b.issue_type)
    } else {
        let ra = issue_resolved(accounts, a.account_id);
        let rb = issue_resolved(accounts, b.account_id);
        if ra != rb {
            ra
        } else if !ra {
            true
        } else {
            let aa = accounts[account_index(accounts, a.account_id->Some_0)];
            let ab = accounts[account_index(accounts, b.account_id->Some_0)];
            if account_type_rank(aa.account_type) != account_type_rank(ab.account_type) {
                account_type_rank(aa.account_type) < account_type_rank(ab.account_type)
            } else if aa.name@ != ab.name@ {
                str_lt(aa.name@, ab.name@)
            } else {
                true
            }
        }
    }
}

fn resolve_issue_account<'a>(accounts: &'a Vec<Account>, x: &Option<String>) -> (r: Option<
    &'a Account,
>)
    requires
        distinct_ids(accounts@),
    ensures
        match r {
            Some(acct) => {
                &&& issue_resolved(accounts@, view_opt_id(*x))
                &&& acct == accounts@[account_index(accounts@, view_opt_id(*x)->Some_0)]
            },
            None => !issue_resolved(accounts@, view_opt_id(*x)),
        },
{
    match x {
        None => None,
        Some(id) => match find_account(accounts, id) {
            Some(i) => Some(&accounts[i]),
            None => None,
        },
    }
}

/// The view of an optional account id.
pub open spec fn view_opt_id(x: Option<String>) -> Option<Seq<char>> {
    match x {
        Some(s) => Some(s@),
        None => None,
    }
}

/// Compare two issues in report order.
pub fn issue_le_exec(accounts: &Vec<Account>, a: &Issue, b: &Issue) -> (r: bool)
    requires
        distinct_ids(accounts@),
    ensures
        r == issue_le(accounts@, a@, b@),
{
    let dates_eq: bool = match (&a.date, &b.date) {
        (None, None) => true,
        (Some(da), Some(db)) => *da == *db,
        _ => false,
    };
    if !dates_eq {
        return match (&b.date, &a.date) {
            (None, None) => false,
            (None, Some(_)) => true,
            (Some(_), None) => false,
            (Some(dx), Some(dy)) => date_lt(dx, dy),
        };
    }
    let ta = type_rank_exec(&a.issue_type);
    let tb = type_rank_exec(&b.issue_type);
    if ta != tb {
        return ta < tb;
    }
    let ra = resolve_issue_account(accounts, &a.account_id);
    let rb = resolve_issue_account(accounts, &b.account_id);
    match (ra, rb) {
        (Some(_), None) => true,
        (None, Some(_)) => false,
        (None, None) => true,
        (Some(aa), Some(ab)) => {
            let ka = account_type_rank_exec(&aa.account_type);
            let kb = account_type_rank_exec(&ab.account_type);
            if ka != kb {
                ka < kb
            } else if !(aa.name == ab.name) {
                str_lt_exec(&aa.name, &ab.name)
            } else {
                true
            }
        },
    }
}

/// Insert an issue after every issue ordered on or before it.
pub open spec fn spec_insert_issue(accounts: Seq<Account>, s: Seq<IssueV>, t: IssueV) -> Seq<
    IssueV,
>
    decreases s.len(),
{
    if s.len() == 0 {
        seq![t]
    } else if issue_le(accounts, s.last(), t) {
        s.push(t)
    } else {
        spec_insert_issue(accounts, s.drop_last(), t).push(s.last())
    }
}

/// Stable insertion sort of issues in report order.
pub open spec fn spec_sort_issues(accounts: Seq<Account>, s: Seq<IssueV>) -> Seq<IssueV>
    decreases s.len(),
{
    if s.len() == 0 {
        Seq::empty()
    } else {
        spec_insert_issue(accounts, spec_sort_issues(accounts, s.drop_last()), s.last())
    }
}

proof fn lemma_insert_issue_at(accounts: Seq<Account>, s: Seq<IssueV>, t: IssueV, j: int)
    requires
        0 <= j <= s.len(),
        forall|m: int| j <= m < s.len() ==> !issue_le(accounts, #[trigger] s[m], t),
        j > 0 ==> issue_le(accounts, s[j - 1], t),
    ensures
        spec_insert_issue(accounts, s, t) == s.insert(j, t),
    decreases s.len(),
{
    if j == s.len() {
        if s.len() == 0 {
            assert(spec_insert_issue(accounts, s, t) =~= s.insert(j, t));
        } else {
            assert(s.push(t) =~= s.insert(j, t));
        }
    } else {
        lemma_insert_issue_at(accounts, s.drop_last(), t, j);
        assert(s.drop_last().insert(j, t).push(s.last()) =~= s.insert(j, t));
    }
}

fn insert_issue(accounts: &Vec<Account>, out: &mut Vec<Issue>, t: Issue)
    requires
        distinct_ids(accounts@),
    ensures
        issues_view(final(out)@) == spec_insert_issue(accounts@, issues_view(old(out)@), t@),
{
    let mut j: usize = out.len();
    while j > 0 && !issue_le_exec(accounts, &out[j - 1], &t)
        invariant
            j <= out@.len(),
            distinct_ids(accounts@),
            forall|m: int|
                j <= m < out@.len() ==> !issue_le(accounts@, #[trigger] issues_view(out@)[m], t@),
        decreases j,
    {
        j = j - 1;
    }
    proof {
        lemma_insert_issue_at(accounts@, issues_view(out@), t@, j as int);
    }
    let ghost pre = out@;
    out.insert(j, t);
    proof {
        assert(issues_view(out@) =~= issues_view(pre).insert(j as int, t@));
    }
}

/// Sort issues in report order: most recent date first, then issue type,
/// then resolved account type and name; ties keep their generation order.
pub fn sort_issues(accounts: &Vec<Account>, issues: Vec<Issue>) -> (r: Vec<Issue>)
    requires
        distinct_ids(accounts@),
    ensures
        issues_view(r@) == spec_sort_issues(accounts@, issues_view(issues@)),
{
    let ghost orig = issues@;
    let mut rest = issues;
    let mut out: Vec<Issue> = Vec::new();
    proof {
        assert(issues_view(orig.take(0)) =~= Seq::<IssueV>::empty());
        assert(rest@ =~= orig.skip(0));
    }
    while rest.len() > 0
        invariant
            distinct_ids(accounts@),
            rest@.len() <= orig.len(),
            issues_view(out@) == spec_sort_issues(
                accounts@,
                issues_view(orig.take(orig.len() - rest@.len())),
            ),
            rest@ == orig.skip(orig.len() - rest@.len()),
        decreases rest@.len(),
    {
        let ghost i = orig.len() - rest@.len();
        let t = rest.remove(0);
        proof {
            assert(t == orig[i as int]);
            assert(rest@ =~= orig.skip(i as int + 1));
            assert(issues_view(orig.take(i as int + 1)).drop_last() =~= issues_view(
                orig.take(i as int),
            ));
            assert(issues_view(orig.take(i as int + 1)).last() == orig[i as int]@);
        }
        insert_issue(accounts, &mut out, t);
    }
    proof {
        assert(issues_view(orig.take(orig.len() as int)) =~= issues_view(orig));
    }
    out
}

/// The id at position `j` already occurs earlier in the list.
fn earlier_duplicate(ids: &Vec<String>, j: usize) -> (r: bool)
    requires
        j < ids@.len(),
    ensures
        r == exists|q: int| 0 <= q < j && (#[trigger] ids@[q])@ == ids@[j as int]@,
{
    let mut m: usize = 0;
    while m < j
        invariant
            m <= j,
            j < ids@.len(),
            forall|q: int| 0 <= q < m ==> (#[trigger] ids@[q])@ != ids@[j as int]@,
        decreases j - m,
    {
        if ids[m] == ids[j] {
            return true;
        }
        m = m + 1;
    }
    false
}

/// The id occurs in the list.
fn contains_id(ids: &Vec<String>, x: &String) -> (r: bool)
    ensures
        r == in_id_list(crate::reports::names_view(ids@), x@),
{
    let mut i: usize = 0;
    while i < ids.len()
        invariant
            i <= ids@.len(),
            forall|j: int| 0 <= j < i ==> ids@[j]@ != x@,
        decreases ids@.len() - i,
    {
        if ids[i] == *x {
            proof {
                assert(crate::reports::names_view(ids@)[i as int] == x@);
            }
            return true;
        }
        i = i + 1;
    }
    proof {
        assert forall|j: int| 0 <= j < ids@.len() implies crate::reports::names_view(ids@)[j]
            != x@ by {}
    }
    false
}

/// Some transaction records a balance for the account on the date.
fn balance_exists(txs: &Vec<Transaction>, id: &String, d: &Date) -> (r: bool)
    ensures
        r == has_balance(txs@, id@, *d),
{
    let mut i: usize = 0;
    while i < txs.len()
        invariant
            i <= txs@.len(),
            forall|j: int|
                0 <= j < i ==> !((#[trigger] txs@[j]).transaction_type == TransactionType::Balance
                    && txs@[j].account_id@ == id@ && txs@[j].date == *d),
        decreases txs@.len() - i,
    {
        let t = &txs[i];
        let is_bal: bool = match t.transaction_type {
            TransactionType::Balance => true,
            TransactionType::Transfer => false,
        };
        if is_bal && t.account_id == *id && t.date == *d {
            return true;
        }
        i = i + 1;
    }
    false
}

/// Some transfer before index `i` already touches the account on the date.
fn touched_before_exec(txs: &Vec<Transaction>, i: usize, id: &String, d: &Date) -> (r: bool)
    requires
        i <= txs@.len(),
    ensures
        r == touched_before(txs@, i as int, id@, *d),
{
    let mut j: usize = 0;
    while j < i
        invariant
            j <= i,
            i <= txs@.len(),
            forall|m: int| 0 <= m < j ==> !tx_touches(#[trigger] txs@[m], id@, *d),
        decreases i - j,
    {
        let t = &txs[j];
        let is_tra: bool = match t.transaction_type {
            TransactionType::Balance => false,
            TransactionType::Transfer => true,
        };
        if is_tra && t.date == *d {
            if t.account_id == *id {
                return true;
            }
            match &t.from_account_id {
                Some(f) => if *f == *id {
                    return true;
                },
                None => {},
            }
        }
        j = j + 1;
    }
    false
}

/// Report every (account, date) pair touched by a transfer where the account
/// is not ignored and no balance exists for that exact pair.
pub fn calculate_transfer_without_balances(
    transactions: &Vec<Transaction>,
    transfer_without_balance_ignored_account_ids: &Vec<String>,
    issues: &mut Vec<Issue>,
)
    ensures
        issues_view(final(issues)@) == issues_view(old(issues)@) + twb_issues(
            transactions@,
            crate::reports::names_view(transfer_without_balance_ignored_account_ids@),
            transactions@.len() as int,
        ),
{
    let ghost xs = transactions@;
    let ghost ig = crate::reports::names_view(transfer_without_balance_ignored_account_ids@);
    let ghost base = issues_view(issues@);
    let mut i: usize = 0;
    proof {
        assert(base + twb_issues(xs, ig, 0) =~= base);
    }
    while i < transactions.len()
        invariant
            i <= xs.len(),
            xs == transactions@,
            ig == crate::reports::names_view(transfer_without_balance_ignored_account_ids@),
            issues_view(issues@) == base + twb_issues(xs, ig, i as int),
        decreases xs.len() - i,
    {
        let t = &transactions[i];
        let ghost pre = issues_view(issues@);
        let is_tra: bool = match t.transaction_type {
            TransactionType::Balance => false,
            TransactionType::Transfer => true,
        };
        if is_tra {
            let emit_acct: bool = !contains_id(
                transfer_without_balance_ignored_account_ids,
                &t.account_id,
            ) && !balance_exists(transactions, &t.account_id, &t.date) && !touched_before_exec(
                transactions,
                i,
                &t.account_id,
                &t.date,
            );
            if emit_acct {
                issues.push(
                    Issue {
                        issue_type: IssueType::TransferWithoutBalance,
                        date: Some(t.date),
                        account_id: Some(t.account_id.clone()),
                        from_account_id: None,
                    },
                );
            }
            match &t.from_account_id {
                Some(f) => {
                    let emit_from: bool = !(*f == t.account_id) && !contains_id(
                        transfer_without_balance_ignored_account_ids,
                        f,
                    ) && !balance_exists(transactions, f, &t.date) && !touched_before_exec(
                        transactions,
                        i,
                        f,
                        &t.date,
                    );
                    if emit_from {
                        issues.push(
                            Issue {
                                issue_type: IssueType::TransferWithoutBalance,
                                date: Some(t.date),
                                account_id: Some(f.clone()),
                                from_account_id: None,
                            },
                        );
                    }
                },
                None => {},
            }
        }
        proof {
            assert(issues_view(issues@) =~= pre + twb_of(xs, ig, i as int));
            assert(base + (twb_issues(xs, ig, i as int) + twb_of(xs, ig, i as int)) =~= (base
                + twb_issues(xs, ig, i as int)) + twb_of(xs, ig, i as int));
        }
        i = i + 1;
    }
}

/// Report every non-external, non-excused account with no balance on the
/// first day of the current month.
pub fn calculate_no_balances(
    no_regular_balance_account_ids: &Vec<String>,
    accounts: &Vec<Account>,
    issues: &mut Vec<Issue>,
    transactions: &Vec<Transaction>,
    first_day_of_this_month: Date,
)
    ensures
        issues_view(final(issues)@) == issues_view(old(issues)@) + nb_issues(
            accounts@,
            crate::reports::names_view(no_regular_balance_account_ids@),
            transactions@,
            first_day_of_this_month,
            accounts@.len() as int,
        ),
{
    let ghost xs = transactions@;
    let ghost nr = crate::reports::names_view(no_regular_balance_account_ids@);
    let ghost base = issues_view(issues@);
    let mut i: usize = 0;
    proof {
        assert(base + nb_issues(accounts@, nr, xs, first_day_of_this_month, 0) =~= base);
    }
    while i < accounts.len()
        invariant
            i <= accounts@.len(),
            xs == transactions@,
            nr == crate::reports::names_view(no_regular_balance_account_ids@),
            issues_view(issues@) == base + nb_issues(
                accounts@,
                nr,
                xs,
                first_day_of_this_month,
                i as int,
            ),
        decreases accounts@.len() - i,
    {
        let a = &accounts[i];
        let ghost pre = issues_view(issues@);
        let external: bool = match a.account_type {
            AccountType::External => true,
            _ => false,
        };
        if !external && !contains_id(no_regular_balance_account_ids, &a.id) && !balance_exists(
            transactions,
            &a.id,
            &first_day_of_this_month,
        ) {
            issues.push(
                Issue {
                    issue_type: IssueType::NoBalance,
                    date: Some(first_day_of_this_month),
                    account_id: Some(a.id.clone()),
                    from_account_id: None,
                },
            );
            proof {
                assert(issues_view(issues@) =~= pre.push(
                    IssueV {
                        issue_type: IssueType::NoBalance,
                        date: Some(first_day_of_this_month),
                        account_id: Some(accounts@[i as int].id@),
                        from_account_id: None,
                    },
                ));
            }
        }
        i = i + 1;
    }
}

/// Some transaction realizes the scheduled transfer to this destination.
fn realized_exec(txs: &Vec<Transaction>, from: &String, to: &String, due: &Date) -> (r: bool)
    ensures
        r == transfer_realized(txs@, from@, to@, *due),
{
    let mut i: usize = 0;
    while i < txs.len()
        invariant
            i <= txs@.len(),
            forall|j: int|
                0 <= j < i ==> !((#[trigger] txs@[j]).transaction_type == TransactionType::Transfer
                    && txs@[j].date == *due && txs@[j].account_id@ == to@ && match txs@[
                    j
                ].from_account_id {
                    Some(f) => f@ == from@,
                    None => false,
                }),
        decreases txs@.len() - i,
    {
        let t = &txs[i];
        let is_tra: bool = match t.transaction_type {
            TransactionType::Balance => false,
            TransactionType::Transfer => true,
        };
        if is_tra && t.date == *due && t.account_id == *to {
            match &t.from_account_id {
                Some(f) => if *f == *from {
                    return true;
                },
                None => {},
            }
        }
        i = i + 1;
    }
    false
}

/// Report each schedule's destinations missing a realized transfer on the
/// schedule's latest due date.
pub fn calculate_no_transfers(
    transactions: &Vec<Transaction>,
    repeating_transfers: &Vec<RepeatingTransfer>,
    issues: &mut Vec<Issue>,
    today: &Date,
)
    requires
        today.valid(),
        forall|i: int|
            0 <= i < repeating_transfers@.len() ==> {
                &&& (#[trigger] repeating_transfers@[i]).start.valid()
                &&& repeating_transfers@[i].start.spec_le(*today)
                &&& repeating_transfers@[i].repeat_count >= 1
            },
    ensures
        issues_view(final(issues)@) == issues_view(old(issues)@) + nt_issues(
            transactions@,
            repeating_transfers@,
            *today,
            repeating_transfers@.len() as int,
        ),
{
    let ghost xs = transactions@;
    let ghost rts = repeating_transfers@;
    let ghost base = issues_view(issues@);
    let mut i: usize = 0;
    proof {
        assert(base + nt_issues(xs, rts, *today, 0) =~= base);
    }
    while i < repeating_transfers.len()
        invariant
            i <= rts.len(),
            xs == transactions@,
            rts == repeating_transfers@,
            today.valid(),
            forall|m: int|
                0 <= m < rts.len() ==> {
                    &&& (#[trigger] rts[m]).start.valid()
                    &&& rts[m].start.spec_le(*today)
                    &&& rts[m].repeat_count >= 1
                },
            issues_view(issues@) == base + nt_issues(xs, rts, *today, i as int),
        decreases rts.len() - i,
    {
        let rt = &repeating_transfers[i];
        let due: Date = find_latest_repeat_date(rt, today);
        let ghost pre = issues_view(issues@);
        let mut j: usize = 0;
        proof {
            assert(pre + nt_of(xs, rts[i as int], due, 0) =~= pre);
        }
        while j < rt.to_account_ids.len()
            invariant
                j <= rt.to_account_ids@.len(),
                xs == transactions@,
                rts == repeating_transfers@,
                rt == rts[i as int],
                0 <= i < rts.len(),
                due == spec_latest_due(rt.repeat, rt.repeat_count, rt.start, *today),
                issues_view(issues@) == pre + nt_of(xs, rts[i as int], due, j as int),
            decreases rt.to_account_ids@.len() - j,
        {
            let to = &rt.to_account_ids[j];
            let ghost prej = issues_view(issues@);
            let dup: bool = earlier_duplicate(&rt.to_account_ids, j);
            if !dup && !realized_exec(transactions, &rt.from_account_id, to, &due) {
                issues.push(
                    Issue {
                        issue_type: IssueType::NoTransfer,
                        date: Some(due),
                        account_id: Some(to.clone()),
                        from_account_id: Some(rt.from_account_id.clone()),
                    },
                );
                proof {
                    assert(issues_view(issues@) =~= prej.push(
                        nt_issue(
                            rt.to_account_ids@[j as int]@,
                            rt.from_account_id@,
                            due,
                        ),
                    ));
                }
            }
            j = j + 1;
        }
        proof {
            assert(base + (nt_issues(xs, rts, *today, i as int) + nt_of(
                xs,
                rts[i as int],
                due,
                rts[i as int].to_account_ids@.len() as int,
            )) =~= (base + nt_issues(xs, rts, *today, i as int)) + nt_of(
                xs,
                rts[i as int],
                due,
                rts[i as int].to_account_ids@.len() as int,
            ));
        }
        i = i + 1;
    }
}

/// The first problem of one schedule: an unknown account reference, a zero
/// repeat count, or a start that is invalid or in the future.
pub open spec fn spec_validate_rt(
    rt: RepeatingTransfer,
    accounts: Seq<Account>,
    today: Date,
) -> Option<EngineError> {
    if !has_account(accounts, rt.from_account_id@) {
        Some(EngineError::UnknownAccount)
    } else if exists|j: int|
        0 <= j < rt.to_account_ids@.len() && !has_account(
            accounts,
            (#[trigger] rt.to_account_ids@[j])@,
        ) {
        Some(EngineError::UnknownAccount)
    } else if rt.repeat_count == 0 {
        Some(EngineError::MalformedRepeatingTransfers)
    } else if !rt.start.valid() || !rt.start.spec_le(today) {
        Some(EngineError::MalformedRepeatingTransfers)
    } else {
        None
    }
}

/// The first problem among the schedules, if any.
pub open spec fn spec_validate_rts(
    rts: Seq<RepeatingTransfer>,
    accounts: Seq<Account>,
    today: Date,
) -> Option<EngineError>
    decreases rts.len(),
{
    if rts.len() == 0 {
        None
    } else {
        match spec_validate_rt(rts[0], accounts, today) {
            Some(e) => Some(e),
            None => spec_validate_rts(rts.skip(1), accounts, today),
        }
    }
}

/// Check every schedule against the account table and the date range.
pub fn verify_repeating_transfers(
    repeating_transfers: &Vec<RepeatingTransfer>,
    accounts: &Vec<Account>,
    today: &Date,
) -> (r: Result<(), EngineError>)
    requires
        distinct_ids(accounts@),
    ensures
        match r {
            Ok(_) => spec_validate_rts(repeating_transfers@, accounts@, *today) is None,
            Err(e) => spec_validate_rts(repeating_transfers@, accounts@, *today) == Some(e),
        },
        r is Ok ==> forall|i: int|
            0 <= i < repeating_transfers@.len() ==> {
                &&& (#[trigger] repeating_transfers@[i]).start.valid()
                &&& repeating_transfers@[i].start.spec_le(*today)
                &&& repeating_transfers@[i].repeat_count >= 1
            },
{
    let ghost rts = repeating_transfers@;
    let mut i: usize = 0;
    proof {
        assert(rts.skip(0) =~= rts);
    }
    while i < repeating_transfers.len()
        invariant
            i <= rts.len(),
            rts == repeating_transfers@,
            distinct_ids(accounts@),
            spec_validate_rts(rts.skip(i as int), accounts@, *today) == spec_validate_rts(
                rts,
                accounts@,
                *today,
            ),
            forall|m: int|
                0 <= m < i ==> spec_validate_rt(#[trigger] rts[m], accounts@, *today) is None,
        decreases rts.len() - i,
    {
        let rt = &repeating_transfers[i];
        proof {
            assert(rts.skip(i as int)[0] == rts[i as int]);
            assert(rts.skip(i as int).skip(1) =~= rts.skip(i as int + 1));
        }
        if find_account(accounts, &rt.from_account_id).is_none() {
            return Err(EngineError::UnknownAccount);
        }
        let mut j: usize = 0;
        while j < rt.to_account_ids.len()
            invariant
                j <= rt.to_account_ids@.len(),
                distinct_ids(accounts@),
                rt == rts[i as int],
                0 <= i < rts.len(),
                rts == repeating_transfers@,
                spec_validate_rts(rts.skip(i as int), accounts@, *today) == spec_validate_rts(
                    rts,
                    accounts@,
                    *today,
                ),
                has_account(accounts@, rt.from_account_id@),
                forall|m: int|
                    0 <= m < j ==> has_account(accounts@, (#[trigger] rt.to_account_ids@[m])@),
            decreases rt.to_account_ids@.len() - j,
        {
            if find_account(accounts, &rt.to_account_ids[j]).is_none() {
                proof {
                    assert(!has_account(accounts@, rt.to_account_ids@[j as int]@));
                    assert(spec_validate_rt(rts[i as int], accounts@, *today) == Some(
                        EngineError::UnknownAccount,
                    ));
                    assert(rts.skip(i as int)[0] == rts[i as int]);
                }
                return Err(EngineError::UnknownAccount);
            }
            j = j + 1;
        }
        if rt.repeat_count == 0 {
            return Err(EngineError::MalformedRepeatingTransfers);
        }
        let sd = rt.start;
        let valid_start: bool = 1 <= sd.year && sd.year <= MAX_YEAR && 1 <= sd.month && sd.month
            <= 12 && 1 <= sd.day && sd.day <= crate::date::days_in_month(sd.year, if sd.month >= 1
            && sd.month <= 12 {
            sd.month
        } else {
            1
        });
        if !valid_start || !date_le(&sd, today) {
            return Err(EngineError::MalformedRepeatingTransfers);
        }
        i = i + 1;
    }
    proof {
        assert(rts.skip(rts.len() as int).len() == 0);
    }
    Ok(())
}

/// What issue detection computes once the schedules validate: the three
/// passes' findings, sorted in report order.
pub open spec fn spec_issues_ok(
    txs: Seq<Transaction>,
    accounts: Seq<Account>,
    ignore: Seq<Seq<char>>,
    no_reg: Seq<Seq<char>>,
    rts: Seq<RepeatingTransfer>,
    today: Date,
) -> Seq<IssueV> {
    let first = Date { year: today.year, month: today.month, day: 1 };
    spec_sort_issues(
        accounts,
        twb_issues(txs, ignore, txs.len() as int) + nb_issues(
            accounts,
            no_reg,
            txs,
            first,
            accounts.len() as int,
        ) + nt_issues(txs, rts, today, rts.len() as int),
    )
}

/// Detect data-quality issues over one snapshot, as of `today`: transfers
/// without a corroborating balance, accounts missing their monthly balance,
/// and missed scheduled transfers — sorted most recent first. A schedule
/// referencing an unknown account, or malformed (zero repeat count, start
/// invalid or in the future), is a caller-visible input error.
pub fn list_issues(
    transactions: &Vec<Transaction>,
    accounts: &Vec<Account>,
    transfer_without_balance_ignored_account_ids: &Vec<String>,
    no_regular_balance_account_ids: &Vec<String>,
    repeating_transfers: &Vec<RepeatingTransfer>,
    today: Date,
) -> (r: Result<Vec<Issue>, EngineError>)
    requires
        distinct_ids(accounts@),
        today.valid(),
    ensures
        match r {
            Ok(v) => {
                &&& spec_validate_rts(repeating_transfers@, accounts@, today) is None
                &&& issues_view(v@) == spec_issues_ok(
                    transactions@,
                    accounts@,
                    crate::reports::names_view(transfer_without_balance_ignored_account_ids@),
                    crate::reports::names_view(no_regular_balance_account_ids@),
                    repeating_transfers@,
                    today,
                )
            },
            Err(e) => spec_validate_rts(repeating_transfers@, accounts@, today) == Some(e),
        },
{
    match verify_repeating_transfers(repeating_transfers, accounts, &today) {
        Ok(_) => {},
        Err(e) => {
            return Err(e);
        },
    }
    let first = Date { year: today.year, month: today.month, day: 1 };
    let mut issues: Vec<Issue> = Vec::new();
    proof {
        assert(issues_view(issues@) =~= Seq::<IssueV>::empty());
    }
    calculate_transfer_without_balances(
        transactions,
        transfer_without_balance_ignored_account_ids,
        &mut issues,
    );
    calculate_no_balances(
        no_regular_balance_account_ids,
        accounts,
        &mut issues,
        transactions,
        first,
    );
    calculate_no_transfers(transactions, repeating_transfers, &mut issues, &today);
    let ghost raw = issues_view(issues@);
    let sorted = sort_issues(accounts, issues);
    proof {
        let ig = crate::reports::names_view(transfer_without_balance_ignored_account_ids@);
        let nr = crate::reports::names_view(no_regular_balance_account_ids@);
        let tw = twb_issues(transactions@, ig, transactions@.len() as int);
        let nb = nb_issues(accounts@, nr, transactions@, first, accounts@.len() as int);
        let nt = nt_issues(
            transactions@,
            repeating_transfers@,
            today,
            repeating_transfers@.len() as int,
        );
        assert(raw =~= tw + nb + nt);
    }
    Ok(sorted)
}

/// What issue detection computes from the raw setting strings: ignore lists
/// parsed from their comma-joined encoding, schedules parsed from the
/// payload format, and then the three detection passes.
pub open spec fn spec_compute_issues(
    txs: Seq<Transaction>,
    accounts: Seq<Account>,
    ignored_raw: Option<Seq<char>>,
    no_regular_raw: Option<Seq<char>>,
    repeating_raw: Option<Seq<char>>,
    today: Date,
) -> Result<Seq<IssueV>, EngineError> {
    let ignore = match ignored_raw {
        Some(s) => crate::settings::spec_split_ids(s),
        None => Seq::empty(),
    };
    let no_reg = match no_regular_raw {
        Some(s) => crate::settings::spec_split_ids(s),
        None => Seq::empty(),
    };
    match repeating_raw {
        Some(raw) => match crate::schedule::spec_payload(raw) {
            None => Err(EngineError::MalformedRepeatingTransfers),
            Some(rts) => match spec_validate_rts_v(rts, accounts, today) {
                Some(e) => Err(e),
                None => Ok(spec_issues_ok_v(txs, accounts, ignore, no_reg, rts, today)),
            },
        },
        None => match spec_validate_rts_v(Seq::empty(), accounts, today) {
            Some(e) => Err(e),
            None => Ok(
                spec_issues_ok_v(txs, accounts, ignore, no_reg, Seq::empty(), today),
            ),
        },
    }
}

/// `spec_validate_rts` over schedule views.
pub open spec fn spec_validate_rts_v(
    rts: Seq<crate::schema::RepeatingTransferV>,
    accounts: Seq<Account>,
    today: Date,
) -> Option<EngineError>
    decreases rts.len(),
{
    if rts.len() == 0 {
        None
    } else {
        match spec_validate_rt_v(rts[0], accounts, today) {
            Some(e) => Some(e),
            None => spec_validate_rts_v(rts.skip(1), accounts, today),
        }
    }
}

/// `spec_validate_rt` over a schedule view.
pub open spec fn spec_validate_rt_v(
    rt: crate::schema::RepeatingTransferV,
    accounts: Seq<Account>,
    today: Date,
) -> Option<EngineError> {
    if !has_account(accounts, rt.from_account_id) {
        Some(EngineError::UnknownAccount)
    } else if exists|j: int|
        0 <= j < rt.to_account_ids.len() && !has_account(
            accounts,
            #[trigger] rt.to_account_ids[j],
        ) {
        Some(EngineError::UnknownAccount)
    } else if rt.repeat_count == 0 {
        Some(EngineError::MalformedRepeatingTransfers)
    } else if !rt.start.valid() || !rt.start.spec_le(today) {
        Some(EngineError::MalformedRepeatingTransfers)
    } else {
        None
    }
}

/// `spec_issues_ok` with the schedules given as views.
pub open spec fn spec_issues_ok_v(
    txs: Seq<Transaction>,
    accounts: Seq<Account>,
    ignore: Seq<Seq<char>>,
    no_reg: Seq<Seq<char>>,
    rts: Seq<crate::schema::RepeatingTransferV>,
    today: Date,
) -> Seq<IssueV> {
    let first = Date { year: today.year, month: today.month, day: 1 };
    spec_sort_issues(
        accounts,
        twb_issues(txs, ignore, txs.len() as int) + nb_issues(
            accounts,
            no_reg,
            txs,
            first,
            accounts.len() as int,
        ) + nt_issues_v(txs, rts, today, rts.len() as int),
    )
}

/// `nt_issues` over schedule views.
pub open spec fn nt_issues_v(
    txs: Seq<Transaction>,
    rts: Seq<crate::schema::RepeatingTransferV>,
    today: Date,
    k: int,
) -> Seq<IssueV>
    decreases k,
{
    if k <= 0 {
        Seq::empty()
    } else {
        let rt = rts[k - 1];
        let due = spec_latest_due(rt.repeat, rt.repeat_count, rt.start, today);
        nt_issues_v(txs, rts, today, k - 1) + nt_of_v(txs, rt, due, rt.to_account_ids.len() as int)
    }
}

/// `nt_of` over a schedule view.
pub open spec fn nt_of_v(
    txs: Seq<Transaction>,
    rt: crate::schema::RepeatingTransferV,
    due: Date,
    k: int,
) -> Seq<IssueV>
    decreases k,
{
    if k <= 0 {
        Seq::empty()
    } else {
        let pre = nt_of_v(txs, rt, due, k - 1);
        let to = rt.to_account_ids[k - 1];
        let dup = exists|j: int| 0 <= j < k - 1 && rt.to_account_ids[j] == to;
        if !dup && !transfer_realized(txs, rt.from_account_id, to, due) {
            pre.push(nt_issue(to, rt.from_account_id, due))
        } else {
            pre
        }
    }
}

/// The concrete validation agrees with its view form.
proof fn lemma_validate_view(
    rts: Seq<RepeatingTransfer>,
    accounts: Seq<Account>,
    today: Date,
)
    ensures
        spec_validate_rts(rts, accounts, today) == spec_validate_rts_v(
            crate::schedule::rts_view(rts),
            accounts,
            today,
        ),
    decreases rts.len(),
{
    if rts.len() > 0 {
        let vs = crate::schedule::rts_view(rts);
        let rt = rts[0];
        assert(vs[0] == rt@);
        assert forall|j: int| 0 <= j < rt.to_account_ids@.len() implies rt@.to_account_ids[j]
            == (#[trigger] rt.to_account_ids@[j])@ by {}
        if exists|j: int|
            0 <= j < rt.to_account_ids@.len() && !has_account(
                accounts,
                (#[trigger] rt.to_account_ids@[j])@,
            ) {
            let j = choose|j: int|
                0 <= j < rt.to_account_ids@.len() && !has_account(
                    accounts,
                    (#[trigger] rt.to_account_ids@[j])@,
                );
            assert(!has_account(accounts, rt@.to_account_ids[j]));
        }
        if exists|j: int|
            0 <= j < rt@.to_account_ids.len() && !has_account(
                accounts,
                #[trigger] rt@.to_account_ids[j],
            ) {
            let j = choose|j: int|
                0 <= j < rt@.to_account_ids.len() && !has_account(
                    accounts,
                    #[trigger] rt@.to_account_ids[j],
                );
            assert(!has_account(accounts, rt.to_account_ids@[j]@));
        }
        assert(spec_validate_rt(rt, accounts, today) == spec_validate_rt_v(
            vs[0],
            accounts,
            today,
        ));
        lemma_validate_view(rts.skip(1), accounts, today);
        assert(crate::schedule::rts_view(rts.skip(1)) =~= vs.skip(1));
    }
}

/// The concrete missed-transfer pass agrees with its view form.
proof fn lemma_nt_view(
    txs: Seq<Transaction>,
    rts: Seq<RepeatingTransfer>,
    today: Date,
    k: int,
)
    requires
        0 <= k <= rts.len(),
    ensures
        nt_issues(txs, rts, today, k) == nt_issues_v(
            txs,
            crate::schedule::rts_view(rts),
            today,
            k,
        ),
    decreases k,
{
    if k > 0 {
        lemma_nt_view(txs, rts, today, k - 1);
        let vs = crate::schedule::rts_view(rts);
        assert(vs[k - 1] == rts[k - 1]@);
        lemma_nt_of_view(txs, rts[k - 1], spec_latest_due(
            rts[k - 1].repeat,
            rts[k - 1].repeat_count,
            rts[k - 1].start,
            today,
        ), rts[k - 1].to_account_ids@.len() as int);
    }
}

proof fn lemma_nt_of_view(txs: Seq<Transaction>, rt: RepeatingTransfer, due: Date, k: int)
    requires
        0 <= k <= rt.to_account_ids@.len(),
    ensures
        nt_of(txs, rt, due, k) == nt_of_v(txs, rt@, due, k),
    decreases k,
{
    if k > 0 {
        lemma_nt_of_view(txs, rt, due, k - 1);
        assert forall|j: int| 0 <= j < rt.to_account_ids@.len() implies rt@.to_account_ids[j]
            == (#[trigger] rt.to_account_ids@[j])@ by {}
        if exists|j: int| 0 <= j < k - 1 && (#[trigger] rt.to_account_ids@[j])@
            == rt.to_account_ids@[k - 1]@ {
            let j = choose|j: int|
                0 <= j < k - 1 && (#[trigger] rt.to_account_ids@[j])@ == rt.to_account_ids@[
                k - 1]@;
            assert(rt@.to_account_ids[j] == rt@.to_account_ids[k - 1]);
        }
        if exists|j: int|
            0 <= j < k - 1 && #[trigger] rt@.to_account_ids[j] == rt@.to_account_ids[k - 1] {
            let j = choose|j: int|
                0 <= j < k - 1 && #[trigger] rt@.to_account_ids[j] == rt@.to_account_ids[k - 1];
            assert(rt.to_account_ids@[j]@ == rt.to_account_ids@[k - 1]@);
        }
    }
}

/// Detect data-quality issues straight from the stored setting strings:
/// the comma-joined ignore lists and the repeating-transfers payload are
/// parsed here, so a malformed payload is a caller-visible input error.
pub fn compute_issues(
    transactions: &Vec<Transaction>,
    accounts: &Vec<Account>,
    ignored_raw: Option<&str>,
    no_regular_raw: Option<&str>,
    repeating_raw: Option<&str>,
    today: Date,
) -> (r: Result<Vec<Issue>, EngineError>)
    requires
        distinct_ids(accounts@),
        today.valid(),
    ensures
        match r {
            Ok(v) => spec_compute_issues(
                transactions@,
                accounts@,
                match ignored_raw {
                    Some(s) => Some(s@),
                    None => None,
                },
                match no_regular_raw {
                    Some(s) => Some(s@),
                    None => None,
                },
                match repeating_raw {
                    Some(s) => Some(s@),
                    None => None,
                },
                today,
            ) == Ok::<Seq<IssueV>, EngineError>(issues_view(v@)),
            Err(e) => spec_compute_issues(
                transactions@,
                accounts@,
                match ignored_raw {
                    Some(s) => Some(s@),
                    None => None,
                },
                match no_regular_raw {
                    Some(s) => Some(s@),
                    None => None,
                },
                match repeating_raw {
                    Some(s) => Some(s@),
                    None => None,
                },
                today,
            ) == Err::<Seq<IssueV>, EngineError>(e),
        },
{
    let ignore: Vec<String> = match ignored_raw {
        Some(s) => crate::settings::split_account_ids(s),
        None => Vec::new(),
    };
    let no_regular: Vec<String> = match no_regular_raw {
        Some(s) => crate::settings::split_account_ids(s),
        None => Vec::new(),
    };
    proof {
        match ignored_raw {
            Some(s) => {},
            None => {
                assert(crate::reports::names_view(ignore@) =~= Seq::<Seq<char>>::empty());
            },
        }
        match no_regular_raw {
            Some(s) => {},
            None => {
                assert(crate::reports::names_view(no_regular@) =~= Seq::<Seq<char>>::empty());
            },
        }
    }
    let repeating: Vec<RepeatingTransfer> = match repeating_raw {
        Some(s) => match crate::schedule::parse_repeating_transfers(s) {
            Ok(v) => v,
            Err(e) => {
                return Err(e);
            },
        },
        None => Vec::new(),
    };
    proof {
        match repeating_raw {
            Some(s) => {},
            None => {
                assert(crate::schedule::rts_view(repeating@) =~= Seq::<
                    crate::schema::RepeatingTransferV,
                >::empty());
            },
        }
        lemma_validate_view(repeating@, accounts@, today);
        lemma_nt_view(transactions@, repeating@, today, repeating@.len() as int);
    }
    list_issues(transactions, accounts, &ignore, &no_regular, &repeating, today)
}

/// Lexicographic order is connected: two sequences compare or are equal.
proof fn lemma_str_lt_connected(a: Seq<char>, b: Seq<char>)
    ensures
        str_lt(a, b) || str_lt(b, a) || a == b,
    decreases a.len(),
{
    if b.len() == 0 && a.len() == 0 {
        assert(a =~= b);
    } else if a.len() > 0 && b.len() > 0 {
        if a[0] == b[0] {
            lemma_str_lt_connected(a.skip(1), b.skip(1));
            if a.skip(1) == b.skip(1) {
                assert(a.skip(1).len() == a.len() - 1);
                assert(b.skip(1).len() == b.len() - 1);
                assert(a.len() == b.len());
                assert forall|i: int| 0 <= i < a.len() implies a[i] == b[i] by {
                    if i >= 1 {
                        assert(a.skip(1)[i - 1] == a[i]);
                        assert(b.skip(1)[i - 1] == b[i]);
                    }
                }
                assert(a =~= b);
            }
        }
    }
}

/// Lexicographic order is transitive.
proof fn lemma_str_lt_trans(a: Seq<char>, b: Seq<char>, c: Seq<char>)
    requires
        str_lt(a, b),
        str_lt(b, c),
    ensures
        str_lt(a, c),
    decreases a.len(),
{
    if a.len() > 0 && b.len() > 0 && c.len() > 0 {
        if a[0] == b[0] && b[0] == c[0] {
            lemma_str_lt_trans(a.skip(1), b.skip(1), c.skip(1));
        }
    }
}

/// Every pair of issues compares in at least one direction.
pub proof fn lemma_issue_le_total(accounts: Seq<Account>, a: IssueV, b: IssueV)
    ensures
        issue_le(accounts, a, b) || issue_le(accounts, b, a),
{
    if a.date == b.date && type_rank(a.issue_type) == type_rank(b.issue_type) {
        let ra = issue_resolved(accounts, a.account_id);
        let rb = issue_resolved(accounts, b.account_id);
        if ra == rb && ra {
            let aa = accounts[account_index(accounts, a.account_id->Some_0)];
            let ab = accounts[account_index(accounts, b.account_id->Some_0)];
            lemma_str_lt_connected(aa.name@, ab.name@);
        }
    }
}

/// The issue order is transitive.
pub proof fn lemma_issue_le_trans(accounts: Seq<Account>, a: IssueV, b: IssueV, c: IssueV)
    requires
        issue_le(accounts, a, b),
        issue_le(accounts, b, c),
    ensures
        issue_le(accounts, a, c),
{
    if a.date == b.date && b.date == c.date && type_rank(a.issue_type) == type_rank(b.issue_type)
        && type_rank(b.issue_type) == type_rank(c.issue_type) {
        let ra = issue_resolved(accounts, a.account_id);
        let rb = issue_resolved(accounts, b.account_id);
        let rc = issue_resolved(accounts, c.account_id);
        if ra == rb && rb == rc && ra {
            let aa = accounts[account_index(accounts, a.account_id->Some_0)];
            let ab = accounts[account_index(accounts, b.account_id->Some_0)];
            let ac = accounts[account_index(accounts, c.account_id->Some_0)];
            if account_type_rank(aa.account_type) == account_type_rank(ab.account_type)
                && account_type_rank(ab.account_type) == account_type_rank(ac.account_type) {
                if aa.name@ != ab.name@ && ab.name@ != ac.name@ && aa.name@ != ac.name@ {
                    lemma_str_lt_trans(aa.name@, ab.name@, ac.name@);
                }
            }
        }
    }
}

/// Sorted in the issue report order.
pub open spec fn sorted_issues(accounts: Seq<Account>, s: Seq<IssueV>) -> bool {
    forall|i: int, j: int|
        0 <= i <= j < s.len() ==> issue_le(accounts, #[trigger] s[i], #[trigger] s[j])
}

proof fn lemma_insert_issue_len(accounts: Seq<Account>, s: Seq<IssueV>, t: IssueV)
    ensures
        spec_insert_issue(accounts, s, t).len() == s.len() + 1,
    decreases s.len(),
{
    if s.len() > 0 && !issue_le(accounts, s.last(), t) {
        lemma_insert_issue_len(accounts, s.drop_last(), t);
    }
}

proof fn lemma_insert_issue_elems(accounts: Seq<Account>, s: Seq<IssueV>, t: IssueV, i: int)
    requires
        0 <= i < spec_insert_issue(accounts, s, t).len(),
    ensures
        spec_insert_issue(accounts, s, t)[i] == t || exists|m: int|
            0 <= m < s.len() && spec_insert_issue(accounts, s, t)[i] == #[trigger] s[m],
    decreases s.len(),
{
    lemma_insert_issue_len(accounts, s, t);
    if s.len() == 0 {
    } else if issue_le(accounts, s.last(), t) {
    } else {
        lemma_insert_issue_len(accounts, s.drop_last(), t);
        if i < spec_insert_issue(accounts, s, t).len() - 1 {
            lemma_insert_issue_elems(accounts, s.drop_last(), t, i);
        }
    }
}

proof fn lemma_insert_issue_sorted(accounts: Seq<Account>, s: Seq<IssueV>, t: IssueV)
    requires
        sorted_issues(accounts, s),
    ensures
        sorted_issues(accounts, spec_insert_issue(accounts, s, t)),
        spec_insert_issue(accounts, s, t).len() == s.len() + 1,
    decreases s.len(),
{
    lemma_insert_issue_len(accounts, s, t);
    if s.len() == 0 {
        let out = spec_insert_issue(accounts, s, t);
        assert forall|i: int, j: int| 0 <= i <= j < out.len() implies issue_le(
            accounts,
            #[trigger] out[i],
            #[trigger] out[j],
        ) by {
            lemma_issue_le_total(accounts, t, t);
        }
    } else if issue_le(accounts, s.last(), t) {
        let out = s.push(t);
        assert forall|i: int, j: int| 0 <= i <= j < out.len() implies issue_le(
            accounts,
            #[trigger] out[i],
            #[trigger] out[j],
        ) by {
            if j == out.len() - 1 {
                if i < j {
                    lemma_issue_le_trans(accounts, s[i], s.last(), t);
                } else {
                    lemma_issue_le_total(accounts, t, t);
                }
            }
        }
    } else {
        lemma_insert_issue_sorted(accounts, s.drop_last(), t);
        lemma_issue_le_total(accounts, s.last(), t);
        let pre = spec_insert_issue(accounts, s.drop_last(), t);
        let out = pre.push(s.last());
        assert forall|i: int| 0 <= i < pre.len() implies issue_le(
            accounts,
            #[trigger] pre[i],
            s.last(),
        ) by {
            lemma_insert_issue_elems(accounts, s.drop_last(), t, i);
            if pre[i] == t {
            } else {
                let m = choose|m: int| 0 <= m < s.drop_last().len() && pre[i] == s.drop_last()[m];
                assert(s.drop_last()[m] == s[m]);
                assert(issue_le(accounts, s[m], s.last()));
            }
        }
        assert forall|i: int, j: int| 0 <= i <= j < out.len() implies issue_le(
            accounts,
            #[trigger] out[i],
            #[trigger] out[j],
        ) by {
            if j < out.len() - 1 {
                assert(issue_le(accounts, pre[i], pre[j]));
            } else if i < j {
                assert(issue_le(accounts, pre[i], s.last()));
            } else {
                lemma_issue_le_total(accounts, out[i], out[i]);
            }
        }
    }
}

/// Law: the issue report is sorted — most recent date first, then issue
/// type, then the resolved account's type and name, unresolved references
/// last among their date and type.
pub proof fn lemma_sort_issues_sorted(accounts: Seq<Account>, s: Seq<IssueV>)
    ensures
        sorted_issues(accounts, spec_sort_issues(accounts, s)),
        spec_sort_issues(accounts, s).len() == s.len(),
    decreases s.len(),
{
    if s.len() > 0 {
        lemma_sort_issues_sorted(accounts, s.drop_last());
        lemma_insert_issue_sorted(accounts, spec_sort_issues(accounts, s.drop_last()), s.last());
    }
}

} // verus!
