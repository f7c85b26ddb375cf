//! Cross-cutting laws of the engine, stated and proved over the same
//! specification functions that the executable functions are pinned to.

use vstd::prelude::*;
use crate::date::Date;
use crate::engine::{
    account_index, has_account, spec_kind, spec_resolve, spec_rows, spec_run, spec_upto,
    ResolvedTx,
};
use crate::reports::{
    account_names, account_rrows, spec_account_category, spec_make_stats, spec_total_category,
    total_names, totals_rrows,
};
use crate::schema::{Account, Transaction, TransactionType, ValueV};
use crate::totals::{reduce_partial, spec_reduce, total_type_at, types_of, TotalType};

verus! {

/// Sum of the first `k` values of a sequence.
pub open spec fn prefix_sum(s: Seq<int>, k: int) -> int
    decreases k,
{
    if k <= 0 {
        0
    } else {
        prefix_sum(s, k - 1) + s[k - 1]
    }
}

/// Sum of the first `k` report values.
pub open spec fn values_sum(vs: Seq<ValueV>, k: int) -> int
    decreases k,
{
    if k <= 0 {
        0
    } else {
        values_sum(vs, k - 1) + vs[k - 1].value
    }
}

/// The `Net` bucket of the categorical reducer sums every account's value.
pub proof fn lemma_reduce_net(slots: Seq<int>, types: Seq<crate::schema::AccountType>)
    ensures
        spec_reduce(slots, types)[1] == prefix_sum(slots, slots.len() as int),
{
    assert(total_type_at(1) == TotalType::Net);
    lemma_reduce_net_partial(slots, types, slots.len() as int);
}

proof fn lemma_reduce_net_partial(
    slots: Seq<int>,
    types: Seq<crate::schema::AccountType>,
    k: int,
)
    ensures
        reduce_partial(slots, types, 1, k) == prefix_sum(slots, k),
    decreases k,
{
    if k > 0 {
        lemma_reduce_net_partial(slots, types, k - 1);
    }
}

/// Resolution preserves each transaction's date and kind, and yields indexes
/// into the account table.
pub proof fn lemma_resolve_props(txs: Seq<Transaction>, accounts: Seq<Account>)
    requires
        spec_resolve(txs, accounts) is Ok,
    ensures
        spec_resolve(txs, accounts)->Ok_0.len() == txs.len(),
        forall|i: int|
            0 <= i < txs.len() ==> {
                &&& (#[trigger] spec_resolve(txs, accounts)->Ok_0[i]).date == txs[i].date
                &&& spec_resolve(txs, accounts)->Ok_0[i].transaction_type == txs[
                    i
                ].transaction_type
                &&& spec_resolve(txs, accounts)->Ok_0[i].acct < accounts.len()
                &&& spec_resolve(txs, accounts)->Ok_0[i].from < accounts.len()
            },
    decreases txs.len(),
{
    if txs.len() > 0 {
        lemma_resolve_props(txs.drop_last(), accounts);
        let t = txs.last();
        match t.transaction_type {
            TransactionType::Balance => {
                assert(has_account(accounts, t.account_id@));
                let i = account_index(accounts, t.account_id@);
                assert(0 <= i < accounts.len() && accounts[i].id@ == t.account_id@);
            },
            TransactionType::Transfer => {
                let f = t.from_account_id->Some_0;
                assert(has_account(accounts, t.account_id@));
                assert(has_account(accounts, f@));
                let i = account_index(accounts, t.account_id@);
                assert(0 <= i < accounts.len() && accounts[i].id@ == t.account_id@);
                let j = account_index(accounts, f@);
                assert(0 <= j < accounts.len() && accounts[j].id@ == f@);
            },
        }
    }
}

/// Every element of a kind filter is an element of the original sequence.
proof fn lemma_kind_elem(txs: Seq<ResolvedTx>, k: TransactionType, i: int)
    requires
        0 <= i < spec_kind(txs, k).len(),
    ensures
        spec_kind(txs, k)[i].transaction_type == k,
        exists|j: int| 0 <= j < txs.len() && txs[j] == spec_kind(txs, k)[i],
{
    let pred = |t: ResolvedTx| t.transaction_type == k;
    txs.filter_lemma(pred);
    let e = spec_kind(txs, k)[i];
    assert(spec_kind(txs, k).contains(e));
    txs.lemma_filter_contains_rev(pred, e);
    assert(txs.contains(e));
}

/// The running values hold one entry per account.
proof fn lemma_kind_run_len(upto: Seq<ResolvedTx>, n: nat, k: TransactionType)
    requires
        forall|i: int| 0 <= i < upto.len() ==> (#[trigger] upto[i]).acct < n && upto[i].from < n,
    ensures
        spec_run(spec_kind(upto, k), n).len() == n,
{
    let f = spec_kind(upto, k);
    assert forall|i: int| 0 <= i < f.len() implies (#[trigger] f[i]).acct < n && f[i].from < n by {
        let pred = |t: ResolvedTx| t.transaction_type == k;
        upto.filter_lemma(pred);
        let e = f[i];
        assert(f.contains(e));
        upto.lemma_filter_contains_rev(pred, e);
        let m = choose|m: int| 0 <= m < upto.len() && upto[m] == e;
        assert(upto[m].acct < n);
    }
    crate::engine::lemma_run_len(f, n);
}

/// Every element of the date filter is an element of the original sequence.
proof fn lemma_upto_elem(txs: Seq<ResolvedTx>, b: Date, i: int)
    requires
        0 <= i < spec_upto(txs, b).len(),
    ensures
        spec_upto(txs, b)[i].date.spec_le(b),
        exists|j: int| 0 <= j < txs.len() && txs[j] == spec_upto(txs, b)[i],
{
    let pred = |t: ResolvedTx| t.date.spec_le(b);
    txs.filter_lemma(pred);
    let e = spec_upto(txs, b)[i];
    assert(spec_upto(txs, b).contains(e));
    txs.lemma_filter_contains_rev(pred, e);
    assert(txs.contains(e));
}

/// Every emitted row is the snapshot taken at its own date.
proof fn lemma_rows_elems(txs: Seq<ResolvedTx>, n: nat, buckets: Seq<Date>)
    ensures
        forall|i: int|
            0 <= i < spec_rows(txs, n, buckets).len() ==> #[trigger] spec_rows(txs, n, buckets)[i]
                == crate::engine::row_at(txs, n, spec_rows(txs, n, buckets)[i].date),
    decreases buckets.len(),
{
    if buckets.len() > 0 {
        lemma_rows_elems(txs, n, buckets.drop_last());
        let rows = spec_rows(txs, n, buckets);
        let pre = spec_rows(txs, n, buckets.drop_last());
        assert forall|i: int| 0 <= i < rows.len() implies #[trigger] rows[i]
            == crate::engine::row_at(txs, n, rows[i].date) by {
            if i < pre.len() {
                assert(rows[i] == pre[i]);
            }
        }
    }
}

/// Law (no leading zero rows): a bucket strictly before every transaction
/// produces no emitted row at all.
pub proof fn lemma_rows_no_lead(txs: Seq<ResolvedTx>, n: nat, buckets: Seq<Date>, b: Date)
    requires
        forall|k: int| 0 <= k < txs.len() ==> !(#[trigger] txs[k]).date.spec_le(b),
    ensures
        forall|i: int|
            0 <= i < spec_rows(txs, n, buckets).len() ==> (#[trigger] spec_rows(
                txs,
                n,
                buckets,
            )[i]).date != b,
    decreases buckets.len(),
{
    if buckets.len() > 0 {
        lemma_rows_no_lead(txs, n, buckets.drop_last(), b);
        let rows = spec_rows(txs, n, buckets);
        let pre = spec_rows(txs, n, buckets.drop_last());
        if spec_upto(txs, buckets.last()).len() > 0 {
            assert forall|i: int| 0 <= i < rows.len() implies (#[trigger] rows[i]).date != b by {
                if i == rows.len() - 1 {
                    if buckets.last() == b {
                        lemma_upto_elem(txs, b, 0);
                        assert(false);
                    }
                } else {
                    assert(rows[i] == pre[i]);
                }
            }
        }
    }
}

/// Law (conservation): in the total-balances report, the `Net` value at any
/// bucket equals the sum of that bucket's per-account balance values from
/// the account-balances report over the same snapshot and buckets.
pub proof fn lemma_conservation(
    txs: Seq<Transaction>,
    accounts: Seq<Account>,
    buckets: Seq<Date>,
)
    requires
        spec_total_category(txs, accounts, buckets, TransactionType::Balance) is Ok,
        spec_account_category(txs, accounts, buckets, TransactionType::Balance) is Ok,
    ensures
        ({
            let t = spec_total_category(txs, accounts, buckets, TransactionType::Balance)->Ok_0;
            let a = spec_account_category(txs, accounts, buckets, TransactionType::Balance)->Ok_0;
            &&& t.len() == a.len()
            &&& forall|i: int|
                0 <= i < t.len() ==> (#[trigger] t[i]).date == a[i].date && t[i].values[1].value
                    == values_sum(a[i].values, accounts.len() as int)
        }),
{
    let rtxs = spec_resolve(txs, accounts)->Ok_0;
    lemma_resolve_props(txs, accounts);
    let n = accounts.len();
    let f = spec_kind(rtxs, TransactionType::Balance);
    let rows = spec_rows(f, n, buckets);
    let t = spec_total_category(txs, accounts, buckets, TransactionType::Balance)->Ok_0;
    let a = spec_account_category(txs, accounts, buckets, TransactionType::Balance)->Ok_0;
    assert(t == spec_make_stats(totals_rrows(rows, types_of(accounts), true), total_names()));
    assert(a == spec_make_stats(account_rrows(rows, true), account_names(accounts)));
    assert forall|i: int| 0 <= i < t.len() implies (#[trigger] t[i]).date == a[i].date && t[
        i
    ].values[1].value == values_sum(a[i].values, accounts.len() as int) by {
        let slots = rows[i].bal;
        lemma_rows_elems(f, n, buckets);
        assert(slots == spec_run(spec_kind(spec_upto(f, rows[i].date), TransactionType::Balance), n));
        assert(slots.len() == n) by {
            assert forall|m: int| 0 <= m < f.len() implies (#[trigger] f[m]).acct < n && f[m].from
                < n by {
                lemma_kind_elem(rtxs, TransactionType::Balance, m);
                let j = choose|j: int| 0 <= j < rtxs.len() && rtxs[j] == f[m];
                assert(rtxs[j].acct < n);
            }
            let up = spec_upto(f, rows[i].date);
            assert forall|m: int| 0 <= m < up.len() implies (#[trigger] up[m]).acct < n
                && up[m].from < n by {
                lemma_upto_elem(f, rows[i].date, m);
                let j = choose|j: int| 0 <= j < f.len() && f[j] == up[m];
                assert(f[j].acct < n);
            }
            lemma_kind_run_len(up, n, TransactionType::Balance);
        }
        assert(t[i].values[1].value == spec_reduce(slots, types_of(accounts))[1]);
        lemma_reduce_net(slots, types_of(accounts));
        lemma_values_sum_slots(a[i].values, slots, n as int);
    }
}

/// The per-account report's values at one bucket sum to the prefix sum of
/// the underlying running values.
proof fn lemma_values_sum_slots(vs: Seq<ValueV>, slots: Seq<int>, k: int)
    requires
        forall|j: int| 0 <= j < k ==> (#[trigger] vs[j]).value == slots[j],
        k <= vs.len(),
    ensures
        values_sum(vs, k) == prefix_sum(slots, k),
    decreases k,
{
    if k > 0 {
        lemma_values_sum_slots(vs, slots, k - 1);
    }
}

/// Law (no leading zero rows), at the report level: a bucket strictly before
/// every transaction of the report's kind never appears in the report.
pub proof fn lemma_no_lead_zero_report(
    txs: Seq<Transaction>,
    accounts: Seq<Account>,
    buckets: Seq<Date>,
    kind: TransactionType,
    b: Date,
)
    requires
        spec_account_category(txs, accounts, buckets, kind) is Ok,
        forall|k: int|
            0 <= k < txs.len() && (#[trigger] txs[k]).transaction_type == kind ==> !txs[
                k
            ].date.spec_le(b),
    ensures
        forall|i: int|
            0 <= i < spec_account_category(txs, accounts, buckets, kind)->Ok_0.len()
                ==> (#[trigger] spec_account_category(txs, accounts, buckets, kind)->Ok_0[i]).date
                != b,
{
    let rtxs = spec_resolve(txs, accounts)->Ok_0;
    lemma_resolve_props(txs, accounts);
    let n = accounts.len();
    let f = spec_kind(rtxs, kind);
    assert forall|k: int| 0 <= k < f.len() implies !(#[trigger] f[k]).date.spec_le(b) by {
        lemma_kind_elem(rtxs, kind, k);
        let j = choose|j: int| 0 <= j < rtxs.len() && rtxs[j] == f[k];
        assert(rtxs[j].date == txs[j].date);
        assert(rtxs[j].transaction_type == txs[j].transaction_type);
    }
    lemma_rows_no_lead(f, n, buckets, b);
    let a = spec_account_category(txs, accounts, buckets, kind)->Ok_0;
    let rows = spec_rows(f, n, buckets);
    assert(a == spec_make_stats(
        account_rrows(rows, kind == TransactionType::Balance),
        account_names(accounts),
    ));
    assert forall|i: int| 0 <= i < a.len() implies (#[trigger] a[i]).date != b by {
        assert(a[i].date == rows[i].date);
    }
}

} // verus!
