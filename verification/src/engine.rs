//! The streaming aggregator: resolves transactions against the account table
//! and merges the date-sorted transaction sequence with the ascending bucket
//! sequence, maintaining per-account running values and emitting one snapshot
//! per bucket once the first transaction has been consumed.
//!
//! Balance transactions overwrite an account's running value; transfers move
//! value between two accounts. All arithmetic is checked: a value that would
//! leave the fixed-point range surfaces as `EngineError::ValueOverflow`.

use vstd::prelude::*;
use vstd::pervasive::VecAdditionalExecFns;
use crate::date::Date;
use crate::schema::{Account, EngineError, Transaction, TransactionType};

verus! {

/// A transaction with its account references resolved to indexes into the
/// snapshot's account list. For a balance, `from` is unused and held at zero.
#[derive(Clone, Copy, Debug, PartialEq, Eq, Structural)]
pub struct ResolvedTx {
    pub date: Date,
    pub value: i64,
    pub transaction_type: TransactionType,
    pub acct: usize,
    pub from: usize,
}

/// The fixed-point range of monetary values.
pub open spec fn in_i64(v: int) -> bool {
    i64::MIN <= v <= i64::MAX
}

/// The integer view of a vector of cent amounts.
pub open spec fn i64s(s: Seq<i64>) -> Seq<int> {
    Seq::new(s.len(), |i: int| s[i] as int)
}

/// No two accounts of the snapshot share an id.
pub open spec fn distinct_ids(accounts: Seq<Account>) -> bool {
    forall|i: int, j: int|
        0 <= i < j < accounts.len() ==> accounts[i].id@ != accounts[j].id@
}

/// Some account of the snapshot has the given id.
pub open spec fn has_account(accounts: Seq<Account>, id: Seq<char>) -> bool {
    exists|i: int| 0 <= i < accounts.len() && accounts[i].id@ == id
}

/// The index of the account with the given id (meaningful when it exists
/// and ids are distinct).
pub open spec fn account_index(accounts: Seq<Account>, id: Seq<char>) -> int {
    choose|i: int| 0 <= i < accounts.len() && accounts[i].id@ == id
}

/// Find the index of the account with the given id.
pub fn find_account(accounts: &Vec<Account>, id: &String) -> (r: Option<usize>)
    requires
        distinct_ids(accounts@),
    ensures
        match r {
            Some(i) => has_account(accounts@, id@) && i == account_index(accounts@, id@)
                && i < accounts@.len(),
            None => !has_account(accounts@, id@),
        },
{
    let n = accounts.len();
    let mut i: usize = 0;
    while i < n
        invariant
            i <= n,
            n == accounts@.len(),
            distinct_ids(accounts@),
            forall|j: int| 0 <= j < i ==> accounts@[j].id@ != id@,
        decreases n - i,
    {
        if accounts[i].id == *id {
            return Some(i);
        }
        i = i + 1;
    }
    None
}

/// How one transaction resolves: its indexes, or the error it raises.
pub open spec fn spec_resolve_one(t: Transaction, accounts: Seq<Account>) -> Result<
    ResolvedTx,
    EngineError,
> {
    match t.transaction_type {
        TransactionType::Balance => {
            if has_account(accounts, t.account_id@) {
                Ok(
                    ResolvedTx {
                        date: t.date,
                        value: t.value as i64,
                        transaction_type: TransactionType::Balance,
                        acct: account_index(accounts, t.account_id@) as usize,
                        from: 0,
                    },
                )
            } else {
                Err(EngineError::UnknownAccount)
            }
        },
        TransactionType::Transfer => {
            match t.from_account_id {
                None => Err(EngineError::TransferWithoutFromAccount),
                Some(ref f) => {
                    if has_account(accounts, t.account_id@) && has_account(accounts, f@) {
                        Ok(
                            ResolvedTx {
                                date: t.date,
                                value: t.value as i64,
                                transaction_type: TransactionType::Transfer,
                                acct: account_index(accounts, t.account_id@) as usize,
                                from: account_index(accounts, f@) as usize,
                            },
                        )
                    } else {
                        Err(EngineError::UnknownAccount)
                    }
                },
            }
        },
    }
}

/// How a transaction list resolves; the earliest failing transaction's
/// error wins.
pub open spec fn spec_resolve(txs: Seq<Transaction>, accounts: Seq<Account>) -> Result<
    Seq<ResolvedTx>,
    EngineError,
>
    decreases txs.len(),
{
    if txs.len() == 0 {
        Ok(Seq::empty())
    } else {
        match spec_resolve(txs.drop_last(), accounts) {
            Ok(pre) => match spec_resolve_one(txs.last(), accounts) {
                Ok(rt) => Ok(pre.push(rt)),
                Err(e) => Err(e),
            },
            Err(e) => Err(e),
        }
    }
}

/// A resolution error of any prefix extends to the whole list.
proof fn lemma_resolve_err_extends(txs: Seq<Transaction>, accounts: Seq<Account>, k: int, e: EngineError)
    requires
        0 <= k <= txs.len(),
        spec_resolve(txs.take(k), accounts) == Result::<Seq<ResolvedTx>, EngineError>::Err(e),
    ensures
        spec_resolve(txs, accounts) == Result::<Seq<ResolvedTx>, EngineError>::Err(e),
    decreases txs.len() - k,
{
    if k < txs.len() {
        assert(txs.take(k + 1).drop_last() =~= txs.take(k));
        lemma_resolve_err_extends(txs, accounts, k + 1, e);
    } else {
        assert(txs.take(k) =~= txs);
    }
}

/// Resolve every transaction against the account table. Fails with the
/// earliest transaction's error: a transfer without a source account, or a
/// reference to an account the snapshot does not hold.
pub fn resolve_transactions(txs: &Vec<Transaction>, accounts: &Vec<Account>) -> (r: Result<
    Vec<ResolvedTx>,
    EngineError,
>)
    requires
        distinct_ids(accounts@),
    ensures
        match r {
            Ok(out) => {
                &&& spec_resolve(txs@, accounts@) == Result::<Seq<ResolvedTx>, EngineError>::Ok(out@)
                &&& out@.len() == txs@.len()
                &&& forall|i: int|
                    0 <= i < out@.len() ==> (#[trigger] out@[i]).date == txs@[i].date
                        && out@[i].acct < accounts@.len() && out@[i].from < accounts@.len()
            },
            Err(e) => spec_resolve(txs@, accounts@) == Result::<Seq<ResolvedTx>, EngineError>::Err(
                e,
            ),
        },
{
    let n = txs.len();
    let mut out: Vec<ResolvedTx> = Vec::new();
    let mut i: usize = 0;
    while i < n
        invariant
            i <= n,
            n == txs@.len(),
            distinct_ids(accounts@),
            out@.len() == i,
            spec_resolve(txs@.take(i as int), accounts@) == Result::<
                Seq<ResolvedTx>,
                EngineError,
            >::Ok(out@),
            forall|j: int|
                0 <= j < i ==> (#[trigger] out@[j]).date == txs@[j].date && out@[j].acct
                    < accounts@.len() && out@[j].from < accounts@.len(),
        decreases n - i,
    {
        let t = &txs[i];
        let rt: ResolvedTx = match t.transaction_type {
            TransactionType::Balance => {
                match find_account(accounts, &t.account_id) {
                    Some(a) => ResolvedTx {
                        date: t.date,
                        value: t.value,
                        transaction_type: TransactionType::Balance,
                        acct: a,
                        from: 0,
                    },
                    None => {
                        proof {
                            lemma_take_step(txs@, i as int);
                            lemma_resolve_err_extends(
                                txs@,
                                accounts@,
                                i as int + 1,
                                EngineError::UnknownAccount,
                            );
                        }
                        return Err(EngineError::UnknownAccount);
                    },
                }
            },
            TransactionType::Transfer => {
                match t.from_account_id {
                    None => {
                        proof {
                            lemma_take_step(txs@, i as int);
                            lemma_resolve_err_extends(
                                txs@,
                                accounts@,
                                i as int + 1,
                                EngineError::TransferWithoutFromAccount,
                            );
                        }
                        return Err(EngineError::TransferWithoutFromAccount);
                    },
                    Some(ref f) => {
                        let a = find_account(accounts, &t.account_id);
                        let b = find_account(accounts, f);
                        match (a, b) {
                            (Some(a), Some(b)) => ResolvedTx {
                                date: t.date,
                                value: t.value,
                                transaction_type: TransactionType::Transfer,
                                acct: a,
                                from: b,
                            },
                            _ => {
                                proof {
                                    lemma_take_step(txs@, i as int);
                                    lemma_resolve_err_extends(
                                        txs@,
                                        accounts@,
                                        i as int + 1,
                                        EngineError::UnknownAccount,
                                    );
                                }
                                return Err(EngineError::UnknownAccount);
                            },
                        }
                    },
                }
            },
        };
        proof {
            lemma_take_step(txs@, i as int);
        }
        out.push(rt);
        i = i + 1;
    }
    proof {
        assert(txs@.take(n as int) =~= txs@);
    }
    Ok(out)
}

/// Taking one more element appends exactly the element at the boundary.
proof fn lemma_take_step<A>(s: Seq<A>, k: int)
    requires
        0 <= k < s.len(),
    ensures
        s.take(k + 1).drop_last() =~= s.take(k),
        s.take(k + 1).last() == s[k],
        s.take(k + 1) =~= s.take(k).push(s[k]),
{
}

/// The transactions on or before a bucket date.
pub open spec fn spec_upto(txs: Seq<ResolvedTx>, b: Date) -> Seq<ResolvedTx> {
    txs.filter(|t: ResolvedTx| t.date.spec_le(b))
}

/// The transactions of one kind.
pub open spec fn spec_kind(txs: Seq<ResolvedTx>, k: TransactionType) -> Seq<ResolvedTx> {
    txs.filter(|t: ResolvedTx| t.transaction_type == k)
}

/// Ascending (non-strictly) by date.
pub open spec fn sorted_by_date(txs: Seq<ResolvedTx>) -> bool {
    forall|i: int, j: int|
        0 <= i <= j < txs.len() ==> (#[trigger] txs[i]).date.spec_le(#[trigger] txs[j].date)
}

/// On a date-split sequence the date filter keeps exactly the prefix.
pub proof fn lemma_upto_take(txs: Seq<ResolvedTx>, b: Date, k: int)
    requires
        0 <= k <= txs.len(),
        forall|i: int| 0 <= i < k ==> (#[trigger] txs[i]).date.spec_le(b),
        forall|i: int| k <= i < txs.len() ==> !(#[trigger] txs[i]).date.spec_le(b),
    ensures
        spec_upto(txs, b) == txs.take(k),
    decreases txs.len(),
{
    reveal(Seq::filter);
    if txs.len() == 0 {
        assert(spec_upto(txs, b) =~= txs.take(k));
    } else {
        let dl = txs.drop_last();
        if k == txs.len() {
            lemma_upto_take(dl, b, k - 1);
            assert(dl.take(k - 1).push(txs.last()) =~= txs.take(k));
        } else {
            lemma_upto_take(dl, b, k);
            assert(dl.take(k) =~= txs.take(k));
        }
    }
}

/// Filtering by kind distributes over appending one transaction.
pub proof fn lemma_kind_push(s: Seq<ResolvedTx>, t: ResolvedTx, k: TransactionType)
    ensures
        t.transaction_type == k ==> spec_kind(s.push(t), k) == spec_kind(s, k).push(t),
        t.transaction_type != k ==> spec_kind(s.push(t), k) == spec_kind(s, k),
{
    reveal(Seq::filter);
    assert(s.push(t).drop_last() =~= s);
    assert(s.push(t).last() == t);
}

/// All running values seeded to zero.
pub open spec fn zero_slots(n: nat) -> Seq<int> {
    Seq::new(n, |i: int| 0int)
}

/// Apply one transaction to the running values: a balance overwrites its
/// account's value, a transfer moves value from one account to another.
pub open spec fn spec_apply(slots: Seq<int>, t: ResolvedTx) -> Seq<int> {
    match t.transaction_type {
        TransactionType::Balance => slots.update(t.acct as int, t.value as int),
        TransactionType::Transfer => {
            let s1 = slots.update(t.acct as int, slots[t.acct as int] + t.value);
            s1.update(t.from as int, s1[t.from as int] - t.value)
        },
    }
}

/// The running values after consuming a transaction sequence, starting from
/// zero for each of `n` accounts.
pub open spec fn spec_run(txs: Seq<ResolvedTx>, n: nat) -> Seq<int>
    decreases txs.len(),
{
    if txs.len() == 0 {
        zero_slots(n)
    } else {
        spec_apply(spec_run(txs.drop_last(), n), txs.last())
    }
}

pub proof fn lemma_run_push(txs: Seq<ResolvedTx>, t: ResolvedTx, n: nat)
    ensures
        spec_run(txs.push(t), n) == spec_apply(spec_run(txs, n), t),
{
    assert(txs.push(t).drop_last() =~= txs);
}

/// The running values always hold one entry per account.
pub proof fn lemma_run_len(txs: Seq<ResolvedTx>, n: nat)
    requires
        forall|i: int|
            0 <= i < txs.len() ==> (#[trigger] txs[i]).acct < n && txs[i].from < n,
    ensures
        spec_run(txs, n).len() == n,
    decreases txs.len(),
{
    if txs.len() > 0 {
        lemma_run_len(txs.drop_last(), n);
    }
}

/// A transfer's checked arithmetic stays in the fixed-point range; balances
/// always do.
pub open spec fn tx_step_ok(slots: Seq<int>, t: ResolvedTx) -> bool {
    t.transaction_type == TransactionType::Transfer ==> {
        let a = slots[t.acct as int] + t.value;
        &&& in_i64(a)
        &&& in_i64(slots.update(t.acct as int, a)[t.from as int] - t.value)
    }
}

/// Every transaction on or before `limit` applies without leaving the
/// fixed-point range.
pub open spec fn run_ok_upto(txs: Seq<ResolvedTx>, n: nat, limit: Date) -> bool {
    forall|k: int|
        0 <= k < txs.len() && (#[trigger] txs[k]).date.spec_le(limit) ==> tx_step_ok(
            spec_run(spec_kind(txs.take(k), TransactionType::Transfer), n),
            txs[k],
        )
}

/// Whether the aggregation over the given buckets stays in range.
pub open spec fn aggregate_fits(txs: Seq<ResolvedTx>, n: nat, buckets: Seq<Date>) -> bool {
    buckets.len() == 0 || run_ok_upto(txs, n, buckets.last())
}

/// One emitted snapshot: the running values at a bucket date.
pub ghost struct RowV {
    pub date: Date,
    pub bal: Seq<int>,
    pub tra: Seq<int>,
}

/// The snapshot emitted at bucket `b`.
pub open spec fn row_at(txs: Seq<ResolvedTx>, n: nat, b: Date) -> RowV {
    RowV {
        date: b,
        bal: spec_run(spec_kind(spec_upto(txs, b), TransactionType::Balance), n),
        tra: spec_run(spec_kind(spec_upto(txs, b), TransactionType::Transfer), n),
    }
}

/// The emitted snapshots: one per bucket from the first bucket on or after
/// the first transaction (earlier buckets produce no row at all).
pub open spec fn spec_rows(txs: Seq<ResolvedTx>, n: nat, buckets: Seq<Date>) -> Seq<RowV>
    decreases buckets.len(),
{
    if buckets.len() == 0 {
        Seq::empty()
    } else {
        let pre = spec_rows(txs, n, buckets.drop_last());
        if spec_upto(txs, buckets.last()).len() > 0 {
            pre.push(row_at(txs, n, buckets.last()))
        } else {
            pre
        }
    }
}

/// One emitted snapshot of the streaming aggregator.
#[derive(Clone, Debug)]
pub struct AggregateRow {
    pub date: Date,
    pub balances: Vec<i64>,
    pub transfers: Vec<i64>,
}

/// Ghost view of an aggregate row.
pub open spec fn row_view(r: AggregateRow) -> RowV {
    RowV { date: r.date, bal: i64s(r.balances@), tra: i64s(r.transfers@) }
}

/// Ghost view of a row list.
pub open spec fn rows_view(rows: Seq<AggregateRow>) -> Seq<RowV> {
    Seq::new(rows.len(), |i: int| row_view(rows[i]))
}

/// A vector of `n` zero amounts.
pub fn zero_vec(n: usize) -> (r: Vec<i64>)
    ensures
        r@.len() == n,
        i64s(r@) == zero_slots(n as nat),
{
    let mut v: Vec<i64> = Vec::new();
    let mut i: usize = 0;
    while i < n
        invariant
            i <= n,
            v@.len() == i,
            forall|j: int| 0 <= j < i ==> v@[j] == 0i64,
        decreases n - i,
    {
        v.push(0);
        i = i + 1;
    }
    proof {
        assert(i64s(v@) =~= zero_slots(n as nat));
    }
    v
}

/// A copy of a vector of amounts.
pub(crate) fn copy_amounts(v: &Vec<i64>) -> (r: Vec<i64>)
    ensures
        r@ == v@,
{
    let mut out: Vec<i64> = Vec::new();
    let mut i: usize = 0;
    while i < v.len()
        invariant
            i <= v@.len(),
            out@ == v@.take(i as int),
        decreases v@.len() - i,
    {
        proof {
            lemma_take_step(v@, i as int);
        }
        out.push(v[i]);
        i = i + 1;
    }
    proof {
        assert(v@.take(v@.len() as int) =~= v@);
    }
    out
}

/// Merge the date-sorted transactions with the ascending buckets in a single
/// linear pass, emitting the running per-account values at each bucket once
/// at least one transaction has been consumed. Fails with `ValueOverflow`
/// exactly when some consumed transfer would leave the fixed-point range.
pub fn aggregate_core(txs: &Vec<ResolvedTx>, n: usize, buckets: &Vec<Date>) -> (r: Result<
    Vec<AggregateRow>,
    EngineError,
>)
    requires
        sorted_by_date(txs@),
        forall|i: int|
            0 <= i < txs@.len() ==> (#[trigger] txs@[i]).acct < n && txs@[i].from < n,
        forall|i: int, j: int|
            0 <= i < j < buckets@.len() ==> (#[trigger] buckets@[i]).spec_lt(
                #[trigger] buckets@[j],
            ),
    ensures
        match r {
            Ok(rows) => {
                &&& aggregate_fits(txs@, n as nat, buckets@)
                &&& rows_view(rows@) == spec_rows(txs@, n as nat, buckets@)
                &&& forall|i: int|
                    0 <= i < rows@.len() ==> (#[trigger] rows@[i]).balances@.len() == n
                        && rows@[i].transfers@.len() == n
            },
            Err(e) => {
                &&& e == EngineError::ValueOverflow
                &&& !aggregate_fits(txs@, n as nat, buckets@)
            },
        },
{
    let ghost xs = txs@;
    let nb = buckets.len();
    let nt = txs.len();
    let mut bal: Vec<i64> = zero_vec(n);
    let mut tra: Vec<i64> = zero_vec(n);
    let mut out: Vec<AggregateRow> = Vec::new();
    let mut c: usize = 0;
    let mut bi: usize = 0;
    proof {
        assert(spec_kind(xs.take(0), TransactionType::Balance) =~= Seq::empty());
        assert(spec_kind(xs.take(0), TransactionType::Transfer) =~= Seq::empty());
        assert(rows_view(out@) =~= spec_rows(xs, n as nat, buckets@.take(0)));
    }
    while bi < nb
        invariant
            bi <= nb,
            c <= nt,
            nb == buckets@.len(),
            nt == xs.len(),
            xs == txs@,
            sorted_by_date(xs),
            forall|i: int| 0 <= i < nt ==> (#[trigger] xs[i]).acct < n && xs[i].from < n,
            forall|i: int, j: int|
                0 <= i < j < nb ==> (#[trigger] buckets@[i]).spec_lt(#[trigger] buckets@[j]),
            bal@.len() == n,
            tra@.len() == n,
            i64s(bal@) == spec_run(spec_kind(xs.take(c as int), TransactionType::Balance), n as nat),
            i64s(tra@) == spec_run(spec_kind(xs.take(c as int), TransactionType::Transfer), n as nat),
            bi == 0 ==> c == 0,
            bi > 0 ==> forall|i: int|
                0 <= i < c ==> (#[trigger] xs[i]).date.spec_le(buckets@[bi - 1]),
            bi > 0 ==> (c < nt ==> !xs[c as int].date.spec_le(buckets@[bi - 1])),
            forall|k: int|
                0 <= k < c ==> tx_step_ok(
                    spec_run(spec_kind(xs.take(k), TransactionType::Transfer), n as nat),
                    #[trigger] xs[k],
                ),
            rows_view(out@) == spec_rows(xs, n as nat, buckets@.take(bi as int)),
            forall|i: int|
                0 <= i < out@.len() ==> (#[trigger] out@[i]).balances@.len() == n
                    && out@[i].transfers@.len() == n,
        decreases nb - bi,
    {
        let b: Date = buckets[bi];
        proof {
            assert forall|i: int| 0 <= i < c implies (#[trigger] xs[i]).date.spec_le(b) by {
                assert(bi > 0);
                assert(xs[i].date.spec_le(buckets@[bi - 1]));
                assert(buckets@[bi - 1].spec_lt(b));
            }
        }
        while c < nt && date_le_tx(&txs[c], &b)
            invariant
                c <= nt,
                nt == xs.len(),
                xs == txs@,
                sorted_by_date(xs),
                forall|i: int| 0 <= i < nt ==> (#[trigger] xs[i]).acct < n && xs[i].from < n,
                bal@.len() == n,
                tra@.len() == n,
                i64s(bal@) == spec_run(
                    spec_kind(xs.take(c as int), TransactionType::Balance),
                    n as nat,
                ),
                i64s(tra@) == spec_run(
                    spec_kind(xs.take(c as int), TransactionType::Transfer),
                    n as nat,
                ),
                forall|i: int| 0 <= i < c ==> (#[trigger] xs[i]).date.spec_le(b),
                forall|k: int|
                    0 <= k < c ==> tx_step_ok(
                        spec_run(spec_kind(xs.take(k), TransactionType::Transfer), n as nat),
                        #[trigger] xs[k],
                    ),
                bi < nb,
                nb == buckets@.len(),
                b == buckets@[bi as int],
                forall|i: int, j: int|
                    0 <= i < j < nb ==> (#[trigger] buckets@[i]).spec_lt(#[trigger] buckets@[j]),
            decreases nt - c,
        {
            let t: ResolvedTx = txs[c];
            let ghost pre_bal = spec_run(spec_kind(xs.take(c as int), TransactionType::Balance), n as nat);
            let ghost pre_tra = spec_run(spec_kind(xs.take(c as int), TransactionType::Transfer), n as nat);
            proof {
                lemma_take_step(xs, c as int);
                lemma_kind_push(xs.take(c as int), t, TransactionType::Balance);
                lemma_kind_push(xs.take(c as int), t, TransactionType::Transfer);
                if t.transaction_type == TransactionType::Balance {
                    lemma_run_push(spec_kind(xs.take(c as int), TransactionType::Balance), t, n as nat);
                } else {
                    lemma_run_push(spec_kind(xs.take(c as int), TransactionType::Transfer), t, n as nat);
                }
            }
            match t.transaction_type {
                TransactionType::Balance => {
                    bal.set(t.acct, t.value);
                    proof {
                        assert(i64s(bal@) =~= spec_apply(pre_bal, t));
                    }
                },
                TransactionType::Transfer => {
                    let a0: i64 = tra[t.acct];
                    match a0.checked_add(t.value) {
                        None => {
                            proof {
                                lemma_overflow_witness(xs, n as nat, buckets@, c as int, bi as int);
                            }
                            return Err(EngineError::ValueOverflow);
                        },
                        Some(a1) => {
                            tra.set(t.acct, a1);
                            let f0: i64 = tra[t.from];
                            match f0.checked_sub(t.value) {
                                None => {
                                    proof {
                                        assert(i64s(tra@) =~= pre_tra.update(t.acct as int, pre_tra[t.acct as int] + t.value));
                                        lemma_overflow_witness(xs, n as nat, buckets@, c as int, bi as int);
                                    }
                                    return Err(EngineError::ValueOverflow);
                                },
                                Some(f1) => {
                                    tra.set(t.from, f1);
                                    proof {
                                        assert(i64s(tra@) =~= spec_apply(pre_tra, t));
                                    }
                                },
                            }
                        },
                    }
                },
            }
            c = c + 1;
            proof {
                assert forall|k: int| 0 <= k < c implies tx_step_ok(
                    spec_run(spec_kind(xs.take(k), TransactionType::Transfer), n as nat),
                    #[trigger] xs[k],
                ) by {
                    if k == c - 1 {
                        assert(xs[k] == t);
                    }
                }
            }
        }
        proof {
            assert forall|i: int| c <= i < nt implies !(#[trigger] xs[i]).date.spec_le(b) by {
                assert(xs[c as int].date.spec_le(xs[i].date));
            }
            lemma_upto_take(xs, b, c as int);
            lemma_take_step(buckets@, bi as int);
        }
        if c > 0 {
            let row = AggregateRow {
                date: b,
                balances: copy_amounts(&bal),
                transfers: copy_amounts(&tra),
            };
            let ghost old_rows = rows_view(out@);
            out.push(row);
            proof {
                assert(spec_upto(xs, b).len() == c > 0);
                assert(rows_view(out@) =~= old_rows.push(row_view(row)));
                assert(row_view(row) == row_at(xs, n as nat, b));
                assert(buckets@.take(bi as int + 1).drop_last() =~= buckets@.take(bi as int));
                assert(rows_view(out@) == spec_rows(xs, n as nat, buckets@.take(bi as int + 1)));
            }
        } else {
            proof {
                assert(spec_upto(xs, b).len() == 0);
                assert(buckets@.take(bi as int + 1).drop_last() =~= buckets@.take(bi as int));
                assert(rows_view(out@) == spec_rows(xs, n as nat, buckets@.take(bi as int + 1)));
            }
        }
        bi = bi + 1;
    }
    proof {
        assert(buckets@.take(nb as int) =~= buckets@);
        if nb > 0 {
            let limit = buckets@.last();
            assert forall|k: int|
                0 <= k < xs.len() && (#[trigger] xs[k]).date.spec_le(limit) implies tx_step_ok(
                spec_run(spec_kind(xs.take(k), TransactionType::Transfer), n as nat),
                xs[k],
            ) by {
                if k >= c {
                    assert(xs[c as int].date.spec_le(xs[k].date));
                    assert(!xs[c as int].date.spec_le(buckets@[nb - 1]));
                    assert(false);
                }
            }
        }
    }
    Ok(out)
}

/// `true` when the transaction's date is on or before the bucket date.
fn date_le_tx(t: &ResolvedTx, b: &Date) -> (r: bool)
    ensures
        r == t.date.spec_le(*b),
{
    crate::date::date_le(&t.date, b)
}

/// A failing checked operation at the cursor refutes `aggregate_fits`.
proof fn lemma_overflow_witness(
    xs: Seq<ResolvedTx>,
    n: nat,
    buckets: Seq<Date>,
    c: int,
    bi: int,
)
    requires
        sorted_by_date(xs),
        0 <= c < xs.len(),
        0 <= bi < buckets.len(),
        forall|i: int, j: int|
            0 <= i < j < buckets.len() ==> (#[trigger] buckets[i]).spec_lt(#[trigger] buckets[j]),
        xs[c].date.spec_le(buckets[bi]),
        !tx_step_ok(spec_run(spec_kind(xs.take(c), TransactionType::Transfer), n), xs[c]),
    ensures
        !aggregate_fits(xs, n, buckets),
{
    let limit = buckets.last();
    if bi < buckets.len() - 1 {
        assert(buckets[bi].spec_lt(limit));
    }
    assert(xs[c].date.spec_le(limit));
}

/// A balance must not carry a source account; a transfer must.
pub open spec fn spec_verify_from(
    transaction_type: TransactionType,
    from_account_id: Option<Seq<char>>,
) -> Result<(), EngineError> {
    match transaction_type {
        TransactionType::Balance => match from_account_id {
            None => Ok(()),
            Some(_) => Err(EngineError::BalanceWithFromAccount),
        },
        TransactionType::Transfer => match from_account_id {
            Some(_) => Ok(()),
            None => Err(EngineError::TransferWithoutFromAccount),
        },
    }
}

/// Check the balance/transfer source-account invariant of one transaction.
pub fn verify_transaction_type(
    transaction_type: TransactionType,
    from_account_id: Option<String>,
) -> (r: Result<(), EngineError>)
    ensures
        r == spec_verify_from(
            transaction_type,
            match from_account_id {
                Some(f) => Some(f@),
                None => None,
            },
        ),
{
    match transaction_type {
        TransactionType::Balance => match from_account_id {
            None => Ok(()),
            Some(_) => Err(EngineError::BalanceWithFromAccount),
        },
        TransactionType::Transfer => match from_account_id {
            Some(_) => Ok(()),
            None => Err(EngineError::TransferWithoutFromAccount),
        },
    }
}

/// Check the balance/transfer source-account invariant of one transaction.
pub fn verify_from_account_id(
    transaction_type: TransactionType,
    from_account_id: Option<String>,
) -> (r: Result<(), EngineError>)
    ensures
        r == spec_verify_from(
            transaction_type,
            match from_account_id {
                Some(f) => Some(f@),
                None => None,
            },
        ),
{
    verify_transaction_type(transaction_type, from_account_id)
}

} // verus!
