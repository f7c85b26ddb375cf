//! Report assembly: turns the aggregator's emitted snapshots into the six
//! statistics categories (per-account balances and transfers, total balances
//! and transfers, flow, and flow grouping), each row carrying a value and its
//! change against the previous emitted bucket.

use vstd::prelude::*;
use crate::date::Date;
use crate::engine::{
    aggregate_core, aggregate_fits, i64s, in_i64, lemma_kind_push, resolve_transactions,
    sorted_by_date, spec_kind, spec_resolve, spec_rows, AggregateRow, ResolvedTx, RowV,
    distinct_ids,
};
use crate::schema::{
    stats_view, Account, AccountType, EngineError, Statistic, StatisticV, Transaction,
    TransactionType, Value, ValueV,
};
use crate::sort::sorted_txs;
use crate::totals::{
    flow_vals, flow_vals_fit, group_vals, group_vals_fit, reduce_fits, reduce_totals,
    spec_flow_vals, spec_group_vals, spec_reduce, spec_flow_group_name, spec_total_type_name,
    account_types, flow_group_at, total_type_at, types_of, flow_group_name, total_type_name,
    FlowGroupType, TotalType,
};

verus! {

/// One bucket's reduced values, before differences are attached.
#[derive(Clone, Debug)]
pub struct ReducedRow {
    pub date: Date,
    pub vals: Vec<i64>,
}

/// Ghost view of a reduced row.
#[verifier::ext_equal]
pub ghost struct ReducedRowV {
    pub date: Date,
    pub vals: Seq<int>,
}

/// Ghost view of a reduced-row list.
pub open spec fn rrows_view(rows: Seq<ReducedRow>) -> Seq<ReducedRowV> {
    Seq::new(rows.len(), |i: int| ReducedRowV { date: rows[i].date, vals: i64s(rows[i].vals@) })
}

/// Every difference between consecutive rows stays in the fixed-point range.
pub open spec fn diffs_fit(rows: Seq<ReducedRowV>) -> bool {
    forall|i: int, j: int|
        1 <= i < rows.len() && 0 <= j < rows[i].vals.len() ==> in_i64(
            #[trigger] rows[i].vals[j] - rows[i - 1].vals[j],
        )
}

/// The statistics of a reduced-row list: per row one named value per column,
/// with the difference against the previous row (zero for the first row).
pub open spec fn spec_make_stats(rows: Seq<ReducedRowV>, names: Seq<Seq<char>>) -> Seq<
    StatisticV,
> {
    Seq::new(
        rows.len(),
        |i: int|
            StatisticV {
                date: rows[i].date,
                values: Seq::new(
                    names.len(),
                    |j: int|
                        ValueV {
                            name: names[j],
                            value: rows[i].vals[j],
                            value_difference: if i == 0 {
                                0
                            } else {
                                rows[i].vals[j] - rows[i - 1].vals[j]
                            },
                        },
                ),
            },
    )
}

/// Ghost view of a name list.
pub open spec fn names_view(names: Seq<String>) -> Seq<Seq<char>> {
    Seq::new(names.len(), |i: int| names[i]@)
}

/// Attach names and previous-bucket differences to each reduced row.
pub fn make_statistics(rows: &Vec<ReducedRow>, names: &Vec<String>) -> (r: Result<
    Vec<Statistic>,
    EngineError,
>)
    requires
        forall|i: int|
            0 <= i < rows@.len() ==> (#[trigger] rows@[i]).vals@.len() == names@.len(),
    ensures
        match r {
            Ok(out) => {
                &&& diffs_fit(rrows_view(rows@))
                &&& stats_view(out@) == spec_make_stats(rrows_view(rows@), names_view(names@))
            },
            Err(e) => {
                &&& e == EngineError::ValueOverflow
                &&& !diffs_fit(rrows_view(rows@))
            },
        },
{
    let ghost grows = rrows_view(rows@);
    let ghost gnames = names_view(names@);
    let ghost expected = spec_make_stats(grows, gnames);
    let mut out: Vec<Statistic> = Vec::new();
    let mut i: usize = 0;
    while i < rows.len()
        invariant
            i <= rows@.len(),
            grows == rrows_view(rows@),
            gnames == names_view(names@),
            expected == spec_make_stats(grows, gnames),
            forall|m: int|
                0 <= m < rows@.len() ==> (#[trigger] rows@[m]).vals@.len() == names@.len(),
            out@.len() == i,
            forall|m: int| 0 <= m < i ==> (#[trigger] out@[m])@ == expected[m],
            forall|m: int, j: int|
                1 <= m < i && 0 <= j < grows[m].vals.len() ==> in_i64(
                    #[trigger] grows[m].vals[j] - grows[m - 1].vals[j],
                ),
        decreases rows@.len() - i,
    {
        let mut vals: Vec<Value> = Vec::new();
        let mut j: usize = 0;
        while j < names.len()
            invariant
                j <= names@.len(),
                i < rows@.len(),
                grows == rrows_view(rows@),
                gnames == names_view(names@),
                forall|m: int|
                    0 <= m < rows@.len() ==> (#[trigger] rows@[m]).vals@.len() == names@.len(),
                vals@.len() == j,
                forall|m: int| 0 <= m < j ==> (#[trigger] vals@[m])@ == expected[i as int].values[m],
                expected == spec_make_stats(grows, gnames),
                forall|m: int|
                    0 <= m < j && i > 0 ==> in_i64(
                        #[trigger] grows[i as int].vals[m] - grows[i as int - 1].vals[m],
                    ),
            decreases names@.len() - j,
        {
            let v: i64 = rows[i].vals[j];
            let d: i64 = if i == 0 {
                0
            } else {
                match rows[i].vals[j].checked_sub(rows[i - 1].vals[j]) {
                    None => {
                        proof {
                            assert(!in_i64(
                                grows[i as int].vals[j as int] - grows[i as int - 1].vals[
                                    j as int
                                ],
                            ));
                        }
                        return Err(EngineError::ValueOverflow);
                    },
                    Some(d) => d,
                }
            };
            let value = Value { name: names[j].clone(), value: v, value_difference: d };
            proof {
                assert(value@ == expected[i as int].values[j as int]);
            }
            vals.push(value);
            j = j + 1;
        }
        let stat = Statistic { date: rows[i].date, values: vals };
        proof {
            assert(stat@.values =~= expected[i as int].values);
            assert(stat@ == expected[i as int]);
        }
        out.push(stat);
        i = i + 1;
    }
    proof {
        assert(stats_view(out@) =~= spec_make_stats(grows, gnames));
    }
    Ok(out)
}

/// Keep only the transactions of one kind, preserving date order.
pub fn filter_kind(txs: &Vec<ResolvedTx>, k: TransactionType, n: usize) -> (r: Vec<ResolvedTx>)
    requires
        sorted_by_date(txs@),
        forall|i: int|
            0 <= i < txs@.len() ==> (#[trigger] txs@[i]).acct < n && txs@[i].from < n,
    ensures
        r@ == spec_kind(txs@, k),
        sorted_by_date(r@),
        forall|i: int| 0 <= i < r@.len() ==> (#[trigger] r@[i]).acct < n && r@[i].from < n,
{
    let xs = txs;
    let mut out: Vec<ResolvedTx> = Vec::new();
    let mut i: usize = 0;
    proof {
        assert(spec_kind(xs@.take(0), k) =~= Seq::empty());
    }
    while i < xs.len()
        invariant
            i <= xs@.len(),
            sorted_by_date(xs@),
            forall|m: int|
                0 <= m < xs@.len() ==> (#[trigger] xs@[m]).acct < n && xs@[m].from < n,
            out@ == spec_kind(xs@.take(i as int), k),
            forall|m: int| 0 <= m < out@.len() ==> (#[trigger] out@[m]).acct < n && out@[m].from < n,
            sorted_by_date(out@),
            forall|a: int, m: int|
                0 <= a < out@.len() && i <= m < xs@.len() ==> (#[trigger] out@[a]).date.spec_le(
                    (#[trigger] xs@[m]).date,
                ),
        decreases xs@.len() - i,
    {
        let t = xs[i];
        proof {
            assert(xs@.take(i as int + 1).drop_last() =~= xs@.take(i as int));
            assert(xs@.take(i as int + 1).last() == xs@[i as int]);
            assert(xs@.take(i as int + 1) =~= xs@.take(i as int).push(t));
            lemma_kind_push(xs@.take(i as int), t, k);
        }
        if is_kind(&t, k) {
            out.push(t);
        }
        i = i + 1;
    }
    proof {
        assert(xs@.take(xs@.len() as int) =~= xs@);
    }
    out
}

fn is_kind(t: &ResolvedTx, k: TransactionType) -> (r: bool)
    ensures
        r == (t.transaction_type == k),
{
    match (t.transaction_type, k) {
        (TransactionType::Balance, TransactionType::Balance) => true,
        (TransactionType::Transfer, TransactionType::Transfer) => true,
        _ => false,
    }
}

/// The account ids of the snapshot, in account order: the value names of the
/// per-account report categories.
pub open spec fn account_names(accounts: Seq<Account>) -> Seq<Seq<char>> {
    Seq::new(accounts.len(), |i: int| accounts[i].id@)
}

/// Collect the account ids in account order.
pub fn account_ids(accounts: &Vec<Account>) -> (r: Vec<String>)
    ensures
        names_view(r@) == account_names(accounts@),
        r@.len() == accounts@.len(),
{
    let mut out: Vec<String> = Vec::new();
    let mut i: usize = 0;
    while i < accounts.len()
        invariant
            i <= accounts@.len(),
            out@.len() == i,
            forall|j: int| 0 <= j < i ==> (#[trigger] out@[j])@ == accounts@[j].id@,
        decreases accounts@.len() - i,
    {
        out.push(accounts[i].id.clone());
        i = i + 1;
    }
    proof {
        assert(names_view(out@) =~= account_names(accounts@));
    }
    out
}

/// The value names of the total report categories, in emission order.
pub open spec fn total_names() -> Seq<Seq<char>> {
    Seq::new(9, |j: int| spec_total_type_name(total_type_at(j)))
}

/// Collect the total-type names in emission order.
pub fn total_names_vec() -> (r: Vec<String>)
    ensures
        names_view(r@) == total_names(),
        r@.len() == 9,
{
    let mut out: Vec<String> = Vec::new();
    out.push(total_type_name(&TotalType::Income));
    out.push(total_type_name(&TotalType::Net));
    out.push(total_type_name(&TotalType::Cash));
    out.push(total_type_name(&TotalType::ShortTermAsset));
    out.push(total_type_name(&TotalType::LongTermAsset));
    out.push(total_type_name(&TotalType::PhysicalAsset));
    out.push(total_type_name(&TotalType::Retirement));
    out.push(total_type_name(&TotalType::ShortTermLiability));
    out.push(total_type_name(&TotalType::LongTermLiability));
    proof {
        assert(names_view(out@) =~= total_names());
    }
    out
}

/// The value names of the flow-grouping category, in emission order.
pub open spec fn group_names() -> Seq<Seq<char>> {
    Seq::new(5, |g: int| spec_flow_group_name(flow_group_at(g)))
}

/// Collect the flow-group names in emission order.
pub fn group_names_vec() -> (r: Vec<String>)
    ensures
        names_view(r@) == group_names(),
        r@.len() == 5,
{
    let mut out: Vec<String> = Vec::new();
    out.push(flow_group_name(&FlowGroupType::Net));
    out.push(flow_group_name(&FlowGroupType::Income));
    out.push(flow_group_name(&FlowGroupType::Cash));
    out.push(flow_group_name(&FlowGroupType::Gain));
    out.push(flow_group_name(&FlowGroupType::Appreciation));
    proof {
        assert(names_view(out@) =~= group_names());
    }
    out
}


/// Ghost view of a successful or failed report computation.
pub open spec fn res_view(r: Result<Vec<Statistic>, EngineError>) -> Result<
    Seq<StatisticV>,
    EngineError,
> {
    match r {
        Ok(v) => Ok(stats_view(v@)),
        Err(e) => Err(e),
    }
}

/// Strictly ascending bucket dates.
pub open spec fn ascending_dates(s: Seq<Date>) -> bool {
    forall|i: int, j: int| 0 <= i < j < s.len() ==> (#[trigger] s[i]).spec_lt(#[trigger] s[j])
}

/// The per-account reduced rows: each bucket's running values unchanged.
pub open spec fn account_rrows(rows: Seq<RowV>, use_bal: bool) -> Seq<ReducedRowV> {
    Seq::new(
        rows.len(),
        |i: int|
            ReducedRowV {
                date: rows[i].date,
                vals: if use_bal {
                    rows[i].bal
                } else {
                    rows[i].tra
                },
            },
    )
}

/// The total-type reduced rows: each bucket's values summed per total type.
pub open spec fn totals_rrows(rows: Seq<RowV>, types: Seq<AccountType>, use_bal: bool) -> Seq<
    ReducedRowV,
> {
    Seq::new(
        rows.len(),
        |i: int|
            ReducedRowV {
                date: rows[i].date,
                vals: spec_reduce(
                    if use_bal {
                        rows[i].bal
                    } else {
                        rows[i].tra
                    },
                    types,
                ),
            },
    )
}

/// Every bucket's total-type reduction stays in the fixed-point range.
pub open spec fn totals_fit(rows: Seq<RowV>, types: Seq<AccountType>, use_bal: bool) -> bool {
    forall|i: int|
        0 <= i < rows.len() ==> reduce_fits(
            if use_bal {
                (#[trigger] rows[i]).bal
            } else {
                rows[i].tra
            },
            types,
        )
}

/// The flow reduced rows: per total type, balance total minus transfer total.
pub open spec fn flow_rrows(rows: Seq<RowV>, types: Seq<AccountType>) -> Seq<ReducedRowV> {
    Seq::new(
        rows.len(),
        |i: int|
            ReducedRowV {
                date: rows[i].date,
                vals: spec_flow_vals(spec_reduce(rows[i].bal, types), spec_reduce(rows[i].tra, types)),
            },
    )
}

/// Every bucket's flow computation stays in the fixed-point range.
pub open spec fn flow_fit(rows: Seq<RowV>, types: Seq<AccountType>) -> bool {
    forall|i: int|
        0 <= i < rows.len() ==> {
            &&& reduce_fits((#[trigger] rows[i]).bal, types)
            &&& reduce_fits(rows[i].tra, types)
            &&& flow_vals_fit(spec_reduce(rows[i].bal, types), spec_reduce(rows[i].tra, types))
        }
}

/// The flow-grouping reduced rows: flows folded into the five flow groups.
pub open spec fn grouping_rrows(rows: Seq<RowV>, types: Seq<AccountType>) -> Seq<ReducedRowV> {
    Seq::new(
        rows.len(),
        |i: int|
            ReducedRowV {
                date: rows[i].date,
                vals: spec_group_vals(
                    spec_flow_vals(
                        spec_reduce(rows[i].bal, types),
                        spec_reduce(rows[i].tra, types),
                    ),
                ),
            },
    )
}

/// Every bucket's flow grouping stays in the fixed-point range.
pub open spec fn grouping_fit(rows: Seq<RowV>, types: Seq<AccountType>) -> bool {
    &&& flow_fit(rows, types)
    &&& forall|i: int|
        0 <= i < rows.len() ==> group_vals_fit(
            spec_flow_vals(
                spec_reduce((#[trigger] rows[i]).bal, types),
                spec_reduce(rows[i].tra, types),
            ),
        )
}

/// What a per-account report category computes.
pub open spec fn spec_account_category(
    txs: Seq<Transaction>,
    accounts: Seq<Account>,
    buckets: Seq<Date>,
    kind: TransactionType,
) -> Result<Seq<StatisticV>, EngineError> {
    match spec_resolve(txs, accounts) {
        Err(e) => Err(e),
        Ok(rtxs) => {
            let f = spec_kind(rtxs, kind);
            let n = accounts.len();
            if !aggregate_fits(f, n, buckets) {
                Err(EngineError::ValueOverflow)
            } else {
                let rr = account_rrows(spec_rows(f, n, buckets), kind == TransactionType::Balance);
                if !diffs_fit(rr) {
                    Err(EngineError::ValueOverflow)
                } else {
                    Ok(spec_make_stats(rr, account_names(accounts)))
                }
            }
        },
    }
}

/// What a total report category computes.
pub open spec fn spec_total_category(
    txs: Seq<Transaction>,
    accounts: Seq<Account>,
    buckets: Seq<Date>,
    kind: TransactionType,
) -> Result<Seq<StatisticV>, EngineError> {
    match spec_resolve(txs, accounts) {
        Err(e) => Err(e),
        Ok(rtxs) => {
            let f = spec_kind(rtxs, kind);
            let n = accounts.len();
            let use_bal = kind == TransactionType::Balance;
            if !aggregate_fits(f, n, buckets) {
                Err(EngineError::ValueOverflow)
            } else {
                let rows = spec_rows(f, n, buckets);
                if !totals_fit(rows, types_of(accounts), use_bal) {
                    Err(EngineError::ValueOverflow)
                } else {
                    let rr = totals_rrows(rows, types_of(accounts), use_bal);
                    if !diffs_fit(rr) {
                        Err(EngineError::ValueOverflow)
                    } else {
                        Ok(spec_make_stats(rr, total_names()))
                    }
                }
            }
        },
    }
}

/// What the flow report computes.
pub open spec fn spec_flow_report(
    txs: Seq<Transaction>,
    accounts: Seq<Account>,
    buckets: Seq<Date>,
) -> Result<Seq<StatisticV>, EngineError> {
    match spec_resolve(txs, accounts) {
        Err(e) => Err(e),
        Ok(rtxs) => {
            let n = accounts.len();
            if !aggregate_fits(rtxs, n, buckets) {
                Err(EngineError::ValueOverflow)
            } else {
                let rows = spec_rows(rtxs, n, buckets);
                if !flow_fit(rows, types_of(accounts)) {
                    Err(EngineError::ValueOverflow)
                } else {
                    let rr = flow_rrows(rows, types_of(accounts));
                    if !diffs_fit(rr) {
                        Err(EngineError::ValueOverflow)
                    } else {
                        Ok(spec_make_stats(rr, total_names()))
                    }
                }
            }
        },
    }
}

/// What the flow-grouping report computes.
pub open spec fn spec_flow_grouping_report(
    txs: Seq<Transaction>,
    accounts: Seq<Account>,
    buckets: Seq<Date>,
) -> Result<Seq<StatisticV>, EngineError> {
    match spec_resolve(txs, accounts) {
        Err(e) => Err(e),
        Ok(rtxs) => {
            let n = accounts.len();
            if !aggregate_fits(rtxs, n, buckets) {
                Err(EngineError::ValueOverflow)
            } else {
                let rows = spec_rows(rtxs, n, buckets);
                if !grouping_fit(rows, types_of(accounts)) {
                    Err(EngineError::ValueOverflow)
                } else {
                    let rr = grouping_rrows(rows, types_of(accounts));
                    if !diffs_fit(rr) {
                        Err(EngineError::ValueOverflow)
                    } else {
                        Ok(spec_make_stats(rr, group_names()))
                    }
                }
            }
        },
    }
}

/// Strip the emitted rows down to one side's running values.
fn rows_to_account(rows: Vec<AggregateRow>, use_bal: bool, n: usize) -> (r: Vec<ReducedRow>)
    requires
        forall|i: int|
            0 <= i < rows@.len() ==> (#[trigger] rows@[i]).balances@.len() == n
                && rows@[i].transfers@.len() == n,
    ensures
        rrows_view(r@) == account_rrows(crate::engine::rows_view(rows@), use_bal),
        forall|i: int| 0 <= i < r@.len() ==> (#[trigger] r@[i]).vals@.len() == n,
{
    let ghost orig = rows@;
    let ghost grows = crate::engine::rows_view(rows@);
    let mut rest = rows;
    let mut out: Vec<ReducedRow> = Vec::new();
    proof {
        assert(rest@ =~= orig.skip(0));
    }
    while rest.len() > 0
        invariant
            rest@.len() <= orig.len(),
            rest@ == orig.skip(orig.len() - rest@.len()),
            grows == crate::engine::rows_view(orig),
            out@.len() == orig.len() - rest@.len(),
            forall|i: int|
                0 <= i < orig.len() ==> (#[trigger] orig[i]).balances@.len() == n
                    && orig[i].transfers@.len() == n,
            forall|i: int|
                0 <= i < out@.len() ==> {
                    &&& (#[trigger] out@[i]).date == orig[i].date
                    &&& out@[i].vals@.len() == n
                    &&& out@[i].vals@ == (if use_bal {
                        orig[i].balances@
                    } else {
                        orig[i].transfers@
                    })
                },
        decreases rest@.len(),
    {
        let ghost i = orig.len() - rest@.len();
        let row = rest.remove(0);
        proof {
            assert(row == orig[i as int]);
            assert(rest@ =~= orig.skip(i as int + 1));
        }
        let vals = if use_bal {
            row.balances
        } else {
            row.transfers
        };
        out.push(ReducedRow { date: row.date, vals });
    }
    proof {
        let target = account_rrows(grows, use_bal);
        assert forall|i: int| 0 <= i < out@.len() implies rrows_view(out@)[i] =~~= target[i] by {
            assert(i64s(out@[i].vals@) =~= (if use_bal {
                grows[i].bal
            } else {
                grows[i].tra
            }));
        }
        assert(rrows_view(out@) =~~= target);
    }
    out
}

/// Reduce each emitted row's running values into total-type sums.
fn rows_to_totals(rows: &Vec<AggregateRow>, types: &Vec<AccountType>, use_bal: bool) -> (r: Result<
    Vec<ReducedRow>,
    EngineError,
>)
    requires
        forall|i: int|
            0 <= i < rows@.len() ==> (#[trigger] rows@[i]).balances@.len() == types@.len()
                && rows@[i].transfers@.len() == types@.len(),
    ensures
        match r {
            Ok(out) => {
                &&& totals_fit(crate::engine::rows_view(rows@), types@, use_bal)
                &&& rrows_view(out@) == totals_rrows(
                    crate::engine::rows_view(rows@),
                    types@,
                    use_bal,
                )
                &&& forall|i: int| 0 <= i < out@.len() ==> (#[trigger] out@[i]).vals@.len() == 9
            },
            Err(e) => {
                &&& e == EngineError::ValueOverflow
                &&& !totals_fit(crate::engine::rows_view(rows@), types@, use_bal)
            },
        },
{
    let ghost grows = crate::engine::rows_view(rows@);
    let mut out: Vec<ReducedRow> = Vec::new();
    let mut i: usize = 0;
    while i < rows.len()
        invariant
            i <= rows@.len(),
            grows == crate::engine::rows_view(rows@),
            forall|m: int|
                0 <= m < rows@.len() ==> (#[trigger] rows@[m]).balances@.len() == types@.len()
                    && rows@[m].transfers@.len() == types@.len(),
            out@.len() == i,
            forall|m: int|
                0 <= m < i ==> reduce_fits(
                    if use_bal {
                        (#[trigger] grows[m]).bal
                    } else {
                        grows[m].tra
                    },
                    types@,
                ),
            forall|m: int|
                0 <= m < i ==> {
                    &&& (#[trigger] out@[m]).date == grows[m].date
                    &&& out@[m].vals@.len() == 9
                    &&& i64s(out@[m].vals@) == spec_reduce(
                        if use_bal {
                            grows[m].bal
                        } else {
                            grows[m].tra
                        },
                        types@,
                    )
                },
        decreases rows@.len() - i,
    {
        let side: &Vec<i64> = if use_bal {
            &rows[i].balances
        } else {
            &rows[i].transfers
        };
        proof {
            assert(i64s(side@) =~= (if use_bal {
                grows[i as int].bal
            } else {
                grows[i as int].tra
            }));
        }
        match reduce_totals(side, types) {
            Ok(vals) => {
                out.push(ReducedRow { date: rows[i].date, vals });
            },
            Err(e) => {
                return Err(e);
            },
        }
        i = i + 1;
    }
    proof {
        let target = totals_rrows(grows, types@, use_bal);
        assert forall|m: int| 0 <= m < out@.len() implies rrows_view(out@)[m] =~~= target[m] by {
            assert(i64s(out@[m].vals@) == spec_reduce(
                if use_bal {
                    grows[m].bal
                } else {
                    grows[m].tra
                },
                types@,
            ));
        }
        assert(rrows_view(out@) =~~= target);
    }
    Ok(out)
}

/// Compute each emitted row's flow (and optionally flow-group) values.
fn rows_to_flow(rows: &Vec<AggregateRow>, types: &Vec<AccountType>, grouping: bool) -> (r: Result<
    Vec<ReducedRow>,
    EngineError,
>)
    requires
        forall|i: int|
            0 <= i < rows@.len() ==> (#[trigger] rows@[i]).balances@.len() == types@.len()
                && rows@[i].transfers@.len() == types@.len(),
    ensures
        match r {
            Ok(out) => {
                &&& if grouping {
                    grouping_fit(crate::engine::rows_view(rows@), types@)
                } else {
                    flow_fit(crate::engine::rows_view(rows@), types@)
                }
                &&& rrows_view(out@) == if grouping {
                    grouping_rrows(crate::engine::rows_view(rows@), types@)
                } else {
                    flow_rrows(crate::engine::rows_view(rows@), types@)
                }
                &&& forall|i: int|
                    0 <= i < out@.len() ==> (#[trigger] out@[i]).vals@.len() == (if grouping {
                        5int
                    } else {
                        9int
                    })
            },
            Err(e) => {
                &&& e == EngineError::ValueOverflow
                &&& if grouping {
                    !grouping_fit(crate::engine::rows_view(rows@), types@)
                } else {
                    !flow_fit(crate::engine::rows_view(rows@), types@)
                }
            },
        },
{
    let ghost grows = crate::engine::rows_view(rows@);
    let mut out: Vec<ReducedRow> = Vec::new();
    let mut i: usize = 0;
    while i < rows.len()
        invariant
            i <= rows@.len(),
            grows == crate::engine::rows_view(rows@),
            forall|m: int|
                0 <= m < rows@.len() ==> (#[trigger] rows@[m]).balances@.len() == types@.len()
                    && rows@[m].transfers@.len() == types@.len(),
            out@.len() == i,
            forall|m: int|
                0 <= m < i ==> {
                    &&& reduce_fits((#[trigger] grows[m]).bal, types@)
                    &&& reduce_fits(grows[m].tra, types@)
                    &&& flow_vals_fit(
                        spec_reduce(grows[m].bal, types@),
                        spec_reduce(grows[m].tra, types@),
                    )
                    &&& (grouping ==> group_vals_fit(
                        spec_flow_vals(
                            spec_reduce(grows[m].bal, types@),
                            spec_reduce(grows[m].tra, types@),
                        ),
                    ))
                },
            forall|m: int|
                0 <= m < i ==> {
                    &&& (#[trigger] out@[m]).date == grows[m].date
                    &&& out@[m].vals@.len() == (if grouping {
                        5int
                    } else {
                        9int
                    })
                    &&& i64s(out@[m].vals@) == (if grouping {
                        spec_group_vals(
                            spec_flow_vals(
                                spec_reduce(grows[m].bal, types@),
                                spec_reduce(grows[m].tra, types@),
                            ),
                        )
                    } else {
                        spec_flow_vals(
                            spec_reduce(grows[m].bal, types@),
                            spec_reduce(grows[m].tra, types@),
                        )
                    })
                },
        decreases rows@.len() - i,
    {
        proof {
            assert(i64s(rows@[i as int].balances@) =~= grows[i as int].bal);
            assert(i64s(rows@[i as int].transfers@) =~= grows[i as int].tra);
        }
        let b9 = match reduce_totals(&rows[i].balances, types) {
            Ok(v) => v,
            Err(e) => {
                return Err(e);
            },
        };
        let t9 = match reduce_totals(&rows[i].transfers, types) {
            Ok(v) => v,
            Err(e) => {
                return Err(e);
            },
        };
        let fv = match flow_vals(&b9, &t9) {
            Ok(v) => v,
            Err(e) => {
                return Err(e);
            },
        };
        if grouping {
            let gv = match group_vals(&fv) {
                Ok(v) => v,
                Err(e) => {
                    return Err(e);
                },
            };
            out.push(ReducedRow { date: rows[i].date, vals: gv });
        } else {
            out.push(ReducedRow { date: rows[i].date, vals: fv });
        }
        i = i + 1;
    }
    proof {
        let target = if grouping {
            grouping_rrows(grows, types@)
        } else {
            flow_rrows(grows, types@)
        };
        assert forall|m: int| 0 <= m < out@.len() implies rrows_view(out@)[m] =~~= target[m] by {}
        assert(rrows_view(out@) =~~= target);
    }
    Ok(out)
}

/// Date-sorted transactions resolve to date-sorted indexes.
proof fn lemma_resolved_sorted(txs: Seq<Transaction>, rtxs: Seq<ResolvedTx>)
    requires
        sorted_txs(txs),
        rtxs.len() == txs.len(),
        forall|i: int| 0 <= i < rtxs.len() ==> (#[trigger] rtxs[i]).date == txs[i].date,
    ensures
        sorted_by_date(rtxs),
{
    assert forall|i: int, j: int| 0 <= i <= j < rtxs.len() implies (#[trigger] rtxs[i]).date.spec_le(
        #[trigger] rtxs[j].date,
    ) by {
        assert(txs[i].date.spec_le(txs[j].date));
    }
}

/// Per-account balance report: for each bucket, every account's last recorded
/// balance on or before the bucket date, with its change since the previous
/// emitted bucket.
pub fn calculate_account_balances(
    transactions: Vec<Transaction>,
    accounts: Vec<Account>,
    dates: Vec<Date>,
) -> (r: Result<Vec<Statistic>, EngineError>)
    requires
        sorted_txs(transactions@),
        distinct_ids(accounts@),
        ascending_dates(dates@),
    ensures
        res_view(r) == spec_account_category(
            transactions@,
            accounts@,
            dates@,
            TransactionType::Balance,
        ),
{
    calculate_account_category(transactions, accounts, dates, TransactionType::Balance)
}

/// Per-account transfer report: for each bucket, every account's accumulated
/// net transfer movement, with its change since the previous emitted bucket.
pub fn calculate_account_transfers(
    transactions: Vec<Transaction>,
    accounts: Vec<Account>,
    dates: Vec<Date>,
) -> (r: Result<Vec<Statistic>, EngineError>)
    requires
        sorted_txs(transactions@),
        distinct_ids(accounts@),
        ascending_dates(dates@),
    ensures
        res_view(r) == spec_account_category(
            transactions@,
            accounts@,
            dates@,
            TransactionType::Transfer,
        ),
{
    calculate_account_category(transactions, accounts, dates, TransactionType::Transfer)
}

fn calculate_account_category(
    transactions: Vec<Transaction>,
    accounts: Vec<Account>,
    dates: Vec<Date>,
    kind: TransactionType,
) -> (r: Result<Vec<Statistic>, EngineError>)
    requires
        sorted_txs(transactions@),
        distinct_ids(accounts@),
        ascending_dates(dates@),
    ensures
        res_view(r) == spec_account_category(transactions@, accounts@, dates@, kind),
{
    let n = accounts.len();
    let rtxs = match resolve_transactions(&transactions, &accounts) {
        Ok(v) => v,
        Err(e) => {
            return Err(e);
        },
    };
    proof {
        lemma_resolved_sorted(transactions@, rtxs@);
    }
    let f = filter_kind(&rtxs, kind, n);
    let rows = match aggregate_core(&f, n, &dates) {
        Ok(v) => v,
        Err(e) => {
            return Err(e);
        },
    };
    let names = account_ids(&accounts);
    let rrows = rows_to_account(rows, is_kind_balance(kind), n);
    match make_statistics(&rrows, &names) {
        Ok(v) => Ok(v),
        Err(e) => Err(e),
    }
}

fn is_kind_balance(kind: TransactionType) -> (r: bool)
    ensures
        r == (kind == TransactionType::Balance),
{
    match kind {
        TransactionType::Balance => true,
        TransactionType::Transfer => false,
    }
}

/// Total balance report: per bucket, balances summed per total type plus the
/// `Net` sum over every account.
pub fn calculate_total_balances(
    transactions: Vec<Transaction>,
    accounts: Vec<Account>,
    dates: Vec<Date>,
) -> (r: Result<Vec<Statistic>, EngineError>)
    requires
        sorted_txs(transactions@),
        distinct_ids(accounts@),
        ascending_dates(dates@),
    ensures
        res_view(r) == spec_total_category(
            transactions@,
            accounts@,
            dates@,
            TransactionType::Balance,
        ),
{
    calculate_total_category(transactions, accounts, dates, TransactionType::Balance)
}

/// Total transfer report: per bucket, accumulated transfer movement summed
/// per total type plus the `Net` sum over every account.
pub fn calculate_total_transfers(
    transactions: Vec<Transaction>,
    accounts: Vec<Account>,
    dates: Vec<Date>,
) -> (r: Result<Vec<Statistic>, EngineError>)
    requires
        sorted_txs(transactions@),
        distinct_ids(accounts@),
        ascending_dates(dates@),
    ensures
        res_view(r) == spec_total_category(
            transactions@,
            accounts@,
            dates@,
            TransactionType::Transfer,
        ),
{
    calculate_total_category(transactions, accounts, dates, TransactionType::Transfer)
}

fn calculate_total_category(
    transactions: Vec<Transaction>,
    accounts: Vec<Account>,
    dates: Vec<Date>,
    kind: TransactionType,
) -> (r: Result<Vec<Statistic>, EngineError>)
    requires
        sorted_txs(transactions@),
        distinct_ids(accounts@),
        ascending_dates(dates@),
    ensures
        res_view(r) == spec_total_category(transactions@, accounts@, dates@, kind),
{
    let n = accounts.len();
    let rtxs = match resolve_transactions(&transactions, &accounts) {
        Ok(v) => v,
        Err(e) => {
            return Err(e);
        },
    };
    proof {
        lemma_resolved_sorted(transactions@, rtxs@);
    }
    let f = filter_kind(&rtxs, kind, n);
    let rows = match aggregate_core(&f, n, &dates) {
        Ok(v) => v,
        Err(e) => {
            return Err(e);
        },
    };
    let types = account_types(&accounts);
    let rrows = match rows_to_totals(&rows, &types, is_kind_balance(kind)) {
        Ok(v) => v,
        Err(e) => {
            return Err(e);
        },
    };
    let names = total_names_vec();
    match make_statistics(&rrows, &names) {
        Ok(v) => Ok(v),
        Err(e) => Err(e),
    }
}

/// Flow report: per bucket and total type, the portion of balance change not
/// explained by transfers (real gain, loss, interest or appreciation).
pub fn calculate_flow(
    transactions: Vec<Transaction>,
    accounts: Vec<Account>,
    dates: Vec<Date>,
) -> (r: Result<Vec<Statistic>, EngineError>)
    requires
        sorted_txs(transactions@),
        distinct_ids(accounts@),
        ascending_dates(dates@),
    ensures
        res_view(r) == spec_flow_report(transactions@, accounts@, dates@),
{
    let n = accounts.len();
    let rtxs = match resolve_transactions(&transactions, &accounts) {
        Ok(v) => v,
        Err(e) => {
            return Err(e);
        },
    };
    proof {
        lemma_resolved_sorted(transactions@, rtxs@);
    }
    let rows = match aggregate_core(&rtxs, n, &dates) {
        Ok(v) => v,
        Err(e) => {
            return Err(e);
        },
    };
    let types = account_types(&accounts);
    let rrows = match rows_to_flow(&rows, &types, false) {
        Ok(v) => v,
        Err(e) => {
            return Err(e);
        },
    };
    let names = total_names_vec();
    match make_statistics(&rrows, &names) {
        Ok(v) => Ok(v),
        Err(e) => Err(e),
    }
}

/// Flow-grouping report: per bucket, the flow values folded into the five
/// coarse flow groups.
pub fn calculate_flow_grouping(
    transactions: Vec<Transaction>,
    accounts: Vec<Account>,
    dates: Vec<Date>,
) -> (r: Result<Vec<Statistic>, EngineError>)
    requires
        sorted_txs(transactions@),
        distinct_ids(accounts@),
        ascending_dates(dates@),
    ensures
        res_view(r) == spec_flow_grouping_report(transactions@, accounts@, dates@),
{
    let n = accounts.len();
    let rtxs = match resolve_transactions(&transactions, &accounts) {
        Ok(v) => v,
        Err(e) => {
            return Err(e);
        },
    };
    proof {
        lemma_resolved_sorted(transactions@, rtxs@);
    }
    let rows = match aggregate_core(&rtxs, n, &dates) {
        Ok(v) => v,
        Err(e) => {
            return Err(e);
        },
    };
    let types = account_types(&accounts);
    let rrows = match rows_to_flow(&rows, &types, true) {
        Ok(v) => v,
        Err(e) => {
            return Err(e);
        },
    };
    let names = group_names_vec();
    match make_statistics(&rrows, &names) {
        Ok(v) => Ok(v),
        Err(e) => Err(e),
    }
}

} // verus!
