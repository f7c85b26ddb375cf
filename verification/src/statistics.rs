//! The statistics entry point: sorts the snapshot, generates the report
//! buckets from today's date and the earliest transaction, and dispatches to
//! the requested report category.

use vstd::prelude::*;
use crate::buckets::{dates, lemma_buckets_law, spec_dates, Period};
use crate::date::{Date, MAX_YEAR};
use crate::engine::distinct_ids;
use crate::expenses::{calculate_expenses, spec_expenses_report};
use crate::params::Category;
use crate::reports::{
    calculate_account_balances, calculate_account_transfers, calculate_flow,
    calculate_flow_grouping, calculate_total_balances, calculate_total_transfers, res_view,
    spec_account_category, spec_flow_grouping_report, spec_flow_report, spec_total_category,
};
use crate::schema::{
    stats_view, Account, EngineError, Expense, Statistic, StatisticV, Transaction, TransactionType,
};
use crate::sort::{
    sort_expenses, sort_transactions, spec_insert_tx, spec_sort_exps, spec_sort_txs,
};

verus! {

/// What a statistics request computes: an empty snapshot yields an empty
/// report; otherwise the date-sorted transactions are merged with the buckets
/// between the earliest transaction's period and the period after today.
pub open spec fn spec_statistics(
    period: Period,
    category: Category,
    txs: Seq<Transaction>,
    accounts: Seq<Account>,
    es: Seq<Expense>,
    today: Date,
) -> Result<Seq<StatisticV>, EngineError> {
    if txs.len() == 0 {
        Ok(Seq::empty())
    } else {
        let st = spec_sort_txs(txs);
        let buckets = spec_dates(period, today, st[0].date);
        match category {
            Category::AccountBalances => spec_account_category(
                st,
                accounts,
                buckets,
                TransactionType::Balance,
            ),
            Category::AccountTransfers => spec_account_category(
                st,
                accounts,
                buckets,
                TransactionType::Transfer,
            ),
            Category::TotalBalances => spec_total_category(
                st,
                accounts,
                buckets,
                TransactionType::Balance,
            ),
            Category::TotalTransfers => spec_total_category(
                st,
                accounts,
                buckets,
                TransactionType::Transfer,
            ),
            Category::Flow => spec_flow_report(st, accounts, buckets),
            Category::FlowGrouping => spec_flow_grouping_report(st, accounts, buckets),
            Category::Expenses => spec_expenses_report(st, accounts, spec_sort_exps(es), buckets),
        }
    }
}

/// Inserting a transaction with a valid date keeps every date valid.
proof fn lemma_insert_tx_dates_valid(s: Seq<Transaction>, t: Transaction)
    requires
        forall|i: int| 0 <= i < s.len() ==> (#[trigger] s[i]).date.valid(),
        t.date.valid(),
    ensures
        forall|i: int|
            0 <= i < spec_insert_tx(s, t).len() ==> (#[trigger] spec_insert_tx(s, t)[i]).date.valid(),
    decreases s.len(),
{
    if s.len() == 0 {
    } else if s.last().date.spec_le(t.date) {
    } else {
        lemma_insert_tx_dates_valid(s.drop_last(), t);
    }
}

/// Sorting keeps every date valid.
proof fn lemma_sort_txs_dates_valid(s: Seq<Transaction>)
    requires
        forall|i: int| 0 <= i < s.len() ==> (#[trigger] s[i]).date.valid(),
    ensures
        forall|i: int|
            0 <= i < spec_sort_txs(s).len() ==> (#[trigger] spec_sort_txs(s)[i]).date.valid(),
    decreases s.len(),
{
    if s.len() > 0 {
        lemma_sort_txs_dates_valid(s.drop_last());
        lemma_insert_tx_dates_valid(spec_sort_txs(s.drop_last()), s.last());
    }
}

/// Compute the requested statistics report over one snapshot, as of `today`.
/// An empty transaction list yields an empty report; malformed references or
/// values outside the fixed-point range surface as errors.
pub fn calculate_statistics(
    period: Period,
    category: Category,
    transactions: Vec<Transaction>,
    accounts: Vec<Account>,
    expenses: Vec<Expense>,
    today: Date,
) -> (r: Result<Vec<Statistic>, EngineError>)
    requires
        distinct_ids(accounts@),
        today.valid(),
        today.year <= MAX_YEAR - 2,
        forall|i: int| 0 <= i < transactions@.len() ==> (#[trigger] transactions@[i]).date.valid(),
    ensures
        res_view(r) == spec_statistics(
            period,
            category,
            transactions@,
            accounts@,
            expenses@,
            today,
        ),
{
    if transactions.len() == 0 {
        let empty: Vec<Statistic> = Vec::new();
        proof {
            assert(stats_view(empty@) =~= Seq::<StatisticV>::empty());
        }
        return Ok(empty);
    }
    let ghost orig_txs = transactions@;
    let st = sort_transactions(transactions);
    proof {
        lemma_sort_txs_dates_valid(orig_txs);
    }
    let earliest: Date = st[0].date;
    let buckets = dates(period, &today, &earliest);
    proof {
        lemma_buckets_law(period, today, earliest);
    }
    match category {
        Category::AccountBalances => calculate_account_balances(st, accounts, buckets),
        Category::AccountTransfers => calculate_account_transfers(st, accounts, buckets),
        Category::TotalBalances => calculate_total_balances(st, accounts, buckets),
        Category::TotalTransfers => calculate_total_transfers(st, accounts, buckets),
        Category::Flow => calculate_flow(st, accounts, buckets),
        Category::FlowGrouping => calculate_flow_grouping(st, accounts, buckets),
        Category::Expenses => {
            let se = sort_expenses(expenses);
            calculate_expenses(st, accounts, se, buckets)
        },
    }
}

/// Law: the engine is deterministic, so rerunning it on an unchanged
/// snapshot yields an identical report. Any two results that meet the
/// contract of `calculate_statistics` on the same inputs agree.
pub proof fn lemma_statistics_idempotent(
    period: Period,
    category: Category,
    txs: Seq<Transaction>,
    accounts: Seq<Account>,
    es: Seq<Expense>,
    today: Date,
    r1: Result<Vec<Statistic>, EngineError>,
    r2: Result<Vec<Statistic>, EngineError>,
)
    requires
        res_view(r1) == spec_statistics(period, category, txs, accounts, es, today),
        res_view(r2) == spec_statistics(period, category, txs, accounts, es, today),
    ensures
        res_view(r1) == res_view(r2),
{
}

} // verus!
