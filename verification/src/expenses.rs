//! The expense rollup: categorized running expense totals per bucket, with an
//! overall total and, per bucket, the absolute value of that bucket's cash
//! flow-grouping difference, letting a report compare categorized spending
//! against net cash movement.

use vstd::prelude::*;
use vstd::pervasive::VecAdditionalExecFns;
use crate::date::Date;
use crate::engine::{i64s, in_i64};
use crate::reports::{
    calculate_flow_grouping, diffs_fit, names_view, res_view, rrows_view, spec_flow_grouping_report,
    spec_make_stats, make_statistics, ReducedRow, ReducedRowV, ascending_dates,
};
use crate::schema::{
    stats_view, Account, EngineError, Expense, ExpenseCategory, Statistic, StatisticV, Transaction,
};
use crate::sort::{sorted_exps, sorted_txs};
use crate::engine::distinct_ids;

verus! {

/// The fixed emission order of expense report columns: the sixteen expense
/// categories, then the overall total, then the bucket's cash movement.
pub open spec fn category_at(j: int) -> ExpenseCategory {
    if j == 0 {
        ExpenseCategory::Unknown
    } else if j == 1 {
        ExpenseCategory::Other
    } else if j == 2 {
        ExpenseCategory::Bills
    } else if j == 3 {
        ExpenseCategory::Clothing
    } else if j == 4 {
        ExpenseCategory::Electronics
    } else if j == 5 {
        ExpenseCategory::Entertainment
    } else if j == 6 {
        ExpenseCategory::Fitness
    } else if j == 7 {
        ExpenseCategory::Groceries
    } else if j == 8 {
        ExpenseCategory::House
    } else if j == 9 {
        ExpenseCategory::Maintenance
    } else if j == 10 {
        ExpenseCategory::Medical
    } else if j == 11 {
        ExpenseCategory::Pets
    } else if j == 12 {
        ExpenseCategory::Restaurants
    } else if j == 13 {
        ExpenseCategory::SmartHome
    } else if j == 14 {
        ExpenseCategory::Subscriptions
    } else {
        ExpenseCategory::Vacations
    }
}

/// The emission index of an expense category.
pub fn category_index(c: &ExpenseCategory) -> (r: usize)
    ensures
        r < 16,
        category_at(r as int) == c,
{
    match c {
        ExpenseCategory::Unknown => 0,
        ExpenseCategory::Other => 1,
        ExpenseCategory::Bills => 2,
        ExpenseCategory::Clothing => 3,
        ExpenseCategory::Electronics => 4,
        ExpenseCategory::Entertainment => 5,
        ExpenseCategory::Fitness => 6,
        ExpenseCategory::Groceries => 7,
        ExpenseCategory::House => 8,
        ExpenseCategory::Maintenance => 9,
        ExpenseCategory::Medical => 10,
        ExpenseCategory::Pets => 11,
        ExpenseCategory::Restaurants => 12,
        ExpenseCategory::SmartHome => 13,
        ExpenseCategory::Subscriptions => 14,
        ExpenseCategory::Vacations => 15,
    }
}

/// The report name of an expense category.
pub open spec fn spec_category_name(c: ExpenseCategory) -> Seq<char> {
    match c {
        ExpenseCategory::Unknown => "UNKNOWN"@,
        ExpenseCategory::Other => "OTHER"@,
        ExpenseCategory::Bills => "BILLS"@,
        ExpenseCategory::Clothing => "CLOTHING"@,
        ExpenseCategory::Electronics => "ELECTRONICS"@,
        ExpenseCategory::Entertainment => "ENTERTAINMENT"@,
        ExpenseCategory::Fitness => "FITNESS"@,
        ExpenseCategory::Groceries => "GROCERIES"@,
        ExpenseCategory::House => "HOUSE"@,
        ExpenseCategory::Maintenance => "MAINTENANCE"@,
        ExpenseCategory::Medical => "MEDICAL"@,
        ExpenseCategory::Pets => "PETS"@,
        ExpenseCategory::Restaurants => "RESTAURANTS"@,
        ExpenseCategory::SmartHome => "SMART_HOME"@,
        ExpenseCategory::Subscriptions => "SUBSCRIPTIONS"@,
        ExpenseCategory::Vacations => "VACATIONS"@,
    }
}

/// The report name of an expense category.
pub fn category_name(c: &ExpenseCategory) -> (r: String)
    ensures
        r@ == spec_category_name(*c),
{
    match c {
        ExpenseCategory::Unknown => "UNKNOWN".to_owned(),
        ExpenseCategory::Other => "OTHER".to_owned(),
        ExpenseCategory::Bills => "BILLS".to_owned(),
        ExpenseCategory::Clothing => "CLOTHING".to_owned(),
        ExpenseCategory::Electronics => "ELECTRONICS".to_owned(),
        ExpenseCategory::Entertainment => "ENTERTAINMENT".to_owned(),
        ExpenseCategory::Fitness => "FITNESS".to_owned(),
        ExpenseCategory::Groceries => "GROCERIES".to_owned(),
        ExpenseCategory::House => "HOUSE".to_owned(),
        ExpenseCategory::Maintenance => "MAINTENANCE".to_owned(),
        ExpenseCategory::Medical => "MEDICAL".to_owned(),
        ExpenseCategory::Pets => "PETS".to_owned(),
        ExpenseCategory::Restaurants => "RESTAURANTS".to_owned(),
        ExpenseCategory::SmartHome => "SMART_HOME".to_owned(),
        ExpenseCategory::Subscriptions => "SUBSCRIPTIONS".to_owned(),
        ExpenseCategory::Vacations => "VACATIONS".to_owned(),
    }
}

/// The value names of the expense report, in emission order.
pub open spec fn expense_names() -> Seq<Seq<char>> {
    Seq::new(
        18,
        |j: int|
            if j < 16 {
                spec_category_name(category_at(j))
            } else if j == 16 {
                "TOTAL"@
            } else {
                "CASH"@
            },
    )
}

/// Collect the expense report names in emission order.
pub fn expense_names_vec() -> (r: Vec<String>)
    ensures
        names_view(r@) == expense_names(),
        r@.len() == 18,
{
    let mut out: Vec<String> = Vec::new();
    out.push(category_name(&ExpenseCategory::Unknown));
    out.push(category_name(&ExpenseCategory::Other));
    out.push(category_name(&ExpenseCategory::Bills));
    out.push(category_name(&ExpenseCategory::Clothing));
    out.push(category_name(&ExpenseCategory::Electronics));
    out.push(category_name(&ExpenseCategory::Entertainment));
    out.push(category_name(&ExpenseCategory::Fitness));
    out.push(category_name(&ExpenseCategory::Groceries));
    out.push(category_name(&ExpenseCategory::House));
    out.push(category_name(&ExpenseCategory::Maintenance));
    out.push(category_name(&ExpenseCategory::Medical));
    out.push(category_name(&ExpenseCategory::Pets));
    out.push(category_name(&ExpenseCategory::Restaurants));
    out.push(category_name(&ExpenseCategory::SmartHome));
    out.push(category_name(&ExpenseCategory::Subscriptions));
    out.push(category_name(&ExpenseCategory::Vacations));
    out.push("TOTAL".to_owned());
    out.push("CASH".to_owned());
    proof {
        assert(names_view(out@) =~= expense_names());
    }
    out
}

/// The expenses on or before a bucket date.
pub open spec fn spec_exp_upto(es: Seq<Expense>, b: Date) -> Seq<Expense> {
    es.filter(|e: Expense| e.date.spec_le(b))
}

/// On a date-split sequence the date filter keeps exactly the prefix.
pub proof fn lemma_exp_upto_take(es: Seq<Expense>, b: Date, k: int)
    requires
        0 <= k <= es.len(),
        forall|i: int| 0 <= i < k ==> (#[trigger] es[i]).date.spec_le(b),
        forall|i: int| k <= i < es.len() ==> !(#[trigger] es[i]).date.spec_le(b),
    ensures
        spec_exp_upto(es, b) == es.take(k),
    decreases es.len(),
{
    reveal(Seq::filter);
    if es.len() == 0 {
        assert(spec_exp_upto(es, b) =~= es.take(k));
    } else {
        let dl = es.drop_last();
        if k == es.len() {
            lemma_exp_upto_take(dl, b, k - 1);
            assert(dl.take(k - 1).push(es.last()) =~= es.take(k));
        } else {
            lemma_exp_upto_take(dl, b, k);
            assert(dl.take(k) =~= es.take(k));
        }
    }
}

/// Sum of the first `k` expenses of one category.
pub open spec fn psum_cat(es: Seq<Expense>, cat: ExpenseCategory, k: int) -> int
    decreases k,
{
    if k <= 0 {
        0
    } else {
        psum_cat(es, cat, k - 1) + if es[k - 1].category == cat {
            es[k - 1].value as int
        } else {
            0
        }
    }
}

/// Sum of the first `k` expenses.
pub open spec fn psum_total(es: Seq<Expense>, k: int) -> int
    decreases k,
{
    if k <= 0 {
        0
    } else {
        psum_total(es, k - 1) + es[k - 1].value
    }
}

pub open spec fn abs_int(v: int) -> int {
    if v < 0 {
        -v
    } else {
        v
    }
}

/// The absolute cash flow-grouping difference reported for a bucket date, or
/// zero when the flow-grouping report has no row at that date.
pub open spec fn spec_cash_of(fg: Seq<StatisticV>, b: Date) -> int
    decreases fg.len(),
{
    if fg.len() == 0 {
        0
    } else if fg[0].date == b {
        if fg[0].values.len() > 2 {
            abs_int(fg[0].values[2].value_difference)
        } else {
            0
        }
    } else {
        spec_cash_of(fg.skip(1), b)
    }
}

/// The accumulated cash movement over the first `i` buckets.
pub open spec fn cash_sum(fg: Seq<StatisticV>, buckets: Seq<Date>, i: int) -> int
    decreases i,
{
    if i <= 0 {
        0
    } else {
        cash_sum(fg, buckets, i - 1) + spec_cash_of(fg, buckets[i - 1])
    }
}

/// One expense report column at bucket `i`.
pub open spec fn exp_val(
    es: Seq<Expense>,
    fg: Seq<StatisticV>,
    buckets: Seq<Date>,
    i: int,
    j: int,
) -> int {
    let c = spec_exp_upto(es, buckets[i]).len() as int;
    if j < 16 {
        psum_cat(es, category_at(j), c)
    } else if j == 16 {
        psum_total(es, c)
    } else {
        cash_sum(fg, buckets, i + 1)
    }
}

/// The expense row emitted at bucket `i`.
pub open spec fn exp_row_at(
    es: Seq<Expense>,
    fg: Seq<StatisticV>,
    buckets: Seq<Date>,
    i: int,
) -> ReducedRowV {
    ReducedRowV { date: buckets[i], vals: Seq::new(18, |j: int| exp_val(es, fg, buckets, i, j)) }
}

/// The emitted expense rows: one per bucket from the first bucket on or
/// after the first expense.
pub open spec fn spec_exp_rows(es: Seq<Expense>, fg: Seq<StatisticV>, buckets: Seq<Date>) -> Seq<
    ReducedRowV,
>
    decreases buckets.len(),
{
    if buckets.len() == 0 {
        Seq::empty()
    } else {
        let pre = spec_exp_rows(es, fg, buckets.drop_last());
        if spec_exp_upto(es, buckets.last()).len() > 0 {
            pre.push(exp_row_at(es, fg, buckets, buckets.len() - 1))
        } else {
            pre
        }
    }
}

/// The accumulated cash movement only reads buckets before `i`.
proof fn lemma_cash_sum_take(fg: Seq<StatisticV>, buckets: Seq<Date>, m: int, i: int)
    requires
        0 <= i <= m <= buckets.len(),
    ensures
        cash_sum(fg, buckets.take(m), i) == cash_sum(fg, buckets, i),
    decreases i,
{
    if i > 0 {
        lemma_cash_sum_take(fg, buckets, m, i - 1);
        assert(buckets.take(m)[i - 1] == buckets[i - 1]);
    }
}

/// Whether the expense rollup stays in the fixed-point range.
pub open spec fn exp_fits(es: Seq<Expense>, fg: Seq<StatisticV>, buckets: Seq<Date>) -> bool {
    &&& forall|m: int|
        0 <= m < es.len() && buckets.len() > 0 && (#[trigger] es[m]).date.spec_le(buckets.last())
            ==> in_i64(psum_cat(es, es[m].category, m + 1)) && in_i64(psum_total(es, m + 1))
    &&& forall|i: int|
        0 <= i < buckets.len() ==> in_i64(spec_cash_of(fg, #[trigger] buckets[i])) && in_i64(
            cash_sum(fg, buckets, i + 1),
        )
}

/// What the expense report computes: the flow-grouping report feeds the cash
/// column, and the sorted expenses accumulate per category.
pub open spec fn spec_expenses_report(
    txs: Seq<Transaction>,
    accounts: Seq<Account>,
    es: Seq<Expense>,
    buckets: Seq<Date>,
) -> Result<Seq<StatisticV>, EngineError> {
    match spec_flow_grouping_report(txs, accounts, buckets) {
        Err(e) => Err(e),
        Ok(fg) => {
            if !exp_fits(es, fg, buckets) {
                Err(EngineError::ValueOverflow)
            } else {
                let rr = spec_exp_rows(es, fg, buckets);
                if !diffs_fit(rr) {
                    Err(EngineError::ValueOverflow)
                } else {
                    Ok(spec_make_stats(rr, expense_names()))
                }
            }
        },
    }
}

/// Look up the bucket's absolute cash difference in the flow-grouping report.
fn cash_of(fg: &Vec<Statistic>, b: &Date) -> (r: Result<i64, EngineError>)
    ensures
        match r {
            Ok(v) => v as int == spec_cash_of(stats_view(fg@), *b) && in_i64(
                spec_cash_of(stats_view(fg@), *b),
            ),
            Err(e) => e == EngineError::ValueOverflow && !in_i64(
                spec_cash_of(stats_view(fg@), *b),
            ),
        },
{
    let ghost gfg = stats_view(fg@);
    let mut i: usize = 0;
    proof {
        assert(gfg.skip(0) =~= gfg);
    }
    while i < fg.len()
        invariant
            i <= fg@.len(),
            gfg == stats_view(fg@),
            spec_cash_of(gfg.skip(i as int), *b) == spec_cash_of(gfg, *b),
            forall|m: int| 0 <= m < i ==> (#[trigger] gfg[m]).date != *b,
        decreases fg@.len() - i,
    {
        proof {
            assert(gfg.skip(i as int)[0] == gfg[i as int]);
        }
        if fg[i].date == *b {
            if fg[i].values.len() > 2 {
                let d: i64 = fg[i].values[2].value_difference;
                proof {
                    assert(gfg[i as int].values[2] == fg@[i as int]@.values[2]);
                    assert(spec_cash_of(gfg.skip(i as int), *b) == abs_int(d as int));
                }
                if d == i64::MIN {
                    return Err(EngineError::ValueOverflow);
                } else if d < 0 {
                    return Ok(-d);
                } else {
                    return Ok(d);
                }
            } else {
                proof {
                    assert(spec_cash_of(gfg.skip(i as int), *b) == 0);
                }
                return Ok(0);
            }
        }
        proof {
            assert(gfg.skip(i as int).skip(1) =~= gfg.skip(i as int + 1));
        }
        i = i + 1;
    }
    proof {
        assert(gfg.skip(i as int).len() == 0);
    }
    Ok(0)
}

/// Walk the buckets, accumulating categorized expense totals and the cash
/// movement column, emitting one row per bucket once the first expense has
/// been consumed.
fn exp_rollup(es: &Vec<Expense>, fg: &Vec<Statistic>, buckets: &Vec<Date>) -> (r: Result<
    Vec<ReducedRow>,
    EngineError,
>)
    requires
        sorted_exps(es@),
        ascending_dates(buckets@),
    ensures
        match r {
            Ok(out) => {
                &&& exp_fits(es@, stats_view(fg@), buckets@)
                &&& rrows_view(out@) == spec_exp_rows(es@, stats_view(fg@), buckets@)
                &&& forall|i: int| 0 <= i < out@.len() ==> (#[trigger] out@[i]).vals@.len() == 18
            },
            Err(e) => {
                &&& e == EngineError::ValueOverflow
                &&& !exp_fits(es@, stats_view(fg@), buckets@)
            },
        },
{
    let ghost xs = es@;
    let ghost gfg = stats_view(fg@);
    let ne = es.len();
    let nb = buckets.len();
    let mut slots: Vec<i64> = crate::engine::zero_vec(18);
    let mut out: Vec<ReducedRow> = Vec::new();
    let mut c: usize = 0;
    let mut bi: usize = 0;
    proof {
        assert(rrows_view(out@) =~= spec_exp_rows(xs, gfg, buckets@.take(0)));
        assert forall|j: int| 0 <= j < 16 implies slots@[j] as int == psum_cat(xs, category_at(j), 0)
        by {
            assert(i64s(slots@)[j] == crate::engine::zero_slots(18)[j]);
        }
        assert(slots@[16] as int == 0) by {
            assert(i64s(slots@)[16] == crate::engine::zero_slots(18)[16]);
        }
        assert(slots@[17] as int == 0) by {
            assert(i64s(slots@)[17] == crate::engine::zero_slots(18)[17]);
        }
    }
    while bi < nb
        invariant
            bi <= nb,
            c <= ne,
            nb == buckets@.len(),
            ne == xs.len(),
            xs == es@,
            gfg == stats_view(fg@),
            sorted_exps(xs),
            ascending_dates(buckets@),
            slots@.len() == 18,
            forall|j: int| 0 <= j < 16 ==> slots@[j] as int == psum_cat(xs, category_at(j), c as int),
            slots@[16] as int == psum_total(xs, c as int),
            slots@[17] as int == cash_sum(gfg, buckets@, bi as int),
            bi == 0 ==> c == 0,
            bi > 0 ==> forall|i: int|
                0 <= i < c ==> (#[trigger] xs[i]).date.spec_le(buckets@[bi - 1]),
            bi > 0 ==> (c < ne ==> !xs[c as int].date.spec_le(buckets@[bi - 1])),
            forall|m: int|
                0 <= m < c ==> in_i64(psum_cat(xs, (#[trigger] xs[m]).category, m + 1)) && in_i64(
                    psum_total(xs, m + 1),
                ),
            forall|i: int|
                0 <= i < bi ==> in_i64(spec_cash_of(gfg, #[trigger] buckets@[i])) && in_i64(
                    cash_sum(gfg, buckets@, i + 1),
                ),
            rrows_view(out@) == spec_exp_rows(xs, gfg, buckets@.take(bi as int)),
            forall|i: int| 0 <= i < out@.len() ==> (#[trigger] out@[i]).vals@.len() == 18,
        decreases nb - bi,
    {
        let b: Date = buckets[bi];
        proof {
            if bi > 0 {
                assert forall|i: int| 0 <= i < c implies (#[trigger] xs[i]).date.spec_le(b) by {
                    assert(xs[i].date.spec_le(buckets@[bi - 1]));
                    assert(buckets@[bi - 1].spec_lt(b));
                }
            }
            if bi < nb - 1 {
                assert(b.spec_lt(buckets@[nb - 1]));
            }
        }
        let cv: i64 = match cash_of(fg, &b) {
            Ok(v) => v,
            Err(e) => {
                return Err(e);
            },
        };
        match slots[17].checked_add(cv) {
            None => {
                proof {
                    assert(cash_sum(gfg, buckets@, bi as int + 1) == cash_sum(
                        gfg,
                        buckets@,
                        bi as int,
                    ) + spec_cash_of(gfg, buckets@[bi as int]));
                }
                return Err(EngineError::ValueOverflow);
            },
            Some(a) => {
                slots.set(17, a);
            },
        }
        while c < ne && crate::date::date_le(&es[c].date, &b)
            invariant
                c <= ne,
                ne == xs.len(),
                xs == es@,
                sorted_exps(xs),
                slots@.len() == 18,
                forall|j: int|
                    0 <= j < 16 ==> slots@[j] as int == psum_cat(xs, category_at(j), c as int),
                slots@[16] as int == psum_total(xs, c as int),
                slots@[17] as int == cash_sum(gfg, buckets@, bi as int + 1),
                forall|i: int| 0 <= i < c ==> (#[trigger] xs[i]).date.spec_le(b),
                forall|m: int|
                    0 <= m < c ==> in_i64(psum_cat(xs, (#[trigger] xs[m]).category, m + 1))
                        && in_i64(psum_total(xs, m + 1)),
                bi < nb,
                nb == buckets@.len(),
                b == buckets@[bi as int],
                ascending_dates(buckets@),
            decreases ne - c,
        {
            let cat = es[c].category;
            let j = category_index(&cat);
            let v: i64 = es[c].value;
            proof {
                assert(psum_cat(xs, category_at(j as int), c as int + 1) == psum_cat(
                    xs,
                    category_at(j as int),
                    c as int,
                ) + xs[c as int].value);
                assert(psum_total(xs, c as int + 1) == psum_total(xs, c as int)
                    + xs[c as int].value);
                if bi < nb - 1 {
                    assert(b.spec_lt(buckets@[nb - 1]));
                }
            }
            match slots[j].checked_add(v) {
                None => {
                    return Err(EngineError::ValueOverflow);
                },
                Some(a) => {
                    slots.set(j, a);
                },
            }
            match slots[16].checked_add(v) {
                None => {
                    return Err(EngineError::ValueOverflow);
                },
                Some(a) => {
                    slots.set(16, a);
                },
            }
            c = c + 1;
            proof {
                assert forall|jj: int| 0 <= jj < 16 implies slots@[jj] as int == psum_cat(
                    xs,
                    category_at(jj),
                    c as int,
                ) by {
                    assert(psum_cat(xs, category_at(jj), c as int) == psum_cat(
                        xs,
                        category_at(jj),
                        c as int - 1,
                    ) + if xs[c as int - 1].category == category_at(jj) {
                        xs[c as int - 1].value as int
                    } else {
                        0
                    });
                }
            }
        }
        proof {
            assert forall|i: int| c <= i < ne implies !(#[trigger] xs[i]).date.spec_le(b) by {
                assert(xs[c as int].date.spec_le(xs[i].date));
            }
            lemma_exp_upto_take(xs, b, c as int);
            assert(buckets@.take(bi as int + 1).drop_last() =~= buckets@.take(bi as int));
            assert(buckets@.take(bi as int + 1).last() == b);
        }
        if c > 0 {
            let vals = crate::engine::copy_amounts(&slots);
            let row = ReducedRow { date: b, vals };
            let ghost old_rows = rrows_view(out@);
            out.push(row);
            proof {
                assert(spec_exp_upto(xs, b).len() == c > 0);
                lemma_cash_sum_take(gfg, buckets@, bi as int + 1, bi as int + 1);
                assert(exp_row_at(xs, gfg, buckets@.take(bi as int + 1), bi as int).vals
                    =~= exp_row_at(xs, gfg, buckets@, bi as int).vals);
                assert(i64s(row.vals@) =~= exp_row_at(xs, gfg, buckets@, bi as int).vals);
                assert(rrows_view(out@) =~= old_rows.push(
                    ReducedRowV { date: b, vals: i64s(row.vals@) },
                ));
                assert(rrows_view(out@)[out@.len() - 1] =~~= exp_row_at(
                    xs,
                    gfg,
                    buckets@.take(bi as int + 1),
                    bi as int,
                ));
                assert(rrows_view(out@) =~~= spec_exp_rows(xs, gfg, buckets@.take(bi as int + 1)));
            }
        } else {
            proof {
                assert(spec_exp_upto(xs, b).len() == 0);
                assert(rrows_view(out@) =~= spec_exp_rows(xs, gfg, buckets@.take(bi as int + 1)));
            }
        }
        bi = bi + 1;
    }
    proof {
        assert(buckets@.take(nb as int) =~= buckets@);
        if nb > 0 {
            assert forall|m: int|
                0 <= m < xs.len() && (#[trigger] xs[m]).date.spec_le(buckets@.last()) implies in_i64(
                psum_cat(xs, xs[m].category, m + 1),
            ) && in_i64(psum_total(xs, m + 1)) by {
                if m >= c {
                    assert(xs[c as int].date.spec_le(xs[m].date));
                    assert(!xs[c as int].date.spec_le(buckets@[nb - 1]));
                    assert(false);
                }
            }
        }
    }
    Ok(out)
}

/// A copy of a bucket list.
pub fn copy_dates(v: &Vec<Date>) -> (r: Vec<Date>)
    ensures
        r@ == v@,
{
    let mut out: Vec<Date> = Vec::new();
    let mut i: usize = 0;
    while i < v.len()
        invariant
            i <= v@.len(),
            out@.len() == i,
            forall|j: int| 0 <= j < i ==> out@[j] == v@[j],
        decreases v@.len() - i,
    {
        out.push(v[i]);
        i = i + 1;
    }
    proof {
        assert(out@ =~= v@);
    }
    out
}

/// Expense report: per bucket, the accumulated expense value of each
/// category, the overall total, and the accumulated absolute cash movement
/// of the flow-grouping report over the same buckets.
pub fn calculate_expenses(
    transactions: Vec<Transaction>,
    accounts: Vec<Account>,
    expenses: Vec<Expense>,
    dates: Vec<Date>,
) -> (r: Result<Vec<Statistic>, EngineError>)
    requires
        sorted_txs(transactions@),
        sorted_exps(expenses@),
        distinct_ids(accounts@),
        ascending_dates(dates@),
    ensures
        res_view(r) == spec_expenses_report(transactions@, accounts@, expenses@, dates@),
{
    let dates2 = copy_dates(&dates);
    let fgstats = match calculate_flow_grouping(transactions, accounts, dates2) {
        Ok(v) => v,
        Err(e) => {
            return Err(e);
        },
    };
    let rrows = match exp_rollup(&expenses, &fgstats, &dates) {
        Ok(v) => v,
        Err(e) => {
            return Err(e);
        },
    };
    let names = expense_names_vec();
    match make_statistics(&rrows, &names) {
        Ok(v) => Ok(v),
        Err(e) => Err(e),
    }
}

} // verus!
