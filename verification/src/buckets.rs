//! Period-anchored date-bucket generation: the ascending sequence of period
//! anchor dates (week/month/year starts) that a report emits snapshots at.
//!
//! The origin bucket is the start of the period containing the reference
//! date, advanced by one further period, so the most recent bucket always
//! represents the period after the latest data point. The floor is either
//! the period anchor of the earliest known record, or a fixed trailing
//! window before the origin.

use vstd::prelude::*;
use vstd::arithmetic::div_mod::{lemma_fundamental_div_mod, lemma_fundamental_div_mod_converse};
use crate::date::{
    Date, MAX_YEAR, add_days, add_months, date_le, days_before_month, days_before_year,
    lemma_day_index_bounds, lemma_day_index_order, lemma_day_index_within_year,
    lemma_days_before_year_monotone, lemma_days_before_year_step, lemma_days_in_year,
    lemma_spec_add_days_index, lemma_spec_sub_days_index, month_index, spec_add_days,
    spec_add_months, spec_days_in_month, spec_sub_days, start_of_month, start_of_week,
    start_of_year, sub_days, sub_months,
};

verus! {

/// The reporting period of a statistics request.
#[derive(Clone, Copy, Debug, PartialEq, Eq, Structural, Hash)]
pub enum Period {
    Weekly,
    Monthly,
    Yearly,
}

/// One period step forward from a date.
pub open spec fn spec_step(p: Period, d: Date) -> Date {
    match p {
        Period::Weekly => spec_add_days(d, 7),
        Period::Monthly => spec_add_months(d, 1),
        Period::Yearly => spec_add_months(d, 12),
    }
}

/// The start of the period containing `d`.
pub open spec fn spec_anchor(p: Period, d: Date) -> Date {
    match p {
        Period::Weekly => spec_sub_days(d, (d.day_index() % 7) as nat),
        Period::Monthly => Date { year: d.year, month: d.month, day: 1 },
        Period::Yearly => Date { year: d.year, month: 1, day: 1 },
    }
}

/// The origin bucket: the period start of `d` advanced by one period.
pub open spec fn spec_origin(p: Period, d: Date) -> Date {
    spec_step(p, spec_anchor(p, d))
}

/// Two dates are aligned when repeated period steps from the first can land
/// exactly on the second.
pub open spec fn spec_aligned(p: Period, a: Date, b: Date) -> bool {
    match p {
        Period::Weekly => a.day_index() % 7 == b.day_index() % 7,
        Period::Monthly => a.day == 1 && b.day == 1,
        Period::Yearly => a.day == 1 && a.month == 1 && b.day == 1 && b.month == 1,
    }
}

pub open spec fn dates_guard(p: Period, cur: Date, origin: Date) -> bool {
    &&& cur.valid()
    &&& origin.valid()
    &&& origin.year <= MAX_YEAR - 1
    &&& cur.spec_le(origin)
}

pub open spec fn dates_measure(cur: Date, origin: Date) -> int {
    if cur.day_index() <= origin.day_index() {
        origin.day_index() - cur.day_index() + 1
    } else {
        0
    }
}

/// Stepping a valid date one period forward stays valid, moves strictly
/// forward, grows the year by at most one, and keeps period alignment.
pub proof fn lemma_step_valid(p: Period, d: Date)
    requires
        d.valid(),
        d.year <= MAX_YEAR - 1,
    ensures
        spec_step(p, d).valid(),
        d.spec_lt(spec_step(p, d)),
        spec_step(p, d).year <= d.year + 1,
        p == Period::Weekly ==> spec_step(p, d).day_index() == d.day_index() + 7,
        p == Period::Monthly ==> month_index(spec_step(p, d)) == month_index(d) + 1,
        p == Period::Yearly ==> month_index(spec_step(p, d)) == month_index(d) + 12,
        (p == Period::Monthly && d.day == 1) ==> spec_step(p, d).day == 1,
        (p == Period::Yearly && d.day == 1) ==> spec_step(p, d).day == 1,
        (p == Period::Yearly && d.month == 1) ==> spec_step(p, d).month == 1,
{
    match p {
        Period::Weekly => {
            lemma_week_step_room(d);
            lemma_spec_add_days_index(d, 7);
            let r = spec_add_days(d, 7);
            lemma_day_index_order(d, r);
            if r.year > d.year + 1 {
                lemma_days_before_year_monotone(d.year + 2, r.year as int);
                lemma_day_index_within_year(d);
                lemma_day_index_within_year(r);
                lemma_days_in_year(d.year as int);
                lemma_days_before_year_step(d.year as int);
                lemma_days_in_year(d.year + 1);
                lemma_days_before_year_step(d.year + 1);
            }
        },
        Period::Monthly => {
            lemma_month_step(d, 1);
        },
        Period::Yearly => {
            lemma_month_step(d, 12);
        },
    }
}

/// A valid date in a year below the maximum has room for a seven-day step.
proof fn lemma_week_step_room(d: Date)
    requires
        d.valid(),
        d.year <= MAX_YEAR - 1,
    ensures
        d.day_index() + 7 <= (Date { year: MAX_YEAR, month: 12, day: 31 }).day_index(),
{
    let e = Date { year: (d.year + 1) as u32, month: 1, day: 8 };
    let last = Date { year: MAX_YEAR, month: 12, day: 31 };
    lemma_day_index_within_year(d);
    lemma_days_in_year(d.year as int);
    lemma_days_before_year_step(d.year as int);
    assert(days_before_month(e.year as int, 1) == 0);
    lemma_day_index_order(e, last);
}

/// Adding months to a valid date stays valid and moves strictly forward.
proof fn lemma_month_step(d: Date, k: int)
    requires
        d.valid(),
        1 <= k <= 12,
        month_index(d) + k <= 12 * MAX_YEAR + 11,
    ensures
        spec_add_months(d, k).valid(),
        d.spec_lt(spec_add_months(d, k)),
        month_index(spec_add_months(d, k)) == month_index(d) + k,
        spec_add_months(d, k).year <= d.year + 1,
        d.day == 1 ==> spec_add_months(d, k).day == 1,
        (k == 12 && d.month == 1) ==> spec_add_months(d, k).month == 1,
{
    let mi = month_index(d) + k;
    lemma_fundamental_div_mod(mi, 12);
    let r = spec_add_months(d, k);
    assert(12 * r.year + r.month - 1 == mi);
    assert(spec_days_in_month(r.year as int, r.month as int) >= 28);
    assert(12 * d.year + d.month < 12 * r.year + r.month);
}

/// The ascending bucket sequence from `cur` to `origin`, one period apart.
pub open spec fn spec_dates_from(p: Period, cur: Date, origin: Date) -> Seq<Date>
    decreases dates_measure(cur, origin),
        via spec_dates_from_decreases
{
    if dates_guard(p, cur, origin) {
        seq![cur] + spec_dates_from(p, spec_step(p, cur), origin)
    } else {
        Seq::empty()
    }
}

#[via_fn]
proof fn spec_dates_from_decreases(p: Period, cur: Date, origin: Date) {
    if dates_guard(p, cur, origin) {
        lemma_step_valid(p, cur);
        lemma_day_index_order(cur, spec_step(p, cur));
        lemma_day_index_order(cur, origin);
        lemma_day_index_order(spec_step(p, cur), origin);
    }
}

/// Every generated bucket is valid and lies between the floor and the origin.
pub proof fn lemma_dates_from_elems(p: Period, cur: Date, origin: Date)
    ensures
        forall|i: int|
            0 <= i < spec_dates_from(p, cur, origin).len() ==> {
                &&& (#[trigger] spec_dates_from(p, cur, origin)[i]).valid()
                &&& cur.spec_le(spec_dates_from(p, cur, origin)[i])
                &&& spec_dates_from(p, cur, origin)[i].spec_le(origin)
            },
    decreases dates_measure(cur, origin),
{
    if dates_guard(p, cur, origin) {
        lemma_step_valid(p, cur);
        proof_measure_shrinks(p, cur, origin);
        lemma_dates_from_elems(p, spec_step(p, cur), origin);
        let s = spec_dates_from(p, cur, origin);
        let tail = spec_dates_from(p, spec_step(p, cur), origin);
        assert(s == seq![cur] + tail);
        assert forall|i: int| 0 <= i < s.len() implies {
            &&& (#[trigger] s[i]).valid()
            &&& cur.spec_le(s[i])
            &&& s[i].spec_le(origin)
        } by {
            if i > 0 {
                assert(s[i] == tail[i - 1]);
            }
        }
    }
}

proof fn proof_measure_shrinks(p: Period, cur: Date, origin: Date)
    requires
        dates_guard(p, cur, origin),
    ensures
        dates_measure(spec_step(p, cur), origin) < dates_measure(cur, origin),
{
    lemma_step_valid(p, cur);
    lemma_day_index_order(cur, spec_step(p, cur));
    lemma_day_index_order(cur, origin);
    lemma_day_index_order(spec_step(p, cur), origin);
}

/// The generated buckets are strictly ascending (hence duplicate-free).
pub proof fn lemma_dates_from_ascending(p: Period, cur: Date, origin: Date)
    ensures
        forall|i: int, j: int|
            0 <= i < j < spec_dates_from(p, cur, origin).len()
                ==> (#[trigger] spec_dates_from(p, cur, origin)[i]).spec_lt(
                #[trigger] spec_dates_from(p, cur, origin)[j],
            ),
    decreases dates_measure(cur, origin),
{
    if dates_guard(p, cur, origin) {
        lemma_step_valid(p, cur);
        proof_measure_shrinks(p, cur, origin);
        lemma_dates_from_ascending(p, spec_step(p, cur), origin);
        lemma_dates_from_elems(p, spec_step(p, cur), origin);
        let s = spec_dates_from(p, cur, origin);
        let nxt = spec_step(p, cur);
        let tail = spec_dates_from(p, nxt, origin);
        assert(s == seq![cur] + tail);
        assert forall|i: int, j: int| 0 <= i < j < s.len() implies (#[trigger] s[i]).spec_lt(
            #[trigger] s[j],
        ) by {
            assert(s[j] == tail[j - 1]);
            if i == 0 {
                assert(nxt.spec_le(tail[j - 1]));
            } else {
                assert(s[i] == tail[i - 1]);
            }
        }
    }
}

proof fn lemma_mod7_diff(a: int, b: int)
    requires
        0 <= b <= a,
        a % 7 == b % 7,
    ensures
        a > b ==> a - b >= 7,
{
    lemma_fundamental_div_mod(a, 7);
    lemma_fundamental_div_mod(b, 7);
    let qa = a / 7;
    let qb = b / 7;
    assert(a - b == 7 * (qa - qb));
}

proof fn lemma_mod7_add7(x: int)
    requires
        0 <= x,
    ensures
        (x + 7) % 7 == x % 7,
{
    lemma_fundamental_div_mod(x, 7);
    lemma_fundamental_div_mod_converse(x + 7, 7, x / 7 + 1, x % 7);
}

/// When the floor is aligned with and not past the origin, the sequence is
/// non-empty, starts at the floor, and ends exactly at the origin.
pub proof fn lemma_dates_from_last(p: Period, cur: Date, origin: Date)
    requires
        dates_guard(p, cur, origin),
        spec_aligned(p, cur, origin),
    ensures
        spec_dates_from(p, cur, origin).len() > 0,
        spec_dates_from(p, cur, origin)[0] == cur,
        spec_dates_from(p, cur, origin).last() == origin,
    decreases dates_measure(cur, origin),
{
    lemma_step_valid(p, cur);
    let nxt = spec_step(p, cur);
    if cur == origin {
        assert(!dates_guard(p, nxt, origin)) by {
            lemma_day_index_order(nxt, origin);
        }
        assert(spec_dates_from(p, nxt, origin) =~= Seq::empty());
    } else {
        assert(cur.spec_lt(origin));
        lemma_day_index_order(cur, origin);
        match p {
            Period::Weekly => {
                lemma_day_index_bounds(cur);
                lemma_mod7_diff(origin.day_index(), cur.day_index());
                lemma_mod7_add7(cur.day_index());
                lemma_day_index_order(nxt, origin);
            },
            Period::Monthly => {
                assert(month_index(cur) < month_index(origin));
                assert(nxt.spec_le(origin));
            },
            Period::Yearly => {
                assert(month_index(cur) == 12 * cur.year);
                assert(month_index(origin) == 12 * origin.year);
                assert(cur.year < origin.year);
                assert(month_index(nxt) <= month_index(origin));
                assert(nxt.spec_le(origin));
            },
        }
        proof_measure_shrinks(p, cur, origin);
        lemma_dates_from_last(p, nxt, origin);
        assert(spec_dates_from(p, cur, origin).last() == spec_dates_from(p, nxt, origin).last());
    }
}

/// The period anchor of a valid date: valid, on or before the date, aligned.
pub proof fn lemma_anchor(p: Period, d: Date)
    requires
        d.valid(),
    ensures
        spec_anchor(p, d).valid(),
        spec_anchor(p, d).spec_le(d),
        spec_anchor(p, d).year <= d.year,
        p == Period::Weekly ==> spec_anchor(p, d).day_index() % 7 == 0
            && spec_anchor(p, d).day_index() == d.day_index() - d.day_index() % 7,
        p == Period::Monthly ==> spec_anchor(p, d).day == 1,
        p == Period::Yearly ==> spec_anchor(p, d).day == 1 && spec_anchor(p, d).month == 1,
{
    match p {
        Period::Weekly => {
            lemma_day_index_bounds(d);
            lemma_fundamental_div_mod(d.day_index(), 7);
            let w = d.day_index() % 7;
            lemma_spec_sub_days_index(d, w as nat);
            let a = spec_sub_days(d, w as nat);
            assert(a.day_index() == 7 * (d.day_index() / 7));
            lemma_fundamental_div_mod_converse(7 * (d.day_index() / 7), 7, d.day_index() / 7, 0);
            lemma_day_index_order(a, d);
        },
        Period::Monthly => {},
        Period::Yearly => {},
    }
}

/// The start of the period containing `d`.
pub fn anchor(p: Period, d: &Date) -> (r: Date)
    requires
        d.valid(),
    ensures
        r == spec_anchor(p, *d),
        r.valid(),
        r.spec_le(*d),
{
    proof {
        lemma_anchor(p, *d);
    }
    match p {
        Period::Weekly => start_of_week(d),
        Period::Monthly => start_of_month(d),
        Period::Yearly => start_of_year(d),
    }
}

/// One period step forward from `d`.
pub fn step_period(p: Period, d: &Date) -> (r: Date)
    requires
        d.valid(),
        d.year <= MAX_YEAR - 1,
    ensures
        r == spec_step(p, *d),
        r.valid(),
        d.spec_lt(r),
        r.year <= d.year + 1,
{
    proof {
        lemma_step_valid(p, *d);
    }
    match p {
        Period::Weekly => {
            proof {
                lemma_week_step_room(*d);
            }
            add_days(d, 7)
        },
        Period::Monthly => add_months(d, 1),
        Period::Yearly => add_months(d, 12),
    }
}

/// The bucket sequence for reports bounded by the earliest known record:
/// period anchors from the anchor of `earliest` up to the origin of `start`.
pub open spec fn spec_dates(p: Period, start: Date, earliest: Date) -> Seq<Date> {
    spec_dates_from(p, spec_anchor(p, earliest), spec_origin(p, start))
}

/// The floor of the fixed trailing window: eleven periods before the origin.
pub open spec fn spec_window_floor(p: Period, origin: Date) -> Date {
    match p {
        Period::Weekly => spec_sub_days(origin, 77),
        Period::Monthly => spec_add_months(origin, -11),
        Period::Yearly => spec_add_months(origin, -108),
    }
}

/// The bucket sequence of the fixed trailing window of eleven periods.
pub open spec fn spec_dates_window(p: Period, start: Date) -> Seq<Date> {
    spec_dates_from(p, spec_window_floor(p, spec_origin(p, start)), spec_origin(p, start))
}

/// Generate the report buckets between the period anchor of `earliest` and
/// the origin of `start` (the period after `start`'s period), ascending.
pub fn dates(period: Period, start: &Date, earliest: &Date) -> (r: Vec<Date>)
    requires
        start.valid(),
        earliest.valid(),
        start.year <= MAX_YEAR - 2,
    ensures
        r@ == spec_dates(period, *start, *earliest),
{
    let sa = anchor(period, start);
    let origin = step_period(period, &sa);
    let floor = anchor(period, earliest);
    dates_from(period, floor, origin)
}

/// Generate the report buckets of a fixed trailing window of eleven periods
/// ending at the origin of `start`, ascending.
pub fn dates_window(period: Period, start: &Date) -> (r: Vec<Date>)
    requires
        start.valid(),
        10 <= start.year <= MAX_YEAR - 2,
    ensures
        r@ == spec_dates_window(period, *start),
{
    let sa = anchor(period, start);
    let origin = step_period(period, &sa);
    let floor: Date = match period {
        Period::Weekly => {
            proof {
                lemma_anchor(period, *start);
                lemma_step_valid(period, sa);
                lemma_day_index_bounds(*start);
                vstd::arithmetic::div_mod::lemma_mod_bound(start.day_index(), 7);
                lemma_days_before_year_monotone(1, start.year as int);
                lemma_day_index_within_year(*start);
                assert(days_before_year(1) == 0);
            }
            sub_days(&origin, 77)
        },
        Period::Monthly => sub_months(&origin, 11),
        Period::Yearly => sub_months(&origin, 108),
    };
    dates_from(period, floor, origin)
}

/// Walk from `floor` to `origin` inclusive, one period at a time.
fn dates_from(period: Period, floor: Date, origin: Date) -> (r: Vec<Date>)
    requires
        floor.valid(),
        origin.valid(),
        origin.year <= MAX_YEAR - 1,
    ensures
        r@ == spec_dates_from(period, floor, origin),
{
    let mut out: Vec<Date> = Vec::new();
    let mut cur: Date = floor;
    while date_le(&cur, &origin)
        invariant
            cur.valid(),
            origin.valid(),
            origin.year <= MAX_YEAR - 1,
            spec_dates_from(period, floor, origin) == out@ + spec_dates_from(
                period,
                cur,
                origin,
            ),
        decreases dates_measure(cur, origin),
    {
        proof {
            proof_measure_shrinks(period, cur, origin);
            assert(spec_dates_from(period, cur, origin) == seq![cur] + spec_dates_from(
                period,
                spec_step(period, cur),
                origin,
            ));
        }
        let ghost old_out = out@;
        out.push(cur);
        proof {
            assert(out@ == old_out + seq![cur]);
            assert(old_out + (seq![cur] + spec_dates_from(period, spec_step(period, cur), origin))
                =~= out@ + spec_dates_from(period, spec_step(period, cur), origin));
        }
        cur = step_period(period, &cur);
    }
    proof {
        assert(spec_dates_from(period, cur, origin) =~= Seq::empty());
        assert(out@ + Seq::<Date>::empty() =~= out@);
    }
    out
}

/// Law: for every period, the generated buckets are strictly ascending (so
/// duplicate-free), and when the floor does not lie past the origin the
/// sequence is non-empty, begins at the floor, and ends exactly one period
/// past the period start of the reference date.
pub proof fn lemma_buckets_law(p: Period, start: Date, earliest: Date)
    requires
        start.valid(),
        earliest.valid(),
        start.year <= MAX_YEAR - 2,
    ensures
        forall|i: int, j: int|
            0 <= i < j < spec_dates(p, start, earliest).len()
                ==> (#[trigger] spec_dates(p, start, earliest)[i]).spec_lt(
                #[trigger] spec_dates(p, start, earliest)[j],
            ),
        spec_anchor(p, earliest).spec_le(spec_origin(p, start)) ==> {
            &&& spec_dates(p, start, earliest).len() > 0
            &&& spec_dates(p, start, earliest)[0] == spec_anchor(p, earliest)
            &&& spec_dates(p, start, earliest).last() == spec_origin(p, start)
        },
{
    let floor = spec_anchor(p, earliest);
    lemma_anchor(p, earliest);
    lemma_anchor(p, start);
    lemma_step_valid(p, spec_anchor(p, start));
    let origin = spec_origin(p, start);
    lemma_dates_from_ascending(p, floor, origin);
    if floor.spec_le(origin) {
        assert(spec_aligned(p, floor, origin)) by {
            if p == Period::Weekly {
                lemma_day_index_bounds(spec_anchor(p, start));
                lemma_mod7_add7(spec_anchor(p, start).day_index());
            }
        }
        lemma_dates_from_last(p, floor, origin);
    }
}

} // verus!
