//! A Gregorian calendar date held as plain year/month/day values, with a
//! verified day-index model: every date maps to its offset in days from
//! 0001-01-01 (a Monday in the proleptic Gregorian calendar), and all
//! date arithmetic is proved against that model.

use vstd::prelude::*;
use vstd::arithmetic::div_mod::{lemma_fundamental_div_mod, lemma_fundamental_div_mod_converse};

verus! {

/// Smallest year a `Date` may hold.
pub const MIN_YEAR: u32 = 1;
/// Largest year a `Date` may hold.
pub const MAX_YEAR: u32 = 9999;

/// A calendar date. Ordering of dates is year/month/day lexicographic,
/// which coincides with the day-index order (`lemma_day_index_order`).
#[derive(Clone, Copy, Debug, PartialEq, Eq, Structural, Hash)]
pub struct Date {
    pub year: u32,
    pub month: u8,
    pub day: u8,
}

pub open spec fn is_leap_year(y: int) -> bool {
    (y % 4 == 0 && y % 100 != 0) || y % 400 == 0
}

pub open spec fn spec_days_in_month(y: int, m: int) -> int {
    if m == 2 {
        if is_leap_year(y) {
            29
        } else {
            28
        }
    } else if m == 4 || m == 6 || m == 9 || m == 11 {
        30
    } else {
        31
    }
}

/// Days in the months of year `y` strictly before month `m`.
pub open spec fn days_before_month(y: int, m: int) -> int
    decreases m,
{
    if m <= 1 {
        0
    } else {
        days_before_month(y, m - 1) + spec_days_in_month(y, m - 1)
    }
}

/// Days in the years strictly before year `y` (counting from year 1).
pub open spec fn days_before_year(y: int) -> int {
    365 * (y - 1) + (y - 1) / 4 - (y - 1) / 100 + (y - 1) / 400
}

impl Date {
    pub open spec fn valid(self) -> bool {
        &&& MIN_YEAR <= self.year <= MAX_YEAR
        &&& 1 <= self.month <= 12
        &&& 1 <= self.day <= spec_days_in_month(self.year as int, self.month as int)
    }

    /// The date's offset in days from 0001-01-01.
    pub open spec fn day_index(self) -> int {
        days_before_year(self.year as int) + days_before_month(
            self.year as int,
            self.month as int,
        ) + self.day - 1
    }

    /// Year/month/day lexicographic order; the calendar's chronological order.
    pub open spec fn spec_lt(self, other: Date) -> bool {
        ||| self.year < other.year
        ||| (self.year == other.year && self.month < other.month)
        ||| (self.year == other.year && self.month == other.month && self.day < other.day)
    }

    pub open spec fn spec_le(self, other: Date) -> bool {
        self.spec_lt(other) || self == other
    }
}

pub fn days_in_month(y: u32, m: u8) -> (r: u8)
    requires
        1 <= m <= 12,
    ensures
        r == spec_days_in_month(y as int, m as int),
{
    if m == 2 {
        let leap: bool = (y % 4 == 0 && y % 100 != 0) || y % 400 == 0;
        if leap {
            29
        } else {
            28
        }
    } else if m == 4 || m == 6 || m == 9 || m == 11 {
        30
    } else {
        31
    }
}

/// `true` when `a` is on or before `b` in the calendar.
pub fn date_le(a: &Date, b: &Date) -> (r: bool)
    ensures
        r == a.spec_le(*b),
{
    if a.year != b.year {
        a.year < b.year
    } else if a.month != b.month {
        a.month < b.month
    } else {
        a.day <= b.day
    }
}

/// `true` when `a` is strictly before `b` in the calendar.
pub fn date_lt(a: &Date, b: &Date) -> (r: bool)
    ensures
        r == a.spec_lt(*b),
{
    if a.year != b.year {
        a.year < b.year
    } else if a.month != b.month {
        a.month < b.month
    } else {
        a.day < b.day
    }
}

/// Division by a positive constant steps by one exactly at multiples.
pub proof fn lemma_div_step(x: int, k: int)
    requires
        1 <= k,
        1 <= x,
    ensures
        x % k == 0 ==> x / k == (x - 1) / k + 1,
        x % k != 0 ==> x / k == (x - 1) / k,
{
    let q = x / k;
    let r = x % k;
    lemma_fundamental_div_mod(x, k);
    if r == 0 {
        assert(x - 1 == (q - 1) * k + (k - 1)) by (nonlinear_arith)
            requires
                x == k * q + r,
                r == 0,
        ;
        lemma_fundamental_div_mod_converse(x - 1, k, q - 1, k - 1);
    } else {
        assert(x - 1 == q * k + (r - 1)) by (nonlinear_arith)
            requires
                x == k * q + r,
        ;
        lemma_fundamental_div_mod_converse(x - 1, k, q, r - 1);
    }
}

/// A year divisible by 400 is divisible by 100, and by 100 implies by 4.
pub proof fn lemma_divisibility_chain(y: int)
    requires
        1 <= y,
    ensures
        y % 400 == 0 ==> y % 100 == 0,
        y % 100 == 0 ==> y % 4 == 0,
{
    if y % 400 == 0 {
        lemma_fundamental_div_mod(y, 400);
        lemma_fundamental_div_mod_converse(y, 100, 4 * (y / 400), 0);
    }
    if y % 100 == 0 {
        lemma_fundamental_div_mod(y, 100);
        lemma_fundamental_div_mod_converse(y, 4, 25 * (y / 100), 0);
    }
}

/// Stepping one year forward adds the length of the crossed year.
pub proof fn lemma_days_before_year_step(y: int)
    requires
        1 <= y,
    ensures
        days_before_year(y + 1) == days_before_year(y) + if is_leap_year(y) {
            366int
        } else {
            365int
        },
{
    lemma_div_step(y, 4);
    lemma_div_step(y, 100);
    lemma_div_step(y, 400);
    lemma_divisibility_chain(y);
}

/// The days-before-month count through month 13 is the length of the year.
pub proof fn lemma_days_in_year(y: int)
    ensures
        days_before_month(y, 13) == if is_leap_year(y) {
            366int
        } else {
            365int
        },
{
    reveal_with_fuel(days_before_month, 14);
}

/// `days_before_month` is monotone in the month.
pub proof fn lemma_days_before_month_monotone(y: int, m1: int, m2: int)
    requires
        m1 <= m2,
    ensures
        days_before_month(y, m1) <= days_before_month(y, m2),
    decreases m2 - m1,
{
    if m1 < m2 {
        lemma_days_before_month_monotone(y, m1, m2 - 1);
    }
}

/// `days_before_year` is monotone, growing at least 365 per year.
pub proof fn lemma_days_before_year_monotone(y1: int, y2: int)
    requires
        1 <= y1 <= y2,
    ensures
        days_before_year(y1) + 365 * (y2 - y1) <= days_before_year(y2),
    decreases y2 - y1,
{
    if y1 < y2 {
        lemma_days_before_year_step(y2 - 1);
        lemma_days_before_year_monotone(y1, y2 - 1);
    }
}

/// Within its year, a valid date's month/day offset is below the year length.
pub proof fn lemma_day_index_within_year(d: Date)
    requires
        d.valid(),
    ensures
        0 <= days_before_month(d.year as int, d.month as int) + d.day - 1,
        days_before_month(d.year as int, d.month as int) + d.day - 1 < days_before_month(
            d.year as int,
            13,
        ),
{
    lemma_days_before_month_monotone(d.year as int, 1, d.month as int);
    lemma_days_before_month_monotone(d.year as int, d.month as int + 1, 13);
    assert(days_before_month(d.year as int, d.month as int + 1) == days_before_month(
        d.year as int,
        d.month as int,
    ) + spec_days_in_month(d.year as int, d.month as int));
}

/// The day index respects the calendar order exactly.
pub proof fn lemma_day_index_order(a: Date, b: Date)
    requires
        a.valid(),
        b.valid(),
    ensures
        a.spec_lt(b) <==> a.day_index() < b.day_index(),
        a == b <==> a.day_index() == b.day_index(),
{
    lemma_day_index_strict(a, b);
    lemma_day_index_strict(b, a);
}

proof fn lemma_day_index_strict(a: Date, b: Date)
    requires
        a.valid(),
        b.valid(),
    ensures
        a.spec_lt(b) ==> a.day_index() < b.day_index(),
{
    if a.spec_lt(b) {
        if a.year < b.year {
            lemma_day_index_within_year(a);
            lemma_day_index_within_year(b);
            lemma_days_in_year(a.year as int);
            lemma_days_before_year_step(a.year as int);
            lemma_days_before_year_monotone(a.year as int + 1, b.year as int);
        } else if a.month < b.month {
            lemma_days_before_month_monotone(a.year as int, a.month as int + 1, b.month as int);
            assert(days_before_month(a.year as int, a.month as int + 1) == days_before_month(
                a.year as int,
                a.month as int,
            ) + spec_days_in_month(a.year as int, a.month as int));
        }
    }
}

/// Bounds of the day index over the supported year range.
pub proof fn lemma_day_index_bounds(d: Date)
    requires
        d.valid(),
    ensures
        0 <= d.day_index(),
        d.day_index() < 3660000,
{
    lemma_day_index_within_year(d);
    lemma_days_in_year(d.year as int);
    lemma_days_before_year_monotone(1, d.year as int);
    lemma_days_before_year_monotone(d.year as int, 10000);
    assert(days_before_year(10000) == 365 * 9999 + 9999int / 4 - 9999int / 100 + 9999int / 400);
}

/// The day after `d`.
pub fn next_day(d: &Date) -> (r: Date)
    requires
        d.valid(),
        !(d.year == MAX_YEAR && d.month == 12 && d.day == 31),
    ensures
        r == spec_next_day(*d),
        r.valid(),
        r.day_index() == d.day_index() + 1,
        d.spec_lt(r),
{
    let dim: u8 = days_in_month(d.year, d.month);
    let r: Date = if d.day < dim {
        Date { year: d.year, month: d.month, day: d.day + 1 }
    } else if d.month < 12 {
        Date { year: d.year, month: d.month + 1, day: 1 }
    } else {
        Date { year: d.year + 1, month: 1, day: 1 }
    };
    proof {
        if d.day == dim && d.month == 12 {
            lemma_days_in_year(d.year as int);
            lemma_days_before_year_step(d.year as int);
            assert(days_before_month(r.year as int, 1) == 0);
        }
        lemma_day_index_order(*d, r);
    }
    r
}

/// The day before `d`.
pub fn prev_day(d: &Date) -> (r: Date)
    requires
        d.valid(),
        !(d.year == MIN_YEAR && d.month == 1 && d.day == 1),
    ensures
        r == spec_prev_day(*d),
        r.valid(),
        r.day_index() == d.day_index() - 1,
        r.spec_lt(*d),
{
    let r: Date = if d.day > 1 {
        Date { year: d.year, month: d.month, day: d.day - 1 }
    } else if d.month > 1 {
        let pm: u8 = d.month - 1;
        Date { year: d.year, month: pm, day: days_in_month(d.year, pm) }
    } else {
        Date { year: d.year - 1, month: 12, day: days_in_month(d.year - 1, 12) }
    };
    proof {
        if d.day == 1 && d.month == 1 {
            lemma_days_in_year(r.year as int);
            lemma_days_before_year_step(r.year as int);
            assert(days_before_month(d.year as int, 1) == 0);
        }
        lemma_day_index_order(r, *d);
    }
    r
}

/// `d` moved forward by `n` days.
pub fn add_days(d: &Date, n: u32) -> (r: Date)
    requires
        d.valid(),
        d.day_index() + n <= (Date { year: MAX_YEAR, month: 12, day: 31 }).day_index(),
    ensures
        r == spec_add_days(*d, n as nat),
        r.valid(),
        r.day_index() == d.day_index() + n,
{
    let mut cur: Date = *d;
    let mut i: u32 = 0;
    while i < n
        invariant
            cur.valid(),
            i <= n,
            cur == spec_add_days(*d, i as nat),
            cur.day_index() == d.day_index() + i,
            d.day_index() + n <= (Date { year: MAX_YEAR, month: 12, day: 31 }).day_index(),
        decreases n - i,
    {
        proof {
            let last = Date { year: MAX_YEAR, month: 12, day: 31 };
            lemma_day_index_order(cur, last);
            assert(spec_add_days(*d, (i + 1) as nat) == spec_next_day(spec_add_days(*d, i as nat)));
        }
        cur = next_day(&cur);
        i = i + 1;
    }
    cur
}

/// `d` moved backward by `n` days.
pub fn sub_days(d: &Date, n: u32) -> (r: Date)
    requires
        d.valid(),
        n <= d.day_index(),
    ensures
        r == spec_sub_days(*d, n as nat),
        r.valid(),
        r.day_index() == d.day_index() - n,
{
    let mut cur: Date = *d;
    let mut i: u32 = 0;
    while i < n
        invariant
            cur.valid(),
            i <= n,
            cur == spec_sub_days(*d, i as nat),
            cur.day_index() == d.day_index() - i,
            n <= d.day_index(),
        decreases n - i,
    {
        proof {
            let first = Date { year: MIN_YEAR, month: 1, day: 1 };
            lemma_day_index_order(first, cur);
            assert(first.day_index() == 0);
            assert(spec_sub_days(*d, (i + 1) as nat) == spec_prev_day(spec_sub_days(*d, i as nat)));
        }
        cur = prev_day(&cur);
        i = i + 1;
    }
    cur
}

/// Days from Monday (0) to Sunday (6) for the date's weekday; day index 0
/// (0001-01-01) is a Monday in the proleptic Gregorian calendar.
pub open spec fn spec_weekday_from_monday(d: Date) -> int {
    d.day_index() % 7
}

/// The date's day index as a machine integer.
pub fn day_index(d: &Date) -> (r: u32)
    requires
        d.valid(),
    ensures
        r == d.day_index(),
{
    proof {
        lemma_day_index_bounds(*d);
    }
    let y: u32 = d.year - 1;
    let before_year: u32 = 365 * y + y / 4 - y / 100 + y / 400;
    let mut before_month: u32 = 0;
    let mut m: u8 = 1;
    while m < d.month
        invariant
            1 <= m <= d.month,
            d.valid(),
            before_month == days_before_month(d.year as int, m as int),
            before_month <= 366,
        decreases d.month - m,
    {
        proof {
            lemma_days_before_month_monotone(d.year as int, m as int + 1, 13);
            lemma_days_in_year(d.year as int);
        }
        before_month = before_month + days_in_month(d.year, m) as u32;
        m = m + 1;
    }
    before_year + before_month + (d.day - 1) as u32
}

/// Days from Monday (0 for Monday through 6 for Sunday).
pub fn weekday_from_monday(d: &Date) -> (r: u8)
    requires
        d.valid(),
    ensures
        r == spec_weekday_from_monday(*d),
        r <= 6,
{
    let idx: u32 = day_index(d);
    (idx % 7) as u8
}

/// The day after `d`, as a specification-level value.
pub open spec fn spec_next_day(d: Date) -> Date {
    if d.day < spec_days_in_month(d.year as int, d.month as int) {
        Date { year: d.year, month: d.month, day: (d.day + 1) as u8 }
    } else if d.month < 12 {
        Date { year: d.year, month: (d.month + 1) as u8, day: 1 }
    } else {
        Date { year: (d.year + 1) as u32, month: 1, day: 1 }
    }
}

/// `d` moved forward by `n` days, as a specification-level value.
pub open spec fn spec_add_days(d: Date, n: nat) -> Date
    decreases n,
{
    if n == 0 {
        d
    } else {
        spec_next_day(spec_add_days(d, (n - 1) as nat))
    }
}

/// The day before `d`, as a specification-level value.
pub open spec fn spec_prev_day(d: Date) -> Date {
    if d.day > 1 {
        Date { year: d.year, month: d.month, day: (d.day - 1) as u8 }
    } else if d.month > 1 {
        Date {
            year: d.year,
            month: (d.month - 1) as u8,
            day: spec_days_in_month(d.year as int, d.month - 1) as u8,
        }
    } else {
        Date {
            year: (d.year - 1) as u32,
            month: 12,
            day: spec_days_in_month(d.year - 1, 12) as u8,
        }
    }
}

/// `d` moved backward by `n` days, as a specification-level value.
pub open spec fn spec_sub_days(d: Date, n: nat) -> Date
    decreases n,
{
    if n == 0 {
        d
    } else {
        spec_prev_day(spec_sub_days(d, (n - 1) as nat))
    }
}

/// `spec_add_days` agrees with the day-index model.
pub proof fn lemma_spec_add_days_index(d: Date, n: nat)
    requires
        d.valid(),
        d.day_index() + n <= (Date { year: MAX_YEAR, month: 12, day: 31 }).day_index(),
    ensures
        spec_add_days(d, n).valid(),
        spec_add_days(d, n).day_index() == d.day_index() + n,
    decreases n,
{
    if n > 0 {
        lemma_spec_add_days_index(d, (n - 1) as nat);
        let p = spec_add_days(d, (n - 1) as nat);
        let last = Date { year: MAX_YEAR, month: 12, day: 31 };
        lemma_day_index_order(p, last);
        if p.day == spec_days_in_month(p.year as int, p.month as int) && p.month == 12 {
            lemma_days_in_year(p.year as int);
            lemma_days_before_year_step(p.year as int);
        }
        let r = spec_next_day(p);
        assert(days_before_month(r.year as int, 1) == 0);
    }
}

/// `spec_sub_days` agrees with the day-index model.
pub proof fn lemma_spec_sub_days_index(d: Date, n: nat)
    requires
        d.valid(),
        n <= d.day_index(),
    ensures
        spec_sub_days(d, n).valid(),
        spec_sub_days(d, n).day_index() == d.day_index() - n,
    decreases n,
{
    if n > 0 {
        lemma_spec_sub_days_index(d, (n - 1) as nat);
        let p = spec_sub_days(d, (n - 1) as nat);
        let first = Date { year: MIN_YEAR, month: 1, day: 1 };
        lemma_day_index_order(first, p);
        assert(first.day_index() == 0);
        if p.day == 1 && p.month == 1 {
            lemma_days_in_year(p.year - 1);
            lemma_days_before_year_step(p.year - 1);
            assert(days_before_month(p.year as int, 1) == 0);
        } else if p.day == 1 {
            assert(days_before_month(p.year as int, p.month as int) == days_before_month(
                p.year as int,
                p.month - 1,
            ) + spec_days_in_month(p.year as int, p.month - 1));
        }
    }
}

/// The month index of a date: months elapsed plus twelve per year.
pub open spec fn month_index(d: Date) -> int {
    12 * d.year + d.month - 1
}

/// `d` moved forward by `k` months, clamped to the target month's length
/// (so stepping never drifts past a short month's end).
pub open spec fn spec_add_months(d: Date, k: int) -> Date {
    let mi = month_index(d) + k;
    let y = mi / 12;
    let m = mi % 12 + 1;
    let dim = spec_days_in_month(y, m);
    Date { year: y as u32, month: m as u8, day: if d.day <= dim { d.day } else { dim as u8 } }
}

/// `d` moved forward by `k` months, day clamped to the month's length.
pub fn add_months(d: &Date, k: u32) -> (r: Date)
    requires
        d.valid(),
        month_index(*d) + k <= 12 * MAX_YEAR + 11,
    ensures
        r == spec_add_months(*d, k as int),
        r.valid(),
        month_index(r) == month_index(*d) + k,
        k >= 1 ==> d.spec_lt(r),
{
    let mi: u32 = 12 * d.year + (d.month - 1) as u32 + k;
    let y: u32 = mi / 12;
    let m: u8 = (mi % 12) as u8 + 1;
    let dim: u8 = days_in_month(y, m);
    let day: u8 = if d.day <= dim {
        d.day
    } else {
        dim
    };
    let r = Date { year: y, month: m, day };
    proof {
        assert(12 * y + m - 1 == mi);
        if k >= 1 {
            assert(month_index(*d) < month_index(r));
            assert(12 * d.year + d.month < 12 * r.year + r.month);
        }
    }
    r
}

/// `d` moved backward by `k` months, day clamped to the month's length.
pub fn sub_months(d: &Date, k: u32) -> (r: Date)
    requires
        d.valid(),
        k + 12 <= month_index(*d),
    ensures
        r == spec_add_months(*d, -(k as int)),
        r.valid(),
        month_index(r) == month_index(*d) - k,
        k >= 1 ==> r.spec_lt(*d),
{
    let mi: u32 = 12 * d.year + (d.month - 1) as u32 - k;
    let y: u32 = mi / 12;
    let m: u8 = (mi % 12) as u8 + 1;
    let dim: u8 = days_in_month(y, m);
    let day: u8 = if d.day <= dim {
        d.day
    } else {
        dim
    };
    let r = Date { year: y, month: m, day };
    proof {
        assert(12 * y + m - 1 == mi);
        if k >= 1 {
            assert(month_index(r) < month_index(*d));
            assert(12 * r.year + r.month < 12 * d.year + d.month);
        }
    }
    r
}

/// The Monday of `d`'s week.
pub fn start_of_week(d: &Date) -> (r: Date)
    requires
        d.valid(),
    ensures
        r == spec_sub_days(*d, (d.day_index() % 7) as nat),
        r.valid(),
        r.day_index() == d.day_index() - spec_weekday_from_monday(*d),
        r.day_index() % 7 == 0,
        r.spec_le(*d),
{
    proof {
        lemma_day_index_bounds(*d);
        lemma_fundamental_div_mod(d.day_index(), 7);
    }
    let wd: u8 = weekday_from_monday(d);
    let r = sub_days(d, wd as u32);
    proof {
        assert(r.day_index() == 7 * (d.day_index() / 7));
        assert(r.day_index() % 7 == 0) by {
            lemma_fundamental_div_mod_converse(7 * (d.day_index() / 7), 7, d.day_index() / 7, 0);
        }
        lemma_day_index_order(r, *d);
    }
    r
}

/// The first day of `d`'s month.
pub fn start_of_month(d: &Date) -> (r: Date)
    requires
        d.valid(),
    ensures
        r == (Date { year: d.year, month: d.month, day: 1 }),
        r.valid(),
        r.spec_le(*d),
{
    Date { year: d.year, month: d.month, day: 1 }
}

/// The first day of `d`'s year.
pub fn start_of_year(d: &Date) -> (r: Date)
    requires
        d.valid(),
    ensures
        r == (Date { year: d.year, month: 1, day: 1 }),
        r.valid(),
        r.spec_le(*d),
{
    Date { year: d.year, month: 1, day: 1 }
}

} // verus!
