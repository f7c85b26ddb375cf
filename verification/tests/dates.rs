use ledger_engine::buckets::{anchor, dates, dates_window, step_period, Period};
use ledger_engine::date::Date;

fn d(year: u32, month: u8, day: u8) -> Date {
    Date { year, month, day }
}

#[test]
fn test_months() {
    let months = dates_window(Period::Monthly, &d(2024, 3, 4));
    assert_eq!(
        months,
        vec![
            d(2023, 05, 01),
            d(2023, 06, 01),
            d(2023, 07, 01),
            d(2023, 08, 01),
            d(2023, 09, 01),
            d(2023, 10, 01),
            d(2023, 11, 01),
            d(2023, 12, 01),
            d(2024, 01, 01),
            d(2024, 02, 01),
            d(2024, 03, 01),
            d(2024, 04, 01),
        ]
    )
}

#[test]
fn test_weeks() {
    let weeks = dates_window(Period::Weekly, &d(2024, 5, 12));
    assert_eq!(
        weeks,
        vec![
            d(2024, 2, 26),
            d(2024, 3, 4),
            d(2024, 3, 11),
            d(2024, 3, 18),
            d(2024, 3, 25),
            d(2024, 4, 1),
            d(2024, 4, 8),
            d(2024, 4, 15),
            d(2024, 4, 22),
            d(2024, 4, 29),
            d(2024, 5, 6),
            d(2024, 5, 13),
        ]
    );

    let weeks = dates_window(Period::Weekly, &d(2024, 5, 13));
    assert_eq!(
        weeks,
        vec![
            d(2024, 3, 4),
            d(2024, 3, 11),
            d(2024, 3, 18),
            d(2024, 3, 25),
            d(2024, 4, 1),
            d(2024, 4, 8),
            d(2024, 4, 15),
            d(2024, 4, 22),
            d(2024, 4, 29),
            d(2024, 5, 6),
            d(2024, 5, 13),
            d(2024, 5, 20),
        ]
    );

    let start = d(2024, 5, 13);
    let date = step_period(Period::Weekly, &anchor(Period::Weekly, &start));
    assert_eq!(d(2024, 5, 20), date);
}

#[test]
fn test_years() {
    let years = dates_window(Period::Yearly, &d(2024, 5, 13));
    assert_eq!(
        years,
        vec![
            d(2016, 1, 1),
            d(2017, 1, 1),
            d(2018, 1, 1),
            d(2019, 1, 1),
            d(2020, 1, 1),
            d(2021, 1, 1),
            d(2022, 1, 1),
            d(2023, 1, 1),
            d(2024, 1, 1),
            d(2025, 1, 1),
        ]
    )
}

#[test]
fn api_test_months() {
    let months = dates(Period::Monthly, &d(2024, 3, 4), &d(2023, 5, 3));
    assert_eq!(
        months,
        vec![
            d(2023, 05, 01),
            d(2023, 06, 01),
            d(2023, 07, 01),
            d(2023, 08, 01),
            d(2023, 09, 01),
            d(2023, 10, 01),
            d(2023, 11, 01),
            d(2023, 12, 01),
            d(2024, 01, 01),
            d(2024, 02, 01),
            d(2024, 03, 01),
            d(2024, 04, 01),
        ]
    )
}

#[test]
fn api_test_weeks() {
    let weeks = dates(Period::Weekly, &d(2024, 5, 12), &d(2024, 2, 28));
    assert_eq!(
        weeks,
        vec![
            d(2024, 2, 26),
            d(2024, 3, 4),
            d(2024, 3, 11),
            d(2024, 3, 18),
            d(2024, 3, 25),
            d(2024, 4, 1),
            d(2024, 4, 8),
            d(2024, 4, 15),
            d(2024, 4, 22),
            d(2024, 4, 29),
            d(2024, 5, 6),
            d(2024, 5, 13),
        ]
    );

    let weeks = dates(Period::Weekly, &d(2024, 5, 13), &d(2024, 3, 4));
    assert_eq!(
        weeks,
        vec![
            d(2024, 3, 4),
            d(2024, 3, 11),
            d(2024, 3, 18),
            d(2024, 3, 25),
            d(2024, 4, 1),
            d(2024, 4, 8),
            d(2024, 4, 15),
            d(2024, 4, 22),
            d(2024, 4, 29),
            d(2024, 5, 6),
            d(2024, 5, 13),
            d(2024, 5, 20),
        ]
    );

    let start = d(2024, 5, 13);
    let date = step_period(Period::Weekly, &anchor(Period::Weekly, &start));
    assert_eq!(d(2024, 5, 20), date);
}

#[test]
fn api_test_years() {
    let years = dates(Period::Yearly, &d(2024, 5, 13), &d(2016, 3, 1));
    assert_eq!(
        years,
        vec![
            d(2016, 1, 1),
            d(2017, 1, 1),
            d(2018, 1, 1),
            d(2019, 1, 1),
            d(2020, 1, 1),
            d(2021, 1, 1),
            d(2022, 1, 1),
            d(2023, 1, 1),
            d(2024, 1, 1),
            d(2025, 1, 1),
        ]
    )
}

#[test]
fn calendar_basics() {
    // leap-year handling
    assert_eq!(ledger_engine::date::days_in_month(2024, 2), 29);
    assert_eq!(ledger_engine::date::days_in_month(2023, 2), 28);
    assert_eq!(ledger_engine::date::days_in_month(2000, 2), 29);
    assert_eq!(ledger_engine::date::days_in_month(1900, 2), 28);
    // month stepping lands on day 1 and never drifts into day 29-31
    assert_eq!(
        ledger_engine::date::add_months(&d(2024, 1, 31), 1),
        d(2024, 2, 29)
    );
    assert_eq!(
        ledger_engine::date::add_months(&d(2023, 1, 31), 1),
        d(2023, 2, 28)
    );
    // week stepping adds exactly 7 days across a month boundary
    assert_eq!(ledger_engine::date::add_days(&d(2024, 2, 26), 7), d(2024, 3, 4));
    // day index 0 (0001-01-01) is a Monday; 2024-05-13 is a Monday too
    assert_eq!(
        ledger_engine::date::weekday_from_monday(&Date { year: 1, month: 1, day: 1 }),
        0
    );
    assert_eq!(ledger_engine::date::weekday_from_monday(&d(2024, 5, 13)), 0);
    assert_eq!(ledger_engine::date::weekday_from_monday(&d(2024, 5, 12)), 6);
    // year rollover
    assert_eq!(ledger_engine::date::next_day(&d(2023, 12, 31)), d(2024, 1, 1));
}
