use ledger_engine::buckets::Period;
use ledger_engine::date::Date;
use ledger_engine::engine::{verify_from_account_id, verify_transaction_type};
use ledger_engine::issues::compute_issues;
use ledger_engine::params::{extract_params, Category};
use ledger_engine::schedule::parse_repeating_transfers;
use ledger_engine::schema::{
    Account, AccountType, DateRepeat, EngineError, IssueType, RepeatingTransfer, TransactionType,
};
use ledger_engine::settings::split_account_ids;

fn parse(period: &str, category: &str) -> Result<(Period, Category), EngineError> {
    extract_params((period.to_string(), category.to_string()))
}

#[test]
fn known_periods_and_categories() {
    assert_eq!(parse("weekly", "flow"), Ok((Period::Weekly, Category::Flow)));
    assert_eq!(
        parse("MONTHLY", "account_balance"),
        Ok((Period::Monthly, Category::AccountBalances))
    );
    assert_eq!(
        parse("Yearly", "Account_Transfer"),
        Ok((Period::Yearly, Category::AccountTransfers))
    );
    assert_eq!(
        parse("monthly", "total_balance"),
        Ok((Period::Monthly, Category::TotalBalances))
    );
    assert_eq!(
        parse("monthly", "total_transfer"),
        Ok((Period::Monthly, Category::TotalTransfers))
    );
    assert_eq!(
        parse("monthly", "FLOW_GROUPING"),
        Ok((Period::Monthly, Category::FlowGrouping))
    );
    assert_eq!(
        parse("monthly", "expenses"),
        Ok((Period::Monthly, Category::Expenses))
    );
}

#[test]
fn unknown_period_is_rejected() {
    assert_eq!(parse("daily", "flow"), Err(EngineError::UnknownPeriod));
    assert_eq!(parse("", "flow"), Err(EngineError::UnknownPeriod));
    assert_eq!(
        EngineError::UnknownPeriod.message(),
        "Unknown period".to_string()
    );
}

#[test]
fn unknown_category_is_rejected() {
    assert_eq!(parse("weekly", "bogus"), Err(EngineError::UnknownCategory));
    assert_eq!(parse("weekly", "flow_"), Err(EngineError::UnknownCategory));
}

#[test]
fn error_messages() {
    assert_eq!(
        EngineError::BalanceWithFromAccount.message(),
        "Balance cannot have a from_account_id".to_string()
    );
    assert_eq!(
        EngineError::TransferWithoutFromAccount.message(),
        "Transfer must have a from_account_id".to_string()
    );
}

#[test]
fn verify_transaction_kind_invariant() {
    assert_eq!(verify_transaction_type(TransactionType::Balance, None), Ok(()));
    assert_eq!(
        verify_transaction_type(TransactionType::Balance, Some("a".to_string())),
        Err(EngineError::BalanceWithFromAccount)
    );
    assert_eq!(
        verify_transaction_type(TransactionType::Transfer, Some("a".to_string())),
        Ok(())
    );
    assert_eq!(
        verify_transaction_type(TransactionType::Transfer, None),
        Err(EngineError::TransferWithoutFromAccount)
    );
    assert_eq!(
        verify_from_account_id(TransactionType::Transfer, None),
        Err(EngineError::TransferWithoutFromAccount)
    );
}

#[test]
fn ignore_lists_split_on_commas() {
    let ids = split_account_ids("a,b,c");
    assert_eq!(ids, vec!["a".to_string(), "b".to_string(), "c".to_string()]);
    assert_eq!(split_account_ids("solo"), vec!["solo".to_string()]);
    assert_eq!(split_account_ids(""), vec!["".to_string()]);
    assert_eq!(
        split_account_ids("x,,y"),
        vec!["x".to_string(), "".to_string(), "y".to_string()]
    );
}

#[test]
fn repeating_transfers_payload_round_trip() {
    let payload = "[{\"start\": \"2024-01-01\", \"repeat\": \"WEEKLY\", \"repeat_count\": 2, \"from_account_id\": \"e\", \"to_account_ids\": [\"s\", \"l\"]}]";
    let parsed = parse_repeating_transfers(payload).unwrap();
    assert_eq!(
        parsed,
        vec![RepeatingTransfer {
            start: Date { year: 2024, month: 1, day: 1 },
            repeat: DateRepeat::Weekly,
            repeat_count: 2,
            from_account_id: "e".to_string(),
            to_account_ids: vec!["s".to_string(), "l".to_string()],
        }]
    );

    assert_eq!(parse_repeating_transfers("[]").unwrap(), vec![]);
    assert_eq!(parse_repeating_transfers("  [ ]  ").unwrap(), vec![]);

    // two schedules, dense whitespace-free form
    let two = "[{\"start\":\"2023-12-31\",\"repeat\":\"DAILY\",\"repeat_count\":10,\"from_account_id\":\"a\",\"to_account_ids\":[\"b\"]},{\"start\":\"2020-02-29\",\"repeat\":\"MONTHLY\",\"repeat_count\":1,\"from_account_id\":\"b\",\"to_account_ids\":[\"a\"]}]";
    let parsed = parse_repeating_transfers(two).unwrap();
    assert_eq!(parsed.len(), 2);
    assert_eq!(parsed[0].repeat, DateRepeat::Daily);
    assert_eq!(parsed[0].repeat_count, 10);
    assert_eq!(parsed[1].start, Date { year: 2020, month: 2, day: 29 });

    // malformed payloads are rejected as input errors
    for bad in [
        "",
        "{}",
        "[{}]",
        "[",
        "[]x",
        "[{\"start\": \"2024-1-01\", \"repeat\": \"WEEKLY\", \"repeat_count\": 2, \"from_account_id\": \"e\", \"to_account_ids\": [\"s\"]}]",
        "[{\"start\": \"2024-01-01\", \"repeat\": \"HOURLY\", \"repeat_count\": 2, \"from_account_id\": \"e\", \"to_account_ids\": [\"s\"]}]",
        "[{\"start\": \"2024-01-01\", \"repeat\": \"WEEKLY\", \"repeat_count\": 02, \"from_account_id\": \"e\", \"to_account_ids\": [\"s\"]}]",
        "[{\"start\": \"2024-01-01\", \"repeat\": \"WEEKLY\", \"repeat_count\": 2, \"from_account_id\": \"e\", \"to_account_ids\": [\"s\"],}]",
    ] {
        assert_eq!(
            parse_repeating_transfers(bad),
            Err(EngineError::MalformedRepeatingTransfers),
            "payload should be rejected: {bad}"
        );
    }
}

#[test]
fn issues_from_raw_settings() {
    let accounts = vec![
        Account { id: "e".to_string(), name: "External".to_string(), account_type: AccountType::External },
        Account { id: "s".to_string(), name: "Savings".to_string(), account_type: AccountType::Savings },
    ];
    let today = Date { year: 2024, month: 1, day: 5 };
    let payload = "[{\"start\": \"2024-01-01\", \"repeat\": \"DAILY\", \"repeat_count\": 1, \"from_account_id\": \"e\", \"to_account_ids\": [\"s\"]}]";
    let issues = compute_issues(
        &vec![],
        &accounts,
        Some("e"),
        Some("e,s"),
        Some(payload),
        today,
    )
    .unwrap();
    assert_eq!(issues.len(), 1);
    assert_eq!(issues[0].issue_type, IssueType::NoTransfer);
    assert_eq!(issues[0].date, Some(today));
    assert_eq!(issues[0].account_id, Some("s".to_string()));
    assert_eq!(issues[0].from_account_id, Some("e".to_string()));

    // a malformed payload surfaces as the input error
    assert_eq!(
        compute_issues(&vec![], &accounts, None, None, Some("not json"), today),
        Err(EngineError::MalformedRepeatingTransfers)
    );
}
