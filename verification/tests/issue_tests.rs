use ledger_engine::date::Date;
use ledger_engine::issues::{find_latest_repeat_date, list_issues};
use ledger_engine::schema::{
    Account, AccountType, DateRepeat, EngineError, Issue, IssueType, RepeatingTransfer,
    Transaction, TransactionType,
};

fn d(year: u32, month: u8, day: u8) -> Date {
    Date { year, month, day }
}

fn account(id: &str, name: &str, account_type: AccountType) -> Account {
    Account { id: id.to_string(), name: name.to_string(), account_type }
}

fn balance(id: &str, date: Date, account_id: &str) -> Transaction {
    Transaction {
        id: id.to_string(),
        description: None,
        date,
        value: 1200,
        transaction_type: TransactionType::Balance,
        account_id: account_id.to_string(),
        from_account_id: None,
    }
}

fn transfer(id: &str, date: Date, to: &str, from: &str) -> Transaction {
    Transaction {
        id: id.to_string(),
        description: None,
        date,
        value: 10,
        transaction_type: TransactionType::Transfer,
        account_id: to.to_string(),
        from_account_id: Some(from.to_string()),
    }
}

fn twb(account_id: &str, date: Date) -> Issue {
    Issue {
        issue_type: IssueType::TransferWithoutBalance,
        date: Some(date),
        account_id: Some(account_id.to_string()),
        from_account_id: None,
    }
}

fn scenario_accounts() -> Vec<Account> {
    vec![
        account("e", "External", AccountType::External),
        account("s", "Savings", AccountType::Savings),
        account("l", "Loan", AccountType::Savings),
    ]
}

fn detect(transactions: &Vec<Transaction>) -> Vec<Issue> {
    let accounts = scenario_accounts();
    // external transfers are excused from the balance check; savings accounts
    // are excused from the monthly-balance check so the transfer scenario is
    // isolated
    let ignore = vec!["e".to_string()];
    let no_regular = vec!["s".to_string(), "l".to_string()];
    list_issues(transactions, &accounts, &ignore, &no_regular, &vec![], d(2024, 2, 1)).unwrap()
}

#[test]
fn transfer_without_balance_scenario() {
    // a transfer E -> S with no balance for S on that date
    let mut txs = vec![transfer("t1", d(2024, 1, 10), "s", "e")];
    assert_eq!(detect(&txs), vec![twb("s", d(2024, 1, 10))]);

    // a second transfer L -> S on the next day adds issues for both sides,
    // most recent date first, equal keys by account name
    txs.push(transfer("t2", d(2024, 1, 11), "s", "l"));
    assert_eq!(
        detect(&txs),
        vec![
            twb("l", d(2024, 1, 11)),
            twb("s", d(2024, 1, 11)),
            twb("s", d(2024, 1, 10)),
        ]
    );

    // a balance for S on the 11th clears the S issue of that date
    txs.push(balance("t3", d(2024, 1, 11), "s"));
    assert_eq!(
        detect(&txs),
        vec![twb("l", d(2024, 1, 11)), twb("s", d(2024, 1, 10))]
    );

    // a balance for L on the 11th leaves only the original issue
    txs.push(balance("t4", d(2024, 1, 11), "l"));
    assert_eq!(detect(&txs), vec![twb("s", d(2024, 1, 10))]);

    // a balance for S on the 10th clears everything
    txs.push(balance("t5", d(2024, 1, 10), "s"));
    assert_eq!(detect(&txs), vec![]);
}

#[test]
fn no_issues_on_empty_snapshot() {
    assert_eq!(detect(&vec![]), vec![]);
}

#[test]
fn missing_monthly_balance() {
    let accounts = vec![
        account("e", "External", AccountType::External),
        account("s", "Savings", AccountType::Savings),
    ];
    let issues =
        list_issues(&vec![], &accounts, &vec![], &vec![], &vec![], d(2024, 2, 15)).unwrap();
    // only the savings account is missing its balance on the first of the
    // month; external accounts are never checked
    assert_eq!(
        issues,
        vec![Issue {
            issue_type: IssueType::NoBalance,
            date: Some(d(2024, 2, 1)),
            account_id: Some("s".to_string()),
            from_account_id: None,
        }]
    );

    // a balance on the first of the current month clears it
    let txs = vec![balance("t1", d(2024, 2, 1), "s")];
    let issues = list_issues(&txs, &accounts, &vec![], &vec![], &vec![], d(2024, 2, 15)).unwrap();
    assert_eq!(issues, vec![]);
}

#[test]
fn missed_scheduled_transfer() {
    let accounts = scenario_accounts();
    let ignore = vec!["e".to_string(), "s".to_string(), "l".to_string()];
    let no_regular = ignore.clone();
    let schedule = RepeatingTransfer {
        start: d(2024, 1, 1),
        repeat: DateRepeat::Daily,
        repeat_count: 1,
        from_account_id: "e".to_string(),
        to_account_ids: vec!["s".to_string()],
    };
    let schedules = vec![schedule];

    // nothing realized the transfer due on the 5th
    let issues =
        list_issues(&vec![], &accounts, &ignore, &no_regular, &schedules, d(2024, 1, 5)).unwrap();
    assert_eq!(
        issues,
        vec![Issue {
            issue_type: IssueType::NoTransfer,
            date: Some(d(2024, 1, 5)),
            account_id: Some("s".to_string()),
            from_account_id: Some("e".to_string()),
        }]
    );

    // a realized transfer on the due date clears it
    let txs = vec![transfer("t1", d(2024, 1, 5), "s", "e")];
    let issues =
        list_issues(&txs, &accounts, &ignore, &no_regular, &schedules, d(2024, 1, 5)).unwrap();
    assert_eq!(issues, vec![]);
}

#[test]
fn latest_repeat_dates() {
    let rt = |repeat: DateRepeat, count: u32, start: Date| RepeatingTransfer {
        start,
        repeat,
        repeat_count: count,
        from_account_id: "e".to_string(),
        to_account_ids: vec!["s".to_string()],
    };
    // daily steps of 1 land on today itself
    assert_eq!(
        find_latest_repeat_date(&rt(DateRepeat::Daily, 1, d(2024, 1, 1)), &d(2024, 1, 5)),
        d(2024, 1, 5)
    );
    // weekly steps stay on the schedule's weekday
    assert_eq!(
        find_latest_repeat_date(&rt(DateRepeat::Weekly, 1, d(2024, 1, 1)), &d(2024, 1, 20)),
        d(2024, 1, 15)
    );
    // monthly steps keep the day of month
    assert_eq!(
        find_latest_repeat_date(&rt(DateRepeat::Monthly, 1, d(2023, 10, 15)), &d(2024, 1, 10)),
        d(2023, 12, 15)
    );
    // a three-day granularity
    assert_eq!(
        find_latest_repeat_date(&rt(DateRepeat::Daily, 3, d(2024, 1, 1)), &d(2024, 1, 8)),
        d(2024, 1, 7)
    );
}

#[test]
fn malformed_schedules_are_input_errors() {
    let accounts = scenario_accounts();
    let good = RepeatingTransfer {
        start: d(2024, 1, 1),
        repeat: DateRepeat::Daily,
        repeat_count: 1,
        from_account_id: "e".to_string(),
        to_account_ids: vec!["s".to_string()],
    };

    let mut unknown_from = good.clone();
    unknown_from.from_account_id = "ghost".to_string();
    assert_eq!(
        list_issues(&vec![], &accounts, &vec![], &vec![], &vec![unknown_from], d(2024, 1, 5)),
        Err(EngineError::UnknownAccount)
    );

    let mut unknown_to = good.clone();
    unknown_to.to_account_ids = vec!["ghost".to_string()];
    assert_eq!(
        list_issues(&vec![], &accounts, &vec![], &vec![], &vec![unknown_to], d(2024, 1, 5)),
        Err(EngineError::UnknownAccount)
    );

    let mut zero_count = good.clone();
    zero_count.repeat_count = 0;
    assert_eq!(
        list_issues(&vec![], &accounts, &vec![], &vec![], &vec![zero_count], d(2024, 1, 5)),
        Err(EngineError::MalformedRepeatingTransfers)
    );

    let mut future_start = good.clone();
    future_start.start = d(2024, 2, 1);
    assert_eq!(
        list_issues(&vec![], &accounts, &vec![], &vec![], &vec![future_start], d(2024, 1, 5)),
        Err(EngineError::MalformedRepeatingTransfers)
    );
}
