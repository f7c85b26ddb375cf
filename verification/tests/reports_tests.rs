use ledger_engine::buckets::Period;
use ledger_engine::date::Date;
use ledger_engine::params::Category;
use ledger_engine::schema::{
    Account, AccountType, EngineError, Transaction, TransactionType,
};
use ledger_engine::statistics::calculate_statistics;
use ledger_engine::expenses::calculate_expenses;
use ledger_engine::schema::{Expense, ExpenseCategory};

fn d(year: u32, month: u8, day: u8) -> Date {
    Date { year, month, day }
}

fn account(id: &str, name: &str, account_type: AccountType) -> Account {
    Account { id: id.to_string(), name: name.to_string(), account_type }
}

fn balance(id: &str, date: Date, cents: i64, account_id: &str) -> Transaction {
    Transaction {
        id: id.to_string(),
        description: None,
        date,
        value: cents,
        transaction_type: TransactionType::Balance,
        account_id: account_id.to_string(),
        from_account_id: None,
    }
}

fn transfer(id: &str, date: Date, cents: i64, to: &str, from: &str) -> Transaction {
    Transaction {
        id: id.to_string(),
        description: None,
        date,
        value: cents,
        transaction_type: TransactionType::Transfer,
        account_id: to.to_string(),
        from_account_id: Some(from.to_string()),
    }
}

fn snapshot() -> (Vec<Transaction>, Vec<Account>) {
    let accounts = vec![
        account("a", "Checking", AccountType::Checking),
        account("b", "Savings", AccountType::Savings),
    ];
    let transactions = vec![
        transfer("t2", d(2024, 1, 20), 2500, "b", "a"),
        balance("t1", d(2024, 1, 10), 10000, "a"),
    ];
    (transactions, accounts)
}

#[test]
fn empty_snapshot_gives_empty_statistics() {
    let stats = calculate_statistics(
        Period::Monthly,
        Category::AccountBalances,
        vec![],
        vec![],
        vec![],
        d(2024, 3, 4),
    )
    .unwrap();
    assert_eq!(stats.len(), 0);
}

#[test]
fn account_balances_monthly() {
    let (transactions, accounts) = snapshot();
    let stats = calculate_statistics(
        Period::Monthly,
        Category::AccountBalances,
        transactions,
        accounts,
        vec![],
        d(2024, 3, 4),
    )
    .unwrap();
    // buckets run from the earliest transaction's month (2024-01-01) to one
    // month past today's month (2024-04-01); the first bucket predates every
    // balance, so it is suppressed entirely.
    assert_eq!(stats.len(), 3);
    assert_eq!(stats[0].date, d(2024, 2, 1));
    assert_eq!(stats[1].date, d(2024, 3, 1));
    assert_eq!(stats[2].date, d(2024, 4, 1));
    assert_eq!(stats[0].values.len(), 2);
    assert_eq!(stats[0].values[0].name, "a");
    assert_eq!(stats[0].values[0].value, 10000);
    assert_eq!(stats[0].values[0].value_difference, 0);
    assert_eq!(stats[0].values[1].name, "b");
    assert_eq!(stats[0].values[1].value, 0);
    assert_eq!(stats[1].values[0].value, 10000);
    assert_eq!(stats[1].values[0].value_difference, 0);
}

#[test]
fn account_transfers_monthly() {
    let (transactions, accounts) = snapshot();
    let stats = calculate_statistics(
        Period::Monthly,
        Category::AccountTransfers,
        transactions,
        accounts,
        vec![],
        d(2024, 3, 4),
    )
    .unwrap();
    assert_eq!(stats.len(), 3);
    assert_eq!(stats[0].date, d(2024, 2, 1));
    // the transfer moved 25.00 from "a" to "b"
    assert_eq!(stats[0].values[0].name, "a");
    assert_eq!(stats[0].values[0].value, -2500);
    assert_eq!(stats[0].values[1].name, "b");
    assert_eq!(stats[0].values[1].value, 2500);
}

#[test]
fn total_balances_conserve_net() {
    let (transactions, accounts) = snapshot();
    let stats = calculate_statistics(
        Period::Monthly,
        Category::TotalBalances,
        transactions,
        accounts,
        vec![],
        d(2024, 3, 4),
    )
    .unwrap();
    assert_eq!(stats.len(), 3);
    let row = &stats[0];
    assert_eq!(row.values.len(), 9);
    assert_eq!(row.values[1].name, "NET");
    assert_eq!(row.values[1].value, 10000);
    assert_eq!(row.values[2].name, "CASH");
    assert_eq!(row.values[2].value, 10000);
    assert_eq!(row.values[3].name, "SHORT_TERM_ASSET");
    assert_eq!(row.values[3].value, 0);
    // conservation: the net value equals the sum of the per-account values
    let sum: i64 = 10000 + 0;
    assert_eq!(row.values[1].value, sum);
}

#[test]
fn flow_grouping_monthly() {
    let (transactions, accounts) = snapshot();
    let stats = calculate_statistics(
        Period::Monthly,
        Category::FlowGrouping,
        transactions,
        accounts,
        vec![],
        d(2024, 3, 4),
    )
    .unwrap();
    assert_eq!(stats.len(), 3);
    let row = &stats[0];
    assert_eq!(row.values.len(), 5);
    assert_eq!(row.values[0].name, "NET");
    assert_eq!(row.values[0].value, 10000);
    assert_eq!(row.values[1].name, "INCOME");
    assert_eq!(row.values[1].value, 0);
    // cash flow: balance 100.00 minus transfer movement -25.00
    assert_eq!(row.values[2].name, "CASH");
    assert_eq!(row.values[2].value, 12500);
    // gain: savings transfer movement explains -25.00 of balance change
    assert_eq!(row.values[3].name, "GAIN");
    assert_eq!(row.values[3].value, -2500);
    assert_eq!(row.values[4].name, "APPRECIATION");
    assert_eq!(row.values[4].value, 0);
}

#[test]
fn statistics_are_idempotent() {
    let (transactions, accounts) = snapshot();
    let first = calculate_statistics(
        Period::Weekly,
        Category::Flow,
        transactions.clone(),
        accounts.clone(),
        vec![],
        d(2024, 3, 4),
    );
    let second = calculate_statistics(
        Period::Weekly,
        Category::Flow,
        transactions,
        accounts,
        vec![],
        d(2024, 3, 4),
    );
    assert_eq!(first, second);
}

#[test]
fn unknown_account_fails_loudly() {
    let accounts = vec![account("a", "Checking", AccountType::Checking)];
    let transactions = vec![balance("t1", d(2024, 1, 10), 100, "ghost")];
    let r = calculate_statistics(
        Period::Monthly,
        Category::AccountBalances,
        transactions,
        accounts,
        vec![],
        d(2024, 3, 4),
    );
    assert_eq!(r, Err(EngineError::UnknownAccount));
}

#[test]
fn transfer_without_source_fails_loudly() {
    let accounts = vec![account("a", "Checking", AccountType::Checking)];
    let mut t = balance("t1", d(2024, 1, 10), 100, "a");
    t.transaction_type = TransactionType::Transfer;
    let r = calculate_statistics(
        Period::Monthly,
        Category::AccountTransfers,
        vec![t],
        accounts,
        vec![],
        d(2024, 3, 4),
    );
    assert_eq!(r, Err(EngineError::TransferWithoutFromAccount));
}

#[test]
fn transfer_overflow_fails_loudly() {
    let accounts = vec![
        account("a", "Checking", AccountType::Checking),
        account("b", "Savings", AccountType::Savings),
    ];
    let transactions = vec![
        transfer("t1", d(2024, 1, 10), i64::MAX, "b", "a"),
        transfer("t2", d(2024, 1, 11), i64::MAX, "b", "a"),
    ];
    let r = calculate_statistics(
        Period::Monthly,
        Category::AccountTransfers,
        transactions,
        accounts,
        vec![],
        d(2024, 3, 4),
    );
    assert_eq!(r, Err(EngineError::ValueOverflow));
}

#[test]
fn expenses_rollup() {
    let expense = Expense {
        id: "e1".to_string(),
        description: "weekly shop".to_string(),
        external: "market".to_string(),
        category: ExpenseCategory::Groceries,
        date: d(2024, 1, 15),
        value: 500,
    };
    let buckets = vec![d(2024, 1, 1), d(2024, 2, 1)];
    let stats = calculate_expenses(vec![], vec![], vec![expense], buckets).unwrap();
    // the bucket before the first expense is suppressed
    assert_eq!(stats.len(), 1);
    let row = &stats[0];
    assert_eq!(row.date, d(2024, 2, 1));
    assert_eq!(row.values.len(), 18);
    assert_eq!(row.values[7].name, "GROCERIES");
    assert_eq!(row.values[7].value, 500);
    assert_eq!(row.values[16].name, "TOTAL");
    assert_eq!(row.values[16].value, 500);
    assert_eq!(row.values[17].name, "CASH");
    assert_eq!(row.values[17].value, 0);
    assert_eq!(row.values[0].name, "UNKNOWN");
    assert_eq!(row.values[0].value, 0);
}

#[test]
fn expenses_couple_to_cash_movement() {
    let accounts = vec![account("a", "Checking", AccountType::Checking)];
    let transactions = vec![
        balance("t1", d(2024, 1, 10), 10000, "a"),
        balance("t2", d(2024, 2, 10), 15000, "a"),
    ];
    let expense = Expense {
        id: "e1".to_string(),
        description: "weekly shop".to_string(),
        external: "market".to_string(),
        category: ExpenseCategory::Groceries,
        date: d(2024, 1, 15),
        value: 500,
    };
    let stats = calculate_statistics(
        Period::Monthly,
        Category::Expenses,
        transactions,
        accounts,
        vec![expense],
        d(2024, 3, 4),
    )
    .unwrap();
    // rows start at the first bucket on or after the first expense
    assert_eq!(stats.len(), 3);
    assert_eq!(stats[0].date, d(2024, 2, 1));
    assert_eq!(stats[0].values[7].name, "GROCERIES");
    assert_eq!(stats[0].values[7].value, 500);
    assert_eq!(stats[0].values[16].value, 500);
    // the first flow-grouping row carries a zero difference, so no cash yet
    assert_eq!(stats[0].values[17].name, "CASH");
    assert_eq!(stats[0].values[17].value, 0);
    // the 50.00 cash movement between the February and March buckets shows
    // up as accumulated absolute cash difference
    assert_eq!(stats[1].date, d(2024, 3, 1));
    assert_eq!(stats[1].values[17].value, 5000);
    assert_eq!(stats[1].values[17].value_difference, 5000);
    assert_eq!(stats[1].values[7].value, 500);
    assert_eq!(stats[1].values[7].value_difference, 0);
    assert_eq!(stats[2].values[17].value, 5000);
    assert_eq!(stats[2].values[17].value_difference, 0);
}
