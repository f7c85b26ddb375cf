//! The ledger's record types: accounts, transactions, settings, expenses,
//! statistics and issues, together with their specification-level views.
//!
//! Monetary amounts are fixed-point values with two decimal places, held as
//! signed cents. Each record type with `String` fields has a ghost view
//! struct projecting those fields to character sequences, so contracts can
//! state exact results.

use vstd::prelude::*;
use crate::date::Date;

verus! {

/// The kind of an account; drives categorization into total types.
#[derive(Clone, Copy, Debug, PartialEq, Eq, Structural, Hash)]
pub enum AccountType {
    Savings,
    Checking,
    Loan,
    CreditCard,
    Investment,
    Retirement,
    PhysicalAsset,
    External,
}

/// A ledger account; identity and name are owned by the external store.
#[derive(Clone, Debug, PartialEq, Eq)]
pub struct Account {
    pub id: String,
    pub name: String,
    pub account_type: AccountType,
}

/// An account as handed to the store for creation, before it has an id.
#[derive(Clone, Debug, PartialEq, Eq)]
pub struct NewAccount {
    pub name: String,
    pub account_type: AccountType,
}

/// Ghost view of an `Account`.
pub ghost struct AccountV {
    pub id: Seq<char>,
    pub name: Seq<char>,
    pub account_type: AccountType,
}

impl View for Account {
    type V = AccountV;

    open spec fn view(&self) -> AccountV {
        AccountV { id: self.id@, name: self.name@, account_type: self.account_type }
    }
}

/// The kind of a transaction: a point-in-time recorded value for one account
/// (overwrite semantics) or a movement between two accounts (delta semantics).
#[derive(Clone, Copy, Debug, PartialEq, Eq, Structural, Hash)]
pub enum TransactionType {
    Balance,
    Transfer,
}

/// One ledger transaction. A `Balance` never carries `from_account_id`;
/// a `Transfer` always does (enforced upstream).
#[derive(Clone, Debug, PartialEq, Eq)]
pub struct Transaction {
    pub id: String,
    pub description: Option<String>,
    pub date: Date,
    /// Fixed-point amount in cents.
    pub value: i64,
    pub transaction_type: TransactionType,
    pub account_id: String,
    pub from_account_id: Option<String>,
}

/// Ghost view of a `Transaction`.
pub ghost struct TransactionV {
    pub date: Date,
    pub value: int,
    pub transaction_type: TransactionType,
    pub account_id: Seq<char>,
    pub from_account_id: Option<Seq<char>>,
}

impl View for Transaction {
    type V = TransactionV;

    open spec fn view(&self) -> TransactionV {
        TransactionV {
            date: self.date,
            value: self.value as int,
            transaction_type: self.transaction_type,
            account_id: self.account_id@,
            from_account_id: match self.from_account_id {
                Some(ref s) => Some(s@),
                None => None,
            },
        }
    }
}

/// The key of a stored setting.
#[derive(Clone, Copy, Debug, PartialEq, Eq, Structural, Hash)]
pub enum SettingKey {
    DefaultTransactionFromAccountId,
    TransferWithoutBalanceIgnoredAccounts,
    NoRegularBalanceAccounts,
    RepeatingTransfers,
}

/// A stored configuration entry.
#[derive(Clone, Debug, PartialEq, Eq)]
pub struct Setting {
    pub id: String,
    pub key: SettingKey,
    pub value: String,
}

/// A setting as handed to the store for creation, before it has an id.
#[derive(Clone, Debug, PartialEq, Eq)]
pub struct NewSetting {
    pub key: SettingKey,
    pub value: String,
}

/// The granularity of a repeating transfer's schedule.
#[derive(Clone, Copy, Debug, PartialEq, Eq, Structural, Hash)]
pub enum DateRepeat {
    Daily,
    Weekly,
    Monthly,
}

/// A user-declared expectation that a transfer recurs on a schedule.
#[derive(Clone, Debug, PartialEq, Eq)]
pub struct RepeatingTransfer {
    pub start: Date,
    pub repeat: DateRepeat,
    pub repeat_count: u32,
    pub from_account_id: String,
    pub to_account_ids: Vec<String>,
}

/// Ghost view of a `RepeatingTransfer`.
#[verifier::ext_equal]
pub ghost struct RepeatingTransferV {
    pub start: Date,
    pub repeat: DateRepeat,
    pub repeat_count: u32,
    pub from_account_id: Seq<char>,
    pub to_account_ids: Seq<Seq<char>>,
}

impl View for RepeatingTransfer {
    type V = RepeatingTransferV;

    open spec fn view(&self) -> RepeatingTransferV {
        RepeatingTransferV {
            start: self.start,
            repeat: self.repeat,
            repeat_count: self.repeat_count,
            from_account_id: self.from_account_id@,
            to_account_ids: Seq::new(
                self.to_account_ids@.len(),
                |i: int| self.to_account_ids@[i]@,
            ),
        }
    }
}

/// The category of an expense record.
#[derive(Clone, Copy, Debug, PartialEq, Eq, Structural, Hash)]
pub enum ExpenseCategory {
    Unknown,
    Other,
    Bills,
    Clothing,
    Electronics,
    Entertainment,
    Fitness,
    Groceries,
    House,
    Maintenance,
    Medical,
    Pets,
    Restaurants,
    SmartHome,
    Subscriptions,
    Vacations,
}

/// One expense record.
#[derive(Clone, Debug, PartialEq, Eq)]
pub struct Expense {
    pub id: String,
    pub description: String,
    pub external: String,
    pub category: ExpenseCategory,
    pub date: Date,
    /// Fixed-point amount in cents.
    pub value: i64,
}

/// An expense as handed to the store for creation, before it has an id.
#[derive(Clone, Debug, PartialEq, Eq)]
pub struct NewExpense {
    pub description: String,
    pub external: String,
    pub category: ExpenseCategory,
    pub date: Date,
    /// Fixed-point amount in cents.
    pub value: i64,
}

/// Ghost view of an `Expense`.
pub ghost struct ExpenseV {
    pub category: ExpenseCategory,
    pub date: Date,
    pub value: int,
}

impl View for Expense {
    type V = ExpenseV;

    open spec fn view(&self) -> ExpenseV {
        ExpenseV { category: self.category, date: self.date, value: self.value as int }
    }
}

/// One named value of a report row.
#[derive(Clone, Debug, PartialEq, Eq)]
pub struct Value {
    pub name: String,
    /// Fixed-point amount in cents.
    pub value: i64,
    /// Change against the previous emitted bucket for the same name
    /// (zero when there is no previous bucket).
    pub value_difference: i64,
}

/// Ghost view of a `Value`.
pub ghost struct ValueV {
    pub name: Seq<char>,
    pub value: int,
    pub value_difference: int,
}

impl View for Value {
    type V = ValueV;

    open spec fn view(&self) -> ValueV {
        ValueV { name: self.name@, value: self.value as int, value_difference: self.value_difference as int }
    }
}

/// One report row: the snapshot emitted for one bucket date.
#[derive(Clone, Debug, PartialEq, Eq)]
pub struct Statistic {
    pub date: Date,
    pub values: Vec<Value>,
}

/// Ghost view of a `Statistic`.
pub ghost struct StatisticV {
    pub date: Date,
    pub values: Seq<ValueV>,
}

impl View for Statistic {
    type V = StatisticV;

    open spec fn view(&self) -> StatisticV {
        StatisticV { date: self.date, values: Seq::new(self.values@.len(), |i: int| self.values@[i]@) }
    }
}

/// The kind of a detected data-quality issue.
#[derive(Clone, Copy, Debug, PartialEq, Eq, Structural, Hash)]
pub enum IssueType {
    TransferWithoutBalance,
    NoBalance,
    NoTransfer,
}

/// One detected data-quality issue.
#[derive(Clone, Debug, PartialEq, Eq)]
pub struct Issue {
    pub issue_type: IssueType,
    pub date: Option<Date>,
    pub account_id: Option<String>,
    pub from_account_id: Option<String>,
}

/// Ghost view of an `Issue`.
pub ghost struct IssueV {
    pub issue_type: IssueType,
    pub date: Option<Date>,
    pub account_id: Option<Seq<char>>,
    pub from_account_id: Option<Seq<char>>,
}

impl View for Issue {
    type V = IssueV;

    open spec fn view(&self) -> IssueV {
        IssueV {
            issue_type: self.issue_type,
            date: self.date,
            account_id: match self.account_id {
                Some(ref s) => Some(s@),
                None => None,
            },
            from_account_id: match self.from_account_id {
                Some(ref s) => Some(s@),
                None => None,
            },
        }
    }
}

/// A caller-visible failure of the engine: malformed input, a reference to an
/// account the snapshot does not hold, or a value outside the fixed-point range.
#[derive(Clone, Copy, Debug, PartialEq, Eq, Structural, Hash)]
pub enum EngineError {
    UnknownPeriod,
    UnknownCategory,
    BalanceWithFromAccount,
    TransferWithoutFromAccount,
    UnknownAccount,
    MalformedRepeatingTransfers,
    ValueOverflow,
}

impl EngineError {
    /// A human-readable description of the failure.
    pub fn message(&self) -> (r: String)
        ensures
            r@ == self.spec_message(),
    {
        match self {
            EngineError::UnknownPeriod => "Unknown period".to_owned(),
            EngineError::UnknownCategory => "Unknown category".to_owned(),
            EngineError::BalanceWithFromAccount => "Balance cannot have a from_account_id".to_owned(),
            EngineError::TransferWithoutFromAccount => "Transfer must have a from_account_id".to_owned(),
            EngineError::UnknownAccount => "Transaction references an unknown account".to_owned(),
            EngineError::MalformedRepeatingTransfers => "Malformed repeating transfers setting".to_owned(),
            EngineError::ValueOverflow => "Value outside the fixed-point range".to_owned(),
        }
    }

    pub open spec fn spec_message(self) -> Seq<char> {
        match self {
            EngineError::UnknownPeriod => "Unknown period"@,
            EngineError::UnknownCategory => "Unknown category"@,
            EngineError::BalanceWithFromAccount => "Balance cannot have a from_account_id"@,
            EngineError::TransferWithoutFromAccount => "Transfer must have a from_account_id"@,
            EngineError::UnknownAccount => "Transaction references an unknown account"@,
            EngineError::MalformedRepeatingTransfers => "Malformed repeating transfers setting"@,
            EngineError::ValueOverflow => "Value outside the fixed-point range"@,
        }
    }
}

/// Deep view of a statistics list.
pub open spec fn stats_view(s: Seq<Statistic>) -> Seq<StatisticV> {
    Seq::new(s.len(), |i: int| s[i]@)
}

/// Deep view of an issue list.
pub open spec fn issues_view(s: Seq<Issue>) -> Seq<IssueV> {
    Seq::new(s.len(), |i: int| s[i]@)
}

} // verus!
