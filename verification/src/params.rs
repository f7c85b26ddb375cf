//! Report request parsing: the period and category names of a statistics
//! request, matched case-insensitively, with unknown names rejected as
//! caller-visible input errors.

use vstd::prelude::*;
use vstd::string::StrSliceExecFns;
use crate::buckets::Period;
use crate::schema::EngineError;

verus! {

/// The report category of a statistics request.
#[derive(Clone, Copy, Debug, PartialEq, Eq, Structural, Hash)]
pub enum Category {
    AccountBalances,
    AccountTransfers,
    TotalBalances,
    TotalTransfers,
    Flow,
    FlowGrouping,
    Expenses,
}

/// ASCII lower-casing of a code point.
pub open spec fn lower_cp(c: int) -> int {
    if 65 <= c <= 90 {
        c + 32
    } else {
        c
    }
}

/// Character sequences equal up to ASCII case.
pub open spec fn eq_ignore_case(a: Seq<char>, b: Seq<char>) -> bool {
    a.len() == b.len() && forall|i: int|
        0 <= i < a.len() ==> lower_cp(#[trigger] a[i] as int) == lower_cp(b[i] as int)
}

fn char_fold(c: char) -> (r: u32)
    ensures
        r == lower_cp(c as int),
{
    let cp: u32 = c as u32;
    if 65 <= cp && cp <= 90 {
        cp + 32
    } else {
        cp
    }
}

/// Compare two strings, ignoring ASCII case.
pub fn str_eq_ignore_case(a: &str, b: &str) -> (r: bool)
    ensures
        r == eq_ignore_case(a@, b@),
{
    let la = a.unicode_len();
    let lb = b.unicode_len();
    if la != lb {
        return false;
    }
    let mut i: usize = 0;
    while i < la
        invariant
            i <= la,
            la == a@.len(),
            la == b@.len(),
            forall|j: int| 0 <= j < i ==> lower_cp(#[trigger] a@[j] as int) == lower_cp(b@[j] as int),
        decreases la - i,
    {
        let ca = a.get_char(i);
        let cb = b.get_char(i);
        if char_fold(ca) != char_fold(cb) {
            return false;
        }
        i = i + 1;
    }
    true
}

/// The period a request name denotes, if any.
pub open spec fn spec_period_of(s: Seq<char>) -> Option<Period> {
    if eq_ignore_case(s, "weekly"@) {
        Some(Period::Weekly)
    } else if eq_ignore_case(s, "monthly"@) {
        Some(Period::Monthly)
    } else if eq_ignore_case(s, "yearly"@) {
        Some(Period::Yearly)
    } else {
        None
    }
}

/// The category a request name denotes, if any.
pub open spec fn spec_category_of(s: Seq<char>) -> Option<Category> {
    if eq_ignore_case(s, "account_balance"@) {
        Some(Category::AccountBalances)
    } else if eq_ignore_case(s, "account_transfer"@) {
        Some(Category::AccountTransfers)
    } else if eq_ignore_case(s, "total_balance"@) {
        Some(Category::TotalBalances)
    } else if eq_ignore_case(s, "total_transfer"@) {
        Some(Category::TotalTransfers)
    } else if eq_ignore_case(s, "flow"@) {
        Some(Category::Flow)
    } else if eq_ignore_case(s, "flow_grouping"@) {
        Some(Category::FlowGrouping)
    } else if eq_ignore_case(s, "expenses"@) {
        Some(Category::Expenses)
    } else {
        None
    }
}

/// Parse a statistics request path into its period and category. An unknown
/// period name fails with `UnknownPeriod`; a known period with an unknown
/// category name fails with `UnknownCategory`.
pub fn extract_params(path: (String, String)) -> (r: Result<(Period, Category), EngineError>)
    ensures
        match r {
            Ok((p, c)) => spec_period_of(path.0@) == Some(p) && spec_category_of(path.1@) == Some(
                c,
            ),
            Err(e) => {
                ||| (e == EngineError::UnknownPeriod && spec_period_of(path.0@) is None)
                ||| (e == EngineError::UnknownCategory && spec_period_of(path.0@) is Some
                    && spec_category_of(path.1@) is None)
            },
        },
{
    let (raw_period, raw_category) = path;
    let period: Period = if str_eq_ignore_case(raw_period.as_str(), "weekly") {
        Period::Weekly
    } else if str_eq_ignore_case(raw_period.as_str(), "monthly") {
        Period::Monthly
    } else if str_eq_ignore_case(raw_period.as_str(), "yearly") {
        Period::Yearly
    } else {
        return Err(EngineError::UnknownPeriod);
    };
    let category: Category = if str_eq_ignore_case(raw_category.as_str(), "account_balance") {
        Category::AccountBalances
    } else if str_eq_ignore_case(raw_category.as_str(), "account_transfer") {
        Category::AccountTransfers
    } else if str_eq_ignore_case(raw_category.as_str(), "total_balance") {
        Category::TotalBalances
    } else if str_eq_ignore_case(raw_category.as_str(), "total_transfer") {
        Category::TotalTransfers
    } else if str_eq_ignore_case(raw_category.as_str(), "flow") {
        Category::Flow
    } else if str_eq_ignore_case(raw_category.as_str(), "flow_grouping") {
        Category::FlowGrouping
    } else if str_eq_ignore_case(raw_category.as_str(), "expenses") {
        Category::Expenses
    } else {
        return Err(EngineError::UnknownCategory);
    };
    Ok((period, category))
}

} // verus!
