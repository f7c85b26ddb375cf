//! The categorical reducer: maps per-account running values into coarse
//! financial categories (total types), computes the account-independent
//! `Net` aggregate, and folds total types further into flow groups.

use vstd::prelude::*;
use vstd::pervasive::VecAdditionalExecFns;
use crate::engine::{i64s, in_i64, zero_slots};
use crate::schema::{Account, AccountType, EngineError};

verus! {

/// Coarse financial category derived from an account's type, plus the
/// account-independent `Net` aggregate.
#[derive(Clone, Copy, Debug, PartialEq, Eq, Structural, Hash)]
pub enum TotalType {
    Income,
    Net,
    Cash,
    ShortTermAsset,
    LongTermAsset,
    PhysicalAsset,
    Retirement,
    ShortTermLiability,
    LongTermLiability,
}

/// Coarser grouping of total types, separating real gain or loss from cash
/// movement.
#[derive(Clone, Copy, Debug, PartialEq, Eq, Structural, Hash)]
pub enum FlowGroupType {
    Net,
    Income,
    Cash,
    Gain,
    Appreciation,
}

/// The total type of an account type.
pub open spec fn spec_total_type(at: AccountType) -> TotalType {
    match at {
        AccountType::Savings => TotalType::ShortTermAsset,
        AccountType::Checking => TotalType::Cash,
        AccountType::Loan => TotalType::LongTermLiability,
        AccountType::CreditCard => TotalType::ShortTermLiability,
        AccountType::Investment => TotalType::LongTermAsset,
        AccountType::Retirement => TotalType::Retirement,
        AccountType::PhysicalAsset => TotalType::PhysicalAsset,
        AccountType::External => TotalType::Income,
    }
}

/// The total type an account's running value is summed into.
pub fn total_type_from_account_type(account_type: &AccountType) -> (r: TotalType)
    ensures
        r == spec_total_type(*account_type),
{
    match account_type {
        AccountType::Savings => TotalType::ShortTermAsset,
        AccountType::Checking => TotalType::Cash,
        AccountType::Loan => TotalType::LongTermLiability,
        AccountType::CreditCard => TotalType::ShortTermLiability,
        AccountType::Investment => TotalType::LongTermAsset,
        AccountType::Retirement => TotalType::Retirement,
        AccountType::PhysicalAsset => TotalType::PhysicalAsset,
        AccountType::External => TotalType::Income,
    }
}

/// The total type of an account.
pub fn total_type_from_account(account: &Account) -> (r: TotalType)
    ensures
        r == spec_total_type(account.account_type),
{
    total_type_from_account_type(&account.account_type)
}

/// The flow group a total type folds into.
pub open spec fn spec_flow_group(t: TotalType) -> FlowGroupType {
    match t {
        TotalType::Net => FlowGroupType::Net,
        TotalType::Income => FlowGroupType::Income,
        TotalType::Cash => FlowGroupType::Cash,
        TotalType::ShortTermAsset => FlowGroupType::Gain,
        TotalType::LongTermAsset => FlowGroupType::Gain,
        TotalType::PhysicalAsset => FlowGroupType::Appreciation,
        TotalType::Retirement => FlowGroupType::Gain,
        TotalType::ShortTermLiability => FlowGroupType::Gain,
        TotalType::LongTermLiability => FlowGroupType::Gain,
    }
}

/// The flow group a total type's flow value is summed into.
pub fn flow_grouping_type_from_total_type(total_type: &TotalType) -> (r: FlowGroupType)
    ensures
        r == spec_flow_group(*total_type),
{
    match total_type {
        TotalType::Net => FlowGroupType::Net,
        TotalType::Income => FlowGroupType::Income,
        TotalType::Cash => FlowGroupType::Cash,
        TotalType::ShortTermAsset => FlowGroupType::Gain,
        TotalType::LongTermAsset => FlowGroupType::Gain,
        TotalType::PhysicalAsset => FlowGroupType::Appreciation,
        TotalType::Retirement => FlowGroupType::Gain,
        TotalType::ShortTermLiability => FlowGroupType::Gain,
        TotalType::LongTermLiability => FlowGroupType::Gain,
    }
}

/// The fixed emission order of total types in a report row.
pub open spec fn total_type_at(j: int) -> TotalType {
    if j == 0 {
        TotalType::Income
    } else if j == 1 {
        TotalType::Net
    } else if j == 2 {
        TotalType::Cash
    } else if j == 3 {
        TotalType::ShortTermAsset
    } else if j == 4 {
        TotalType::LongTermAsset
    } else if j == 5 {
        TotalType::PhysicalAsset
    } else if j == 6 {
        TotalType::Retirement
    } else if j == 7 {
        TotalType::ShortTermLiability
    } else {
        TotalType::LongTermLiability
    }
}

/// The emission index of a total type.
pub fn total_type_index(t: &TotalType) -> (r: usize)
    ensures
        r < 9,
        total_type_at(r as int) == t,
{
    match t {
        TotalType::Income => 0,
        TotalType::Net => 1,
        TotalType::Cash => 2,
        TotalType::ShortTermAsset => 3,
        TotalType::LongTermAsset => 4,
        TotalType::PhysicalAsset => 5,
        TotalType::Retirement => 6,
        TotalType::ShortTermLiability => 7,
        TotalType::LongTermLiability => 8,
    }
}

/// The fixed emission order of flow groups in a report row.
pub open spec fn flow_group_at(g: int) -> FlowGroupType {
    if g == 0 {
        FlowGroupType::Net
    } else if g == 1 {
        FlowGroupType::Income
    } else if g == 2 {
        FlowGroupType::Cash
    } else if g == 3 {
        FlowGroupType::Gain
    } else {
        FlowGroupType::Appreciation
    }
}

/// The emission index of a flow group.
pub fn flow_group_index(g: &FlowGroupType) -> (r: usize)
    ensures
        r < 5,
        flow_group_at(r as int) == g,
{
    match g {
        FlowGroupType::Net => 0,
        FlowGroupType::Income => 1,
        FlowGroupType::Cash => 2,
        FlowGroupType::Gain => 3,
        FlowGroupType::Appreciation => 4,
    }
}

/// The report name of a total type.
pub open spec fn spec_total_type_name(t: TotalType) -> Seq<char> {
    match t {
        TotalType::Income => "INCOME"@,
        TotalType::Net => "NET"@,
        TotalType::Cash => "CASH"@,
        TotalType::ShortTermAsset => "SHORT_TERM_ASSET"@,
        TotalType::LongTermAsset => "LONG_TERM_ASSET"@,
        TotalType::PhysicalAsset => "PHYSICAL_ASSET"@,
        TotalType::Retirement => "RETIREMENT_ASSET"@,
        TotalType::ShortTermLiability => "SHORT_TERM_LIABILITY"@,
        TotalType::LongTermLiability => "LONG_TERM_LIABILITY"@,
    }
}

/// The report name of a total type.
pub fn total_type_name(t: &TotalType) -> (r: String)
    ensures
        r@ == spec_total_type_name(*t),
{
    match t {
        TotalType::Income => "INCOME".to_owned(),
        TotalType::Net => "NET".to_owned(),
        TotalType::Cash => "CASH".to_owned(),
        TotalType::ShortTermAsset => "SHORT_TERM_ASSET".to_owned(),
        TotalType::LongTermAsset => "LONG_TERM_ASSET".to_owned(),
        TotalType::PhysicalAsset => "PHYSICAL_ASSET".to_owned(),
        TotalType::Retirement => "RETIREMENT_ASSET".to_owned(),
        TotalType::ShortTermLiability => "SHORT_TERM_LIABILITY".to_owned(),
        TotalType::LongTermLiability => "LONG_TERM_LIABILITY".to_owned(),
    }
}

/// The report name of a flow group.
pub open spec fn spec_flow_group_name(g: FlowGroupType) -> Seq<char> {
    match g {
        FlowGroupType::Net => "NET"@,
        FlowGroupType::Income => "INCOME"@,
        FlowGroupType::Cash => "CASH"@,
        FlowGroupType::Gain => "GAIN"@,
        FlowGroupType::Appreciation => "APPRECIATION"@,
    }
}

/// The report name of a flow group.
pub fn flow_group_name(g: &FlowGroupType) -> (r: String)
    ensures
        r@ == spec_flow_group_name(*g),
{
    match g {
        FlowGroupType::Net => "NET".to_owned(),
        FlowGroupType::Income => "INCOME".to_owned(),
        FlowGroupType::Cash => "CASH".to_owned(),
        FlowGroupType::Gain => "GAIN".to_owned(),
        FlowGroupType::Appreciation => "APPRECIATION".to_owned(),
    }
}

/// The account types of the snapshot, in account order.
pub open spec fn types_of(accounts: Seq<Account>) -> Seq<AccountType> {
    Seq::new(accounts.len(), |i: int| accounts[i].account_type)
}

/// Collect the account types in account order.
pub fn account_types(accounts: &Vec<Account>) -> (r: Vec<AccountType>)
    ensures
        r@ == types_of(accounts@),
{
    let mut out: Vec<AccountType> = Vec::new();
    let mut i: usize = 0;
    while i < accounts.len()
        invariant
            i <= accounts@.len(),
            out@.len() == i,
            forall|j: int| 0 <= j < i ==> out@[j] == accounts@[j].account_type,
        decreases accounts@.len() - i,
    {
        out.push(accounts[i].account_type);
        i = i + 1;
    }
    proof {
        assert(out@ =~= types_of(accounts@));
    }
    out
}

/// The partial reduction of the first `k` accounts into total-type bucket
/// `j`; the `Net` bucket sums every account.
pub open spec fn reduce_partial(slots: Seq<int>, types: Seq<AccountType>, j: int, k: int) -> int
    decreases k,
{
    if k <= 0 {
        0
    } else {
        reduce_partial(slots, types, j, k - 1) + if total_type_at(j) == TotalType::Net
            || spec_total_type(types[k - 1]) == total_type_at(j) {
            slots[k - 1]
        } else {
            0
        }
    }
}

/// The nine total-type sums of a running-value snapshot.
pub open spec fn spec_reduce(slots: Seq<int>, types: Seq<AccountType>) -> Seq<int> {
    Seq::new(9, |j: int| reduce_partial(slots, types, j, slots.len() as int))
}

/// Every partial reduction stays in the fixed-point range.
pub open spec fn reduce_fits(slots: Seq<int>, types: Seq<AccountType>) -> bool {
    forall|j: int, k: int|
        0 <= j < 9 && 0 <= k <= slots.len() ==> in_i64(#[trigger] reduce_partial(slots, types, j, k))
}

proof fn lemma_total_type_not_net(at: AccountType)
    ensures
        spec_total_type(at) != TotalType::Net,
{
}

/// Sum each account's running value into its total-type bucket and into the
/// `Net` bucket. Fails with `ValueOverflow` exactly when a partial sum would
/// leave the fixed-point range.
pub fn reduce_totals(slots: &Vec<i64>, types: &Vec<AccountType>) -> (r: Result<
    Vec<i64>,
    EngineError,
>)
    requires
        slots@.len() == types@.len(),
    ensures
        match r {
            Ok(v) => {
                &&& v@.len() == 9
                &&& i64s(v@) == spec_reduce(i64s(slots@), types@)
                &&& reduce_fits(i64s(slots@), types@)
            },
            Err(e) => {
                &&& e == EngineError::ValueOverflow
                &&& !reduce_fits(i64s(slots@), types@)
            },
        },
{
    let ghost gslots = i64s(slots@);
    let n = slots.len();
    let mut accs: Vec<i64> = crate::engine::zero_vec(9);
    let mut k: usize = 0;
    proof {
        assert forall|j: int| 0 <= j < 9 implies accs@[j] as int == reduce_partial(
            gslots,
            types@,
            j,
            0,
        ) by {
            assert(i64s(accs@)[j] == zero_slots(9)[j]);
        }
    }
    while k < n
        invariant
            k <= n,
            n == slots@.len(),
            n == types@.len(),
            gslots == i64s(slots@),
            accs@.len() == 9,
            forall|j: int| 0 <= j < 9 ==> accs@[j] as int == reduce_partial(gslots, types@, j, k as int),
            forall|j: int, m: int|
                0 <= j < 9 && 0 <= m <= k ==> in_i64(
                    #[trigger] reduce_partial(gslots, types@, j, m),
                ),
        decreases n - k,
    {
        let tt = total_type_from_account_type(&types[k]);
        let j = total_type_index(&tt);
        proof {
            lemma_total_type_not_net(types@[k as int]);
        }
        let v: i64 = slots[k];
        match accs[j].checked_add(v) {
            None => {
                proof {
                    assert(reduce_partial(gslots, types@, j as int, k as int + 1)
                        == reduce_partial(gslots, types@, j as int, k as int) + gslots[k as int]);
                }
                return Err(EngineError::ValueOverflow);
            },
            Some(a) => {
                accs.set(j, a);
            },
        }
        match accs[1].checked_add(v) {
            None => {
                proof {
                    assert(total_type_at(1) == TotalType::Net);
                    assert(reduce_partial(gslots, types@, 1, k as int + 1) == reduce_partial(
                        gslots,
                        types@,
                        1,
                        k as int,
                    ) + gslots[k as int]);
                }
                return Err(EngineError::ValueOverflow);
            },
            Some(a) => {
                accs.set(1, a);
            },
        }
        k = k + 1;
        proof {
            assert forall|jj: int| 0 <= jj < 9 implies accs@[jj] as int == reduce_partial(
                gslots,
                types@,
                jj,
                k as int,
            ) by {
                assert(reduce_partial(gslots, types@, jj, k as int) == reduce_partial(
                    gslots,
                    types@,
                    jj,
                    k as int - 1,
                ) + if total_type_at(jj) == TotalType::Net || spec_total_type(
                    types@[k as int - 1],
                ) == total_type_at(jj) {
                    gslots[k as int - 1]
                } else {
                    0
                });
            }
            assert forall|jj: int, m: int| 0 <= jj < 9 && 0 <= m <= k implies in_i64(
                #[trigger] reduce_partial(gslots, types@, jj, m),
            ) by {
                if m == k as int {
                    assert(accs@[jj] as int == reduce_partial(gslots, types@, jj, m));
                }
            }
        }
    }
    proof {
        assert(i64s(accs@) =~= spec_reduce(gslots, types@));
    }
    Ok(accs)
}

/// The per-type flow of one bucket: balance total minus transfer total, the
/// portion of balance change not explained by money movement.
pub open spec fn spec_flow_vals(b9: Seq<int>, t9: Seq<int>) -> Seq<int> {
    Seq::new(9, |j: int| b9[j] - t9[j])
}

/// Every per-type flow stays in the fixed-point range.
pub open spec fn flow_vals_fit(b9: Seq<int>, t9: Seq<int>) -> bool {
    forall|j: int| 0 <= j < 9 ==> in_i64(#[trigger] b9[j] - t9[j])
}

/// Subtract transfer totals from balance totals, per total type.
pub fn flow_vals(b9: &Vec<i64>, t9: &Vec<i64>) -> (r: Result<Vec<i64>, EngineError>)
    requires
        b9@.len() == 9,
        t9@.len() == 9,
    ensures
        match r {
            Ok(v) => {
                &&& v@.len() == 9
                &&& i64s(v@) == spec_flow_vals(i64s(b9@), i64s(t9@))
                &&& flow_vals_fit(i64s(b9@), i64s(t9@))
            },
            Err(e) => {
                &&& e == EngineError::ValueOverflow
                &&& !flow_vals_fit(i64s(b9@), i64s(t9@))
            },
        },
{
    let mut out: Vec<i64> = Vec::new();
    let mut j: usize = 0;
    while j < 9
        invariant
            j <= 9,
            b9@.len() == 9,
            t9@.len() == 9,
            out@.len() == j,
            forall|m: int| 0 <= m < j ==> out@[m] as int == b9@[m] as int - t9@[m] as int,
            forall|m: int| 0 <= m < j ==> in_i64(i64s(b9@)[m] - i64s(t9@)[m]),
        decreases 9 - j,
    {
        match b9[j].checked_sub(t9[j]) {
            None => {
                proof {
                    assert(!in_i64(i64s(b9@)[j as int] - i64s(t9@)[j as int]));
                }
                return Err(EngineError::ValueOverflow);
            },
            Some(v) => {
                out.push(v);
            },
        }
        j = j + 1;
    }
    proof {
        assert(i64s(out@) =~= spec_flow_vals(i64s(b9@), i64s(t9@)));
    }
    Ok(out)
}

/// The partial fold of the first `k` total-type flows into flow group `g`.
pub open spec fn group_partial(flow9: Seq<int>, g: int, k: int) -> int
    decreases k,
{
    if k <= 0 {
        0
    } else {
        group_partial(flow9, g, k - 1) + if spec_flow_group(total_type_at(k - 1)) == flow_group_at(
            g,
        ) {
            flow9[k - 1]
        } else {
            0
        }
    }
}

/// The five flow-group sums of one bucket's flows.
pub open spec fn spec_group_vals(flow9: Seq<int>) -> Seq<int> {
    Seq::new(5, |g: int| group_partial(flow9, g, 9))
}

/// Every partial flow-group sum stays in the fixed-point range.
pub open spec fn group_vals_fit(flow9: Seq<int>) -> bool {
    forall|g: int, k: int| 0 <= g < 5 && 0 <= k <= 9 ==> in_i64(#[trigger] group_partial(flow9, g, k))
}

/// Fold the nine per-type flows into the five flow groups.
pub fn group_vals(flow9: &Vec<i64>) -> (r: Result<Vec<i64>, EngineError>)
    requires
        flow9@.len() == 9,
    ensures
        match r {
            Ok(v) => {
                &&& v@.len() == 5
                &&& i64s(v@) == spec_group_vals(i64s(flow9@))
                &&& group_vals_fit(i64s(flow9@))
            },
            Err(e) => {
                &&& e == EngineError::ValueOverflow
                &&& !group_vals_fit(i64s(flow9@))
            },
        },
{
    let ghost gf = i64s(flow9@);
    let mut accs: Vec<i64> = crate::engine::zero_vec(5);
    let mut k: usize = 0;
    proof {
        assert forall|g: int| 0 <= g < 5 implies accs@[g] as int == group_partial(gf, g, 0) by {
            assert(i64s(accs@)[g] == zero_slots(5)[g]);
        }
    }
    while k < 9
        invariant
            k <= 9,
            flow9@.len() == 9,
            gf == i64s(flow9@),
            accs@.len() == 5,
            forall|g: int| 0 <= g < 5 ==> accs@[g] as int == group_partial(gf, g, k as int),
            forall|g: int, m: int|
                0 <= g < 5 && 0 <= m <= k ==> in_i64(#[trigger] group_partial(gf, g, m)),
        decreases 9 - k,
    {
        let tt = match k {
            0 => TotalType::Income,
            1 => TotalType::Net,
            2 => TotalType::Cash,
            3 => TotalType::ShortTermAsset,
            4 => TotalType::LongTermAsset,
            5 => TotalType::PhysicalAsset,
            6 => TotalType::Retirement,
            7 => TotalType::ShortTermLiability,
            _ => TotalType::LongTermLiability,
        };
        proof {
            assert(tt == total_type_at(k as int));
        }
        let fg = flow_grouping_type_from_total_type(&tt);
        let g = flow_group_index(&fg);
        match accs[g].checked_add(flow9[k]) {
            None => {
                proof {
                    assert(group_partial(gf, g as int, k as int + 1) == group_partial(
                        gf,
                        g as int,
                        k as int,
                    ) + gf[k as int]);
                }
                return Err(EngineError::ValueOverflow);
            },
            Some(a) => {
                accs.set(g, a);
            },
        }
        k = k + 1;
        proof {
            assert forall|gg: int| 0 <= gg < 5 implies accs@[gg] as int == group_partial(
                gf,
                gg,
                k as int,
            ) by {
                assert(group_partial(gf, gg, k as int) == group_partial(gf, gg, k as int - 1)
                    + if spec_flow_group(total_type_at(k as int - 1)) == flow_group_at(gg) {
                    gf[k as int - 1]
                } else {
                    0
                });
            }
            assert forall|gg: int, m: int| 0 <= gg < 5 && 0 <= m <= k implies in_i64(
                #[trigger] group_partial(gf, gg, m),
            ) by {
                if m == k as int {
                    assert(accs@[gg] as int == group_partial(gf, gg, m));
                }
            }
        }
    }
    proof {
        assert(i64s(accs@) =~= spec_group_vals(gf));
    }
    Ok(accs)
}

} // verus!
