//! Stable insertion sorts for snapshot records, pinned to specification-level
//! sort functions so every caller knows the exact output, not just that some
//! sorted permutation came back.

use vstd::prelude::*;
use crate::schema::{Expense, Transaction};

verus! {

/// Insert a transaction after every element on or before its date.
pub open spec fn spec_insert_tx(s: Seq<Transaction>, t: Transaction) -> Seq<Transaction>
    decreases s.len(),
{
    if s.len() == 0 {
        seq![t]
    } else if s.last().date.spec_le(t.date) {
        s.push(t)
    } else {
        spec_insert_tx(s.drop_last(), t).push(s.last())
    }
}

/// Stable insertion sort of transactions, ascending by date.
pub open spec fn spec_sort_txs(s: Seq<Transaction>) -> Seq<Transaction>
    decreases s.len(),
{
    if s.len() == 0 {
        Seq::empty()
    } else {
        spec_insert_tx(spec_sort_txs(s.drop_last()), s.last())
    }
}

/// Ascending (non-strictly) by date.
pub open spec fn sorted_txs(s: Seq<Transaction>) -> bool {
    forall|i: int, j: int|
        0 <= i <= j < s.len() ==> (#[trigger] s[i]).date.spec_le(#[trigger] s[j].date)
}

proof fn lemma_insert_tx_at(s: Seq<Transaction>, t: Transaction, j: int)
    requires
        0 <= j <= s.len(),
        forall|m: int| j <= m < s.len() ==> !(#[trigger] s[m]).date.spec_le(t.date),
        j > 0 ==> s[j - 1].date.spec_le(t.date),
    ensures
        spec_insert_tx(s, t) == s.insert(j, t),
    decreases s.len(),
{
    if j == s.len() {
        if s.len() == 0 {
            assert(spec_insert_tx(s, t) =~= s.insert(j, t));
        } else {
            assert(s.push(t) =~= s.insert(j, t));
        }
    } else {
        lemma_insert_tx_at(s.drop_last(), t, j);
        assert(s.drop_last().insert(j, t).push(s.last()) =~= s.insert(j, t));
    }
}

proof fn lemma_insert_tx_sorted(s: Seq<Transaction>, t: Transaction)
    requires
        sorted_txs(s),
    ensures
        sorted_txs(spec_insert_tx(s, t)),
        spec_insert_tx(s, t).len() == s.len() + 1,
    decreases s.len(),
{
    if s.len() == 0 {
    } else if s.last().date.spec_le(t.date) {
        let out = s.push(t);
        assert forall|i: int, j: int| 0 <= i <= j < out.len() implies (#[trigger] out[i]).date.spec_le(
            #[trigger] out[j].date,
        ) by {
            if j == out.len() - 1 && i < j {
                assert(s[i].date.spec_le(s.last().date));
            }
        }
    } else {
        lemma_insert_tx_sorted(s.drop_last(), t);
        let pre = spec_insert_tx(s.drop_last(), t);
        let out = pre.push(s.last());
        assert forall|i: int| 0 <= i < pre.len() implies (#[trigger] pre[i]).date.spec_le(
            s.last().date,
        ) by {
            lemma_insert_tx_elems(s.drop_last(), t, i);
        }
        assert forall|i: int, j: int| 0 <= i <= j < out.len() implies (#[trigger] out[i]).date.spec_le(
            #[trigger] out[j].date,
        ) by {
            if j < out.len() - 1 {
                assert(pre[i].date.spec_le(pre[j].date));
            } else if i < j {
                assert(pre[i].date.spec_le(s.last().date));
            }
        }
    }
}

/// Every element of an insertion result is one of the inserted pieces.
proof fn lemma_insert_tx_len(s: Seq<Transaction>, t: Transaction)
    ensures
        spec_insert_tx(s, t).len() == s.len() + 1,
    decreases s.len(),
{
    if s.len() > 0 && !s.last().date.spec_le(t.date) {
        lemma_insert_tx_len(s.drop_last(), t);
    }
}

proof fn lemma_insert_tx_elems(s: Seq<Transaction>, t: Transaction, i: int)
    requires
        0 <= i < spec_insert_tx(s, t).len(),
    ensures
        spec_insert_tx(s, t).len() == s.len() + 1,
        spec_insert_tx(s, t)[i] == t || exists|m: int|
            0 <= m < s.len() && spec_insert_tx(s, t)[i] == s[m]
                && (#[trigger] s[m]).date == s[m].date,
    decreases s.len(),
{
    lemma_insert_tx_len(s, t);
    if s.len() == 0 {
    } else if s.last().date.spec_le(t.date) {
    } else {
        lemma_insert_tx_len(s.drop_last(), t);
        if i < spec_insert_tx(s, t).len() - 1 {
            lemma_insert_tx_elems(s.drop_last(), t, i);
        }
    }
}

/// The specification-level sort is sorted.
pub proof fn lemma_sort_txs_sorted(s: Seq<Transaction>)
    ensures
        sorted_txs(spec_sort_txs(s)),
        spec_sort_txs(s).len() == s.len(),
    decreases s.len(),
{
    if s.len() > 0 {
        lemma_sort_txs_sorted(s.drop_last());
        lemma_insert_tx_sorted(spec_sort_txs(s.drop_last()), s.last());
    }
}

fn insert_tx(out: &mut Vec<Transaction>, t: Transaction)
    ensures
        final(out)@ == spec_insert_tx(old(out)@, t),
{
    let mut j: usize = out.len();
    while j > 0 && !crate::date::date_le(&out[j - 1].date, &t.date)
        invariant
            j <= out@.len(),
            forall|m: int| j <= m < out@.len() ==> !(#[trigger] out@[m]).date.spec_le(t.date),
        decreases j,
    {
        j = j - 1;
    }
    proof {
        lemma_insert_tx_at(out@, t, j as int);
    }
    out.insert(j, t);
}

/// Sort transactions ascending by date; equal dates keep their input order.
pub fn sort_transactions(txs: Vec<Transaction>) -> (r: Vec<Transaction>)
    ensures
        r@ == spec_sort_txs(txs@),
        sorted_txs(r@),
        r@.len() == txs@.len(),
{
    let ghost orig = txs@;
    let mut rest = txs;
    let mut out: Vec<Transaction> = Vec::new();
    proof {
        assert(orig.take(0) =~= Seq::<Transaction>::empty());
        assert(rest@ =~= orig.skip(0));
    }
    while rest.len() > 0
        invariant
            rest@.len() <= orig.len(),
            out@ == spec_sort_txs(orig.take(orig.len() - rest@.len())),
            rest@ == orig.skip(orig.len() - rest@.len()),
        decreases rest@.len(),
    {
        let ghost i = orig.len() - rest@.len();
        let t = rest.remove(0);
        proof {
            assert(t == orig[i as int]);
            assert(rest@ =~= orig.skip(i as int + 1));
            assert(orig.take(i as int + 1).drop_last() =~= orig.take(i as int));
            assert(orig.take(i as int + 1).last() == orig[i as int]);
        }
        insert_tx(&mut out, t);
    }
    proof {
        assert(orig.take(orig.len() as int) =~= orig);
        lemma_sort_txs_sorted(orig);
    }
    out
}

/// Insert an expense after every element on or before its date.
pub open spec fn spec_insert_exp(s: Seq<Expense>, t: Expense) -> Seq<Expense>
    decreases s.len(),
{
    if s.len() == 0 {
        seq![t]
    } else if s.last().date.spec_le(t.date) {
        s.push(t)
    } else {
        spec_insert_exp(s.drop_last(), t).push(s.last())
    }
}

/// Stable insertion sort of expenses, ascending by date.
pub open spec fn spec_sort_exps(s: Seq<Expense>) -> Seq<Expense>
    decreases s.len(),
{
    if s.len() == 0 {
        Seq::empty()
    } else {
        spec_insert_exp(spec_sort_exps(s.drop_last()), s.last())
    }
}

/// Ascending (non-strictly) by date.
pub open spec fn sorted_exps(s: Seq<Expense>) -> bool {
    forall|i: int, j: int|
        0 <= i <= j < s.len() ==> (#[trigger] s[i]).date.spec_le(#[trigger] s[j].date)
}

proof fn lemma_insert_exp_at(s: Seq<Expense>, t: Expense, j: int)
    requires
        0 <= j <= s.len(),
        forall|m: int| j <= m < s.len() ==> !(#[trigger] s[m]).date.spec_le(t.date),
        j > 0 ==> s[j - 1].date.spec_le(t.date),
    ensures
        spec_insert_exp(s, t) == s.insert(j, t),
    decreases s.len(),
{
    if j == s.len() {
        if s.len() == 0 {
            assert(spec_insert_exp(s, t) =~= s.insert(j, t));
        } else {
            assert(s.push(t) =~= s.insert(j, t));
        }
    } else {
        lemma_insert_exp_at(s.drop_last(), t, j);
        assert(s.drop_last().insert(j, t).push(s.last()) =~= s.insert(j, t));
    }
}

proof fn lemma_insert_exp_sorted(s: Seq<Expense>, t: Expense)
    requires
        sorted_exps(s),
    ensures
        sorted_exps(spec_insert_exp(s, t)),
        spec_insert_exp(s, t).len() == s.len() + 1,
    decreases s.len(),
{
    if s.len() == 0 {
    } else if s.last().date.spec_le(t.date) {
        let out = s.push(t);
        assert forall|i: int, j: int| 0 <= i <= j < out.len() implies (#[trigger] out[i]).date.spec_le(
            #[trigger] out[j].date,
        ) by {
            if j == out.len() - 1 && i < j {
                assert(s[i].date.spec_le(s.last().date));
            }
        }
    } else {
        lemma_insert_exp_sorted(s.drop_last(), t);
        let pre = spec_insert_exp(s.drop_last(), t);
        let out = pre.push(s.last());
        assert forall|i: int| 0 <= i < pre.len() implies (#[trigger] pre[i]).date.spec_le(
            s.last().date,
        ) by {
            lemma_insert_exp_elems(s.drop_last(), t, i);
        }
        assert forall|i: int, j: int| 0 <= i <= j < out.len() implies (#[trigger] out[i]).date.spec_le(
            #[trigger] out[j].date,
        ) by {
            if j < out.len() - 1 {
                assert(pre[i].date.spec_le(pre[j].date));
            } else if i < j {
                assert(pre[i].date.spec_le(s.last().date));
            }
        }
    }
}

proof fn lemma_insert_exp_len(s: Seq<Expense>, t: Expense)
    ensures
        spec_insert_exp(s, t).len() == s.len() + 1,
    decreases s.len(),
{
    if s.len() > 0 && !s.last().date.spec_le(t.date) {
        lemma_insert_exp_len(s.drop_last(), t);
    }
}

proof fn lemma_insert_exp_elems(s: Seq<Expense>, t: Expense, i: int)
    requires
        0 <= i < spec_insert_exp(s, t).len(),
    ensures
        spec_insert_exp(s, t).len() == s.len() + 1,
        spec_insert_exp(s, t)[i] == t || exists|m: int|
            0 <= m < s.len() && spec_insert_exp(s, t)[i] == s[m]
                && (#[trigger] s[m]).date == s[m].date,
    decreases s.len(),
{
    lemma_insert_exp_len(s, t);
    if s.len() == 0 {
    } else if s.last().date.spec_le(t.date) {
    } else {
        lemma_insert_exp_len(s.drop_last(), t);
        if i < spec_insert_exp(s, t).len() - 1 {
            lemma_insert_exp_elems(s.drop_last(), t, i);
        }
    }
}

/// The specification-level sort is sorted.
pub proof fn lemma_sort_exps_sorted(s: Seq<Expense>)
    ensures
        sorted_exps(spec_sort_exps(s)),
        spec_sort_exps(s).len() == s.len(),
    decreases s.len(),
{
    if s.len() > 0 {
        lemma_sort_exps_sorted(s.drop_last());
        lemma_insert_exp_sorted(spec_sort_exps(s.drop_last()), s.last());
    }
}

fn insert_exp(out: &mut Vec<Expense>, t: Expense)
    ensures
        final(out)@ == spec_insert_exp(old(out)@, t),
{
    let mut j: usize = out.len();
    while j > 0 && !crate::date::date_le(&out[j - 1].date, &t.date)
        invariant
            j <= out@.len(),
            forall|m: int| j <= m < out@.len() ==> !(#[trigger] out@[m]).date.spec_le(t.date),
        decreases j,
    {
        j = j - 1;
    }
    proof {
        lemma_insert_exp_at(out@, t, j as int);
    }
    out.insert(j, t);
}

/// Sort expenses ascending by date; equal dates keep their input order.
pub fn sort_expenses(exps: Vec<Expense>) -> (r: Vec<Expense>)
    ensures
        r@ == spec_sort_exps(exps@),
        sorted_exps(r@),
        r@.len() == exps@.len(),
{
    let ghost orig = exps@;
    let mut rest = exps;
    let mut out: Vec<Expense> = Vec::new();
    proof {
        assert(orig.take(0) =~= Seq::<Expense>::empty());
        assert(rest@ =~= orig.skip(0));
    }
    while rest.len() > 0
        invariant
            rest@.len() <= orig.len(),
            out@ == spec_sort_exps(orig.take(orig.len() - rest@.len())),
            rest@ == orig.skip(orig.len() - rest@.len()),
        decreases rest@.len(),
    {
        let ghost i = orig.len() - rest@.len();
        let t = rest.remove(0);
        proof {
            assert(t == orig[i as int]);
            assert(rest@ =~= orig.skip(i as int + 1));
            assert(orig.take(i as int + 1).drop_last() =~= orig.take(i as int));
            assert(orig.take(i as int + 1).last() == orig[i as int]);
        }
        insert_exp(&mut out, t);
    }
    proof {
        assert(orig.take(orig.len() as int) =~= orig);
        lemma_sort_exps_sorted(orig);
    }
    out
}

} // verus!
