//! The counting laws of the change tracker, stated and proved against
//! the scan semantics of `program`. Together with the contracts of
//! `Table`, `Statement::step` and `Connection::execute` they pin down
//! the observable accounting behaviour: a mutating statement counts
//! exactly the distinct rows its predicate matches, a no-op statement
//! counts nothing, and the cumulative counter is the sum of the folded
//! local counts.

use vstd::prelude::*;

use crate::program::Action;
use crate::program::Pred;
use crate::program::action_ok_row;
use crate::program::apply_action_row;
use crate::program::delete_scan;
use crate::program::has_other_with_id;
use crate::program::Op;
use crate::program::TableModel;
use crate::program::matched_count;
use crate::program::matched_from;
use crate::program::pred_matches;
use crate::program::op_apply;
use crate::program::op_count;
use crate::program::ops_count;
use crate::program::ops_ok;
use crate::program::update_scan;
use crate::tracker::sat64;
use crate::values::RowModel;

verus! {

/// How many rows match depends only on the rows from `c` on.
pub proof fn lemma_matched_from_congruence(rs1: Seq<RowModel>, rs2: Seq<RowModel>, p: Pred, c: int)
    requires
        rs1.len() == rs2.len(),
        forall|j: int| c <= j < rs1.len() ==> rs1[j] == rs2[j],
    ensures
        matched_from(rs1, p, c) == matched_from(rs2, p, c),
    decreases rs1.len() - c,
{
    if 0 <= c < rs1.len() {
        lemma_matched_from_congruence(rs1, rs2, p, c + 1);
    }
}

/// An update scan that runs without error changes exactly as many rows
/// as its predicate matches: each matched row counts once — also when
/// the action rewrites the row's own identifying key — and unmatched
/// rows count never.
pub proof fn lemma_update_count_is_matched(rs: Seq<RowModel>, p: Pred, a: Action, c: int)
    ensures
        update_scan(rs, p, a, c).2 ==> update_scan(rs, p, a, c).1 == matched_from(rs, p, c),
    decreases rs.len() - c,
{
    if !(0 <= c < rs.len()) {
    } else if !pred_matches(p, rs[c].id) {
        lemma_update_count_is_matched(rs, p, a, c + 1);
    } else if !action_ok_row(a, rs[c]) {
    } else {
        let r2 = apply_action_row(a, rs[c]);
        if !(r2.id != rs[c].id && has_other_with_id(rs, c, r2.id)) {
            let rs2 = rs.update(c, r2);
            lemma_update_count_is_matched(rs2, p, a, c + 1);
            lemma_matched_from_congruence(rs2, rs, p, c + 1);
        }
    }
}

/// Rewriting a row's own identifying key counts as exactly one change
/// for that row, never two: the count of a key-shifting update equals
/// the number of matched rows, exactly as for any other action.
pub proof fn lemma_key_shift_counts_once(rs: Seq<RowModel>, p: Pred, d: i64)
    ensures
        update_scan(rs, p, Action::ShiftId(d), 0).2 ==> update_scan(
            rs,
            p,
            Action::ShiftId(d),
            0,
        ).1 == matched_count(rs, p),
{
    lemma_update_count_is_matched(rs, p, Action::ShiftId(d), 0);
}

/// An update whose predicate matches no row leaves the table unchanged,
/// changes no count, and cannot fail.
pub proof fn lemma_update_no_match(rs: Seq<RowModel>, p: Pred, a: Action, c: int)
    requires
        matched_from(rs, p, c) == 0,
    ensures
        update_scan(rs, p, a, c) == (rs, 0 as nat, true),
    decreases rs.len() - c,
{
    if 0 <= c < rs.len() {
        lemma_update_no_match(rs, p, a, c + 1);
    }
}

/// Counting a suffix after a removal at its head is counting the
/// unremoved sequence one position later.
pub proof fn lemma_matched_from_remove(rs: Seq<RowModel>, p: Pred, c: int, j: int)
    requires
        0 <= c < rs.len(),
        c <= j,
    ensures
        matched_from(rs.remove(c), p, j) == matched_from(rs, p, j + 1),
    decreases rs.len() - j,
{
    let rs2 = rs.remove(c);
    if j < rs2.len() {
        assert(rs2[j] == rs[j + 1]);
        lemma_matched_from_remove(rs, p, c, j + 1);
    }
}

/// A delete scan removes — and counts — exactly the rows its predicate
/// matches.
pub proof fn lemma_delete_count_is_matched(rs: Seq<RowModel>, p: Pred, c: int)
    ensures
        delete_scan(rs, p, c).1 == matched_from(rs, p, c),
    decreases rs.len() - c, rs.len(),
{
    if !(0 <= c < rs.len()) {
    } else if pred_matches(p, rs[c].id) {
        lemma_delete_count_is_matched(rs.remove(c), p, c);
        lemma_matched_from_remove(rs, p, c, c);
    } else {
        lemma_delete_count_is_matched(rs, p, c + 1);
    }
}

/// The local change counts of a run of statements, summed exactly.
pub open spec fn sum_changes(cs: Seq<u64>) -> int
    decreases cs.len(),
{
    if cs.len() == 0 {
        0
    } else {
        cs[0] + sum_changes(cs.skip(1))
    }
}

/// The cumulative counter after folding each local count in turn, with
/// the engine's saturating fold.
pub open spec fn fold_changes(start: u64, cs: Seq<u64>) -> u64
    decreases cs.len(),
{
    if cs.len() == 0 {
        start
    } else {
        fold_changes(sat64(start + cs[0]), cs.skip(1))
    }
}

/// `total_changes()` after a sequence of completed statements equals
/// the sum of their local change counts at completion, whenever that
/// sum stays within range of the counter.
pub proof fn lemma_total_is_sum(start: u64, cs: Seq<u64>)
    requires
        start + sum_changes(cs) <= u64::MAX,
        forall|i: int| 0 <= i < cs.len() ==> cs[i] >= 0,
    ensures
        fold_changes(start, cs) == start + sum_changes(cs),
    decreases cs.len(),
{
    if cs.len() > 0 {
        lemma_sum_changes_nonneg(cs.skip(1));
        lemma_total_is_sum(sat64(start + cs[0]), cs.skip(1));
    }
}

/// The sum of the local counts is never negative.
pub proof fn lemma_sum_changes_nonneg(cs: Seq<u64>)
    ensures
        sum_changes(cs) >= 0,
    decreases cs.len(),
{
    if cs.len() > 0 {
        lemma_sum_changes_nonneg(cs.skip(1));
    }
}


/// A mutating statement of one update whose predicate matches `k`
/// distinct rows and that completes without error changes exactly `k`
/// rows: its local change count — and with it what `changes()` and the
/// fold into `total_changes()` report after completion — equals `k`.
pub proof fn lemma_update_statement_changes(t: TableModel, p: Pred, a: Action)
    ensures
        ({
            let ops = seq![(Op::UpdateWhere { pred: p, action: a })];
            ops_ok(t, ops, 0) ==> ops_count(t, ops, 0) == matched_count(t.rows, p)
        }),
{
    let ops = seq![(Op::UpdateWhere { pred: p, action: a })];
    if ops_ok(t, ops, 0) {
        lemma_update_count_is_matched(t.rows, p, a, 0);
        assert(ops_count(t, ops, 0) == op_count(t, ops[0]) + ops_count(
            op_apply(t, ops[0]),
            ops,
            1,
        ));
    }
}

} // verus!\n