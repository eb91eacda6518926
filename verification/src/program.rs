//! Compiled programs: predicates, row actions, operations, and their
//! mathematical semantics. A compiled program is an ordered sequence of
//! operations; the step machine in `machine` drives it forward, and the
//! spec functions here say exactly what each operation does to the table,
//! how many distinct rows it changes, and which rows it emits.

use vstd::prelude::*;

use crate::values::Row;
use crate::values::RowModel;
use crate::values::Value;
use crate::values::row_model;
use crate::values::value_model;

verus! {

/// A row-selection predicate over the row identity (primary key / rowid).
#[derive(Debug, Clone, Copy)]
pub enum Pred {
    All,
    IdEq(i64),
    IdLe(i64),
    IdBetween(i64, i64),
}

pub open spec fn pred_matches(p: Pred, id: int) -> bool {
    match p {
        Pred::All => true,
        Pred::IdEq(k) => id == k as int,
        Pred::IdLe(k) => id <= k as int,
        Pred::IdBetween(a, b) => a as int <= id && id <= b as int,
    }
}

impl Pred {
    pub fn eval(&self, id: i64) -> (b: bool)
        ensures
            b == pred_matches(*self, id as int),
    {
        match self {
            Pred::All => true,
            Pred::IdEq(k) => id == *k,
            Pred::IdLe(k) => id <= *k,
            Pred::IdBetween(a, b) => *a <= id && id <= *b,
        }
    }
}

/// What an update does to each matched row: overwrite one column, or
/// shift the row's own identifying key by a delta.
#[derive(Debug)]
pub enum Action {
    SetColumn(usize, Value),
    ShiftId(i64),
}

/// The model of a matched row after the action is applied.
pub open spec fn apply_action_row(a: Action, r: RowModel) -> RowModel {
    match a {
        Action::SetColumn(c, v) => RowModel { id: r.id, vals: r.vals.update(c as int, value_model(v)) },
        Action::ShiftId(d) => RowModel { id: r.id + d as int, vals: r.vals },
    }
}

/// Whether the action can be applied to this row without overflowing
/// the row-identity type.
pub open spec fn action_ok_row(a: Action, r: RowModel) -> bool {
    match a {
        Action::SetColumn(_, _) => true,
        Action::ShiftId(d) => i64::MIN <= r.id + d as int <= i64::MAX,
    }
}

/// Whether some row other than the one at position `c` carries identity `id`.
pub open spec fn has_other_with_id(rs: Seq<RowModel>, c: int, id: int) -> bool {
    exists|j: int| 0 <= j < rs.len() && j != c && rs[j].id == id
}

/// Whether some row carries identity `id`.
pub open spec fn contains_id(rs: Seq<RowModel>, id: int) -> bool {
    exists|j: int| 0 <= j < rs.len() && rs[j].id == id
}

/// Row identities are pairwise distinct.
pub open spec fn unique_ids(rs: Seq<RowModel>) -> bool {
    forall|i: int, j: int| 0 <= i < j < rs.len() ==> rs[i].id != rs[j].id
}

/// Every row has exactly `w` non-key columns.
pub open spec fn uniform_arity(rs: Seq<RowModel>, w: nat) -> bool {
    forall|i: int| 0 <= i < rs.len() ==> rs[i].vals.len() == w
}

/// The update scan, position by position from `c`: a matched row is
/// rewritten in place; a key-shifting rewrite whose new identity would
/// collide with another row, or would overflow, stops the scan with an
/// error. Returns the table after the scan, the number of rows changed,
/// and whether the scan ran to the end without error.
pub open spec fn update_scan(rs: Seq<RowModel>, p: Pred, a: Action, c: int) -> (Seq<
    RowModel,
>, nat, bool)
    decreases rs.len() - c,
{
    if !(0 <= c < rs.len()) {
        (rs, 0 as nat, true)
    } else if !pred_matches(p, rs[c].id) {
        update_scan(rs, p, a, c + 1)
    } else if !action_ok_row(a, rs[c]) {
        (rs, 0 as nat, false)
    } else {
        let r2 = apply_action_row(a, rs[c]);
        if r2.id != rs[c].id && has_other_with_id(rs, c, r2.id) {
            (rs, 0 as nat, false)
        } else {
            let rest = update_scan(rs.update(c, r2), p, a, c + 1);
            (rest.0, (rest.1 + 1) as nat, rest.2)
        }
    }
}

/// The delete scan from position `c`: a matched row is removed and the
/// scan stays at the same position; an unmatched row is passed over.
/// Returns the table after the scan and the number of rows removed.
pub open spec fn delete_scan(rs: Seq<RowModel>, p: Pred, c: int) -> (Seq<RowModel>, nat)
    decreases rs.len() - c,
{
    if !(0 <= c < rs.len()) {
        (rs, 0 as nat)
    } else if pred_matches(p, rs[c].id) {
        let rest = delete_scan(rs.remove(c), p, c);
        (rest.0, (rest.1 + 1) as nat)
    } else {
        delete_scan(rs, p, c + 1)
    }
}

/// The rows matched by `p` from position `c` on, in table order.
pub open spec fn matched_rows(rs: Seq<RowModel>, p: Pred, c: int) -> Seq<RowModel>
    decreases rs.len() - c,
{
    if !(0 <= c < rs.len()) {
        Seq::empty()
    } else if pred_matches(p, rs[c].id) {
        seq![rs[c]] + matched_rows(rs, p, c + 1)
    } else {
        matched_rows(rs, p, c + 1)
    }
}

/// The number of rows matched by `p` from position `c` on.
pub open spec fn matched_from(rs: Seq<RowModel>, p: Pred, c: int) -> nat
    decreases rs.len() - c,
{
    if !(0 <= c < rs.len()) {
        0 as nat
    } else if pred_matches(p, rs[c].id) {
        (1 + matched_from(rs, p, c + 1)) as nat
    } else {
        matched_from(rs, p, c + 1)
    }
}

/// The number of rows of the table matched by `p`. With pairwise
/// distinct identities this is the number of distinct matched rows.
pub open spec fn matched_count(rs: Seq<RowModel>, p: Pred) -> nat {
    matched_from(rs, p, 0)
}

/// One operation of a compiled program.
#[derive(Debug)]
pub enum Op {
    /// Replace the stored table by an empty one with `width` non-key columns.
    CreateTable { width: usize },
    /// Insert one row; its identity must be fresh.
    InsertRow { row: Row },
    /// Rewrite every row matched by `pred` according to `action`.
    UpdateWhere { pred: Pred, action: Action },
    /// Remove every row matched by `pred`.
    DeleteWhere { pred: Pred },
    /// Emit every row matched by `pred`, one per step, in table order.
    SelectWhere { pred: Pred },
}

/// The mathematical model of the stored table: its column width and its rows.
pub struct TableModel {
    pub width: nat,
    pub rows: Seq<RowModel>,
}

/// Well-formedness of a stored table: distinct row identities and a
/// uniform column width.
pub open spec fn table_wf(t: TableModel) -> bool {
    &&& unique_ids(t.rows)
    &&& uniform_arity(t.rows, t.width)
}

/// Whether one operation is well formed against a table of width `w`.
pub open spec fn op_valid(w: nat, op: Op) -> bool {
    match op {
        Op::CreateTable { width } => true,
        Op::InsertRow { row } => row.vals@.len() == w,
        Op::UpdateWhere { pred, action } => match action {
            Action::SetColumn(c, _) => (c as nat) < w,
            Action::ShiftId(_) => true,
        },
        Op::DeleteWhere { pred } => true,
        Op::SelectWhere { pred } => true,
    }
}

/// The table width after the operation (only table creation changes it).
pub open spec fn op_next_width(w: nat, op: Op) -> nat {
    match op {
        Op::CreateTable { width } => width as nat,
        _ => w,
    }
}

/// Whether the tail of the program starting at `i` is well formed
/// against a table of width `w`, tracking width changes through it.
pub open spec fn ops_valid(w: nat, ops: Seq<Op>, i: int) -> bool
    decreases ops.len() - i,
{
    if !(0 <= i < ops.len()) {
        true
    } else {
        op_valid(w, ops[i]) && ops_valid(op_next_width(w, ops[i]), ops, i + 1)
    }
}

/// Whether the operation runs to completion without a constraint error
/// on the given table.
pub open spec fn op_ok(t: TableModel, op: Op) -> bool {
    match op {
        Op::CreateTable { width } => true,
        Op::InsertRow { row } => !contains_id(t.rows, row.id as int),
        Op::UpdateWhere { pred, action } => update_scan(t.rows, pred, action, 0).2,
        Op::DeleteWhere { pred } => true,
        Op::SelectWhere { pred } => true,
    }
}

/// The table after the operation. For an operation that stops with a
/// constraint error this is the table at the point of the error.
pub open spec fn op_apply(t: TableModel, op: Op) -> TableModel {
    match op {
        Op::CreateTable { width } => TableModel { width: width as nat, rows: Seq::empty() },
        Op::InsertRow { row } => if contains_id(t.rows, row.id as int) {
            t
        } else {
            TableModel { width: t.width, rows: t.rows.push(row_model(row)) }
        },
        Op::UpdateWhere { pred, action } => TableModel {
            width: t.width,
            rows: update_scan(t.rows, pred, action, 0).0,
        },
        Op::DeleteWhere { pred } => TableModel {
            width: t.width,
            rows: delete_scan(t.rows, pred, 0).0,
        },
        Op::SelectWhere { pred } => t,
    }
}

/// The number of distinct rows the operation changes.
pub open spec fn op_count(t: TableModel, op: Op) -> nat {
    match op {
        Op::CreateTable { width } => 0 as nat,
        Op::InsertRow { row } => if contains_id(t.rows, row.id as int) {
            0 as nat
        } else {
            1 as nat
        },
        Op::UpdateWhere { pred, action } => update_scan(t.rows, pred, action, 0).1,
        Op::DeleteWhere { pred } => delete_scan(t.rows, pred, 0).1,
        Op::SelectWhere { pred } => 0 as nat,
    }
}

/// The rows the operation emits to the caller.
pub open spec fn op_emits(t: TableModel, op: Op) -> Seq<RowModel> {
    match op {
        Op::SelectWhere { pred } => matched_rows(t.rows, pred, 0),
        _ => Seq::empty(),
    }
}

/// Whether the operation is a mutating one (insert, update or delete).
pub open spec fn op_mutating(op: Op) -> bool {
    match op {
        Op::InsertRow { .. } => true,
        Op::UpdateWhere { .. } => true,
        Op::DeleteWhere { .. } => true,
        _ => false,
    }
}

/// Whether the program holds any mutating operation: only such a
/// statement publishes its local change count to the connection's
/// most-recent-changes report.
pub open spec fn ops_mutating(ops: Seq<Op>) -> bool {
    exists|i: int| 0 <= i < ops.len() && op_mutating(ops[i])
}

/// Whether the whole program tail from `i` runs without constraint error.
pub open spec fn ops_ok(t: TableModel, ops: Seq<Op>, i: int) -> bool
    decreases ops.len() - i,
{
    if !(0 <= i < ops.len()) {
        true
    } else {
        op_ok(t, ops[i]) && ops_ok(op_apply(t, ops[i]), ops, i + 1)
    }
}

/// The table after the whole program tail from `i` (assuming no error).
pub open spec fn ops_apply(t: TableModel, ops: Seq<Op>, i: int) -> TableModel
    decreases ops.len() - i,
{
    if !(0 <= i < ops.len()) {
        t
    } else {
        ops_apply(op_apply(t, ops[i]), ops, i + 1)
    }
}

/// The number of distinct rows changed by the program tail from `i`.
pub open spec fn ops_count(t: TableModel, ops: Seq<Op>, i: int) -> nat
    decreases ops.len() - i,
{
    if !(0 <= i < ops.len()) {
        0 as nat
    } else {
        (op_count(t, ops[i]) + ops_count(op_apply(t, ops[i]), ops, i + 1)) as nat
    }
}

/// The rows emitted by the program tail from `i`, in emission order.
pub open spec fn ops_emits(t: TableModel, ops: Seq<Op>, i: int) -> Seq<RowModel>
    decreases ops.len() - i,
{
    if !(0 <= i < ops.len()) {
        Seq::empty()
    } else {
        op_emits(t, ops[i]) + ops_emits(op_apply(t, ops[i]), ops, i + 1)
    }
}

pub proof fn lemma_unique_update(rs: Seq<RowModel>, c: int, r2: RowModel)
    requires
        unique_ids(rs),
        0 <= c < rs.len(),
        r2.id == rs[c].id || !has_other_with_id(rs, c, r2.id),
    ensures
        unique_ids(rs.update(c, r2)),
{
    let rs2 = rs.update(c, r2);
    assert forall|i: int, j: int| 0 <= i < j < rs2.len() implies rs2[i].id != rs2[j].id by {
        if i == c {
            if r2.id != rs[c].id && rs[j].id == r2.id {
                assert(has_other_with_id(rs, c, r2.id));
            }
        } else if j == c {
            if r2.id != rs[c].id && rs[i].id == r2.id {
                assert(has_other_with_id(rs, c, r2.id));
            }
        }
    }
}

pub proof fn lemma_unique_remove(rs: Seq<RowModel>, c: int)
    requires
        unique_ids(rs),
        0 <= c < rs.len(),
    ensures
        unique_ids(rs.remove(c)),
{
    let rs2 = rs.remove(c);
    assert forall|i: int, j: int| 0 <= i < j < rs2.len() implies rs2[i].id != rs2[j].id by {
        let i2: int = if i < c {
            i
        } else {
            i + 1
        };
        let j2: int = if j < c {
            j
        } else {
            j + 1
        };
        assert(rs2[i] == rs[i2]);
        assert(rs2[j] == rs[j2]);
    }
}

pub proof fn lemma_arity_remove(rs: Seq<RowModel>, c: int, w: nat)
    requires
        uniform_arity(rs, w),
        0 <= c < rs.len(),
    ensures
        uniform_arity(rs.remove(c), w),
{
    let rs2 = rs.remove(c);
    assert forall|i: int| 0 <= i < rs2.len() implies rs2[i].vals.len() == w by {
        let i2: int = if i < c {
            i
        } else {
            i + 1
        };
        assert(rs2[i] == rs[i2]);
    }
}

/// A fresh identity pushed onto the counted record keeps every other
/// identity uncounted.
pub proof fn lemma_not_contains_push(s: Seq<i64>, pushed: i64, x: i64)
    requires
        !s.contains(x),
        pushed != x,
    ensures
        !s.push(pushed).contains(x),
{
    let s2 = s.push(pushed);
    assert forall|k: int| 0 <= k < s2.len() implies s2[k] != x by {
        if k < s.len() {
            assert(s2[k] == s[k]);
        }
    }
}

impl Op {
    /// The executable counterpart of [`op_valid`].
    pub fn check_valid(&self, w: usize) -> (b: bool)
        ensures
            b == op_valid(w as nat, *self),
    {
        match self {
            Op::CreateTable { .. } => true,
            Op::InsertRow { row } => row.vals.len() == w,
            Op::UpdateWhere { action, .. } => match action {
                Action::SetColumn(c, _) => *c < w,
                Action::ShiftId(_) => true,
            },
            Op::DeleteWhere { .. } => true,
            Op::SelectWhere { .. } => true,
        }
    }

    /// The executable counterpart of [`op_next_width`].
    pub fn next_width(&self, w: usize) -> (w2: usize)
        ensures
            w2 as nat == op_next_width(w as nat, *self),
    {
        match self {
            Op::CreateTable { width } => *width,
            _ => w,
        }
    }

    /// The executable counterpart of [`op_mutating`].
    pub fn is_mutating(&self) -> (b: bool)
        ensures
            b == op_mutating(*self),
    {
        match self {
            Op::InsertRow { .. } => true,
            Op::UpdateWhere { .. } => true,
            Op::DeleteWhere { .. } => true,
            _ => false,
        }
    }
}

} // verus!
