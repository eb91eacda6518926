//! The in-memory storage the execution core runs against: one table of
//! rows with pairwise distinct identities and a uniform column width.
//! Each mutating entry point mirrors the scan semantics stated in
//! `program` exactly, including where a scan stops on a constraint error.

use vstd::prelude::*;

use crate::program::Action;
use crate::program::Pred;
use crate::program::TableModel;
use crate::program::action_ok_row;
use crate::program::apply_action_row;
use crate::program::contains_id;
use crate::program::delete_scan;
use crate::program::has_other_with_id;
use crate::program::lemma_arity_remove;
use crate::program::lemma_not_contains_push;
use crate::program::lemma_unique_remove;
use crate::program::lemma_unique_update;
use crate::program::matched_rows;
use crate::program::update_scan;
use crate::tracker::ChangeTracker;
use crate::tracker::lemma_sat64_chain;
use crate::tracker::sat64;
use crate::values::Row;
use crate::values::RowModel;
use crate::values::lemma_rows_model_push;
use crate::values::lemma_rows_model_remove;
use crate::values::lemma_rows_model_update;
use crate::values::lemma_vals_model_update;
use crate::values::row_model;
use crate::values::rows_model;

verus! {

pub struct Table {
    width: usize,
    rows: Vec<Row>,
}

impl Table {
    /// The mathematical model of the table.
    pub closed spec fn model(self) -> TableModel {
        TableModel { width: self.width as nat, rows: rows_model(self.rows@) }
    }

    /// Well-formedness: distinct row identities, uniform column width.
    pub open spec fn wf(self) -> bool {
        crate::program::table_wf(self.model())
    }

    pub fn new(width: usize) -> (t: Table)
        ensures
            t.wf(),
            t.model().width == width as nat,
            t.model().rows == Seq::<RowModel>::empty(),
    {
        let t = Table { width, rows: Vec::new() };
        proof {
            assert(t.model().rows =~= Seq::<RowModel>::empty());
        }
        t
    }

    pub fn width(&self) -> (w: usize)
        ensures
            w as nat == self.model().width,
    {
        self.width
    }

    pub fn row_count(&self) -> (n: usize)
        ensures
            n as nat == self.model().rows.len(),
    {
        self.rows.len()
    }

    /// Whether some row carries identity `id`.
    pub fn contains(&self, id: i64) -> (b: bool)
        ensures
            b == contains_id(self.model().rows, id as int),
    {
        let mut i: usize = 0;
        while i < self.rows.len()
            invariant
                i <= self.rows@.len(),
                forall|j: int| 0 <= j < i ==> #[trigger] self.model().rows[j].id != id as int,
            decreases self.rows@.len() - i,
        {
            if self.rows[i].id == id {
                assert(self.model().rows[i as int].id == id as int);
                return true;
            }
            i = i + 1;
        }
        false
    }

    /// Whether some row other than the one at position `c` carries identity `id`.
    fn has_other(&self, c: usize, id: i64) -> (b: bool)
        ensures
            b == has_other_with_id(self.model().rows, c as int, id as int),
    {
        let mut i: usize = 0;
        while i < self.rows.len()
            invariant
                i <= self.rows@.len(),
                forall|j: int|
                    0 <= j < i && j != c as int ==> #[trigger] self.model().rows[j].id
                        != id as int,
            decreases self.rows@.len() - i,
        {
            if i != c && self.rows[i].id == id {
                assert(self.model().rows[i as int].id == id as int);
                return true;
            }
            i = i + 1;
        }
        false
    }

    /// Insert one row; refused (and the table left unchanged) when its
    /// identity is already present.
    pub fn insert(&mut self, row: Row, tr: &mut ChangeTracker) -> (ok: bool)
        requires
            old(self).wf(),
            row.vals@.len() == old(self).model().width,
            old(tr).counted_of() == Seq::<i64>::empty(),
        ensures
            final(self).wf(),
            final(self).model().width == old(self).model().width,
            ok == !contains_id(old(self).model().rows, row.id as int),
            ok ==> final(self).model().rows == old(self).model().rows.push(row_model(row)),
            ok ==> final(tr).count_of() == sat64(old(tr).count_of() + 1),
            !ok ==> *final(self) == *old(self) && *final(tr) == *old(tr),
    {
        if self.contains(row.id) {
            return false;
        }
        proof {
            lemma_rows_model_push(self.rows@, row);
        }
        let ghost pre = self.model().rows;
        let id = row.id;
        self.rows.push(row);
        tr.record(id);
        proof {
            let cur = self.model().rows;
            assert forall|i: int, j: int| 0 <= i < j < cur.len() implies cur[i].id != cur[j].id by {
                if j == cur.len() - 1 {
                    assert(cur[i] == pre[i]);
                } else {
                    assert(cur[i] == pre[i]);
                    assert(cur[j] == pre[j]);
                }
            }
            assert forall|i: int| 0 <= i < cur.len() implies #[trigger] cur[i].vals.len()
                == self.model().width by {
                if i < cur.len() - 1 {
                    assert(cur[i] == pre[i]);
                }
            }
        }
        true
    }

    /// Rewrite every row matched by `p` according to `a`, in one scan
    /// over the table; stops with `false` at the first key rewrite that
    /// would overflow or collide with another row's identity.
    pub fn update_where(&mut self, p: Pred, a: &Action, tr: &mut ChangeTracker) -> (ok: bool)
        requires
            old(self).wf(),
            match *a {
                Action::SetColumn(c, _) => (c as nat) < old(self).model().width,
                Action::ShiftId(_) => true,
            },
            old(tr).counted_of() == Seq::<i64>::empty(),
        ensures
            final(self).wf(),
            final(self).model().width == old(self).model().width,
            ok == update_scan(old(self).model().rows, p, *a, 0).2,
            final(self).model().rows == update_scan(old(self).model().rows, p, *a, 0).0,
            final(tr).count_of() == sat64(
                old(tr).count_of() + update_scan(old(self).model().rows, p, *a, 0).1,
            ),
    {
        let ghost rs0 = self.model().rows;
        let ghost cnt0 = tr.count_of();
        let ghost mut done: nat = 0;
        let mut c: usize = 0;
        while c < self.rows.len()
            invariant
                self.wf(),
                self.model().width == old(self).model().width,
                rs0 == old(self).model().rows,
                cnt0 == old(tr).count_of(),
                c <= self.rows@.len(),
                update_scan(rs0, p, *a, 0).0 == update_scan(self.model().rows, p, *a, c as int).0,
                update_scan(rs0, p, *a, 0).1 == done + update_scan(
                    self.model().rows,
                    p,
                    *a,
                    c as int,
                ).1,
                update_scan(rs0, p, *a, 0).2 == update_scan(self.model().rows, p, *a, c as int).2,
                tr.count_of() == sat64(cnt0 + done),
                forall|j: int|
                    c <= j < self.rows@.len() ==> !tr.counted_of().contains(
                        #[trigger] self.rows@[j].id,
                    ),
                match *a {
                    Action::SetColumn(cl, _) => (cl as nat) < self.model().width,
                    Action::ShiftId(_) => true,
                },
            decreases self.rows@.len() - c,
        {
            let ghost pre = self.model().rows;
            let ghost prevec = self.rows@;
            let ghost counted0 = tr.counted_of();
            let ghost done0 = done;
            let cp = c;
            let row_id = self.rows[c].id;
            assert(pre[cp as int].id == row_id as int);
            if !p.eval(row_id) {
                c = c + 1;
            } else {
                match a {
                    Action::SetColumn(col, v) => {
                        let mut nr = self.rows[c].duplicate();
                        let dup = v.duplicate();
                        proof {
                            assert(row_model(nr).vals.len() == pre[cp as int].vals.len());
                            lemma_vals_model_update(nr.vals@, *col as int, dup);
                        }
                        nr.vals.set(*col, dup);
                        let ghost r2 = apply_action_row(*a, pre[cp as int]);
                        proof {
                            assert(row_model(nr) =~= r2);
                            lemma_rows_model_update(self.rows@, cp as int, nr);
                        }
                        tr.record(row_id);
                        self.rows.set(c, nr);
                        c = c + 1;
                        proof {
                            done = done0 + 1;
                            lemma_sat64_chain(cnt0 + done0, 1);
                            let cur = pre.update(cp as int, r2);
                            assert(self.model().rows == cur);
                            assert(r2.id == pre[cp as int].id);
                            assert(update_scan(pre, p, *a, cp as int).0 == update_scan(
                                cur,
                                p,
                                *a,
                                cp as int + 1,
                            ).0);
                            assert(update_scan(pre, p, *a, cp as int).1 == 1 + update_scan(
                                cur,
                                p,
                                *a,
                                cp as int + 1,
                            ).1);
                            assert(update_scan(pre, p, *a, cp as int).2 == update_scan(
                                cur,
                                p,
                                *a,
                                cp as int + 1,
                            ).2);
                            lemma_unique_update(pre, cp as int, r2);
                            assert forall|i: int| 0 <= i < cur.len() implies #[trigger] cur[i].vals.len()
                                == self.model().width by {
                                if i != cp as int {
                                    assert(cur[i] == pre[i]);
                                }
                            }
                            assert forall|j: int| c <= j < self.rows@.len() implies !tr.counted_of()
                                .contains(#[trigger] self.rows@[j].id) by {
                                assert(self.rows@[j] == prevec[j]);
                                assert(pre[j].id != pre[cp as int].id);
                                lemma_not_contains_push(counted0, row_id, self.rows@[j].id);
                            }
                        }
                    },
                    Action::ShiftId(d) => {
                        match row_id.checked_add(*d) {
                            None => {
                                proof {
                                    assert(!action_ok_row(*a, pre[cp as int]));
                                    assert(update_scan(pre, p, *a, cp as int).2 == false);
                                    assert(update_scan(pre, p, *a, cp as int).0 == pre);
                                    assert(update_scan(pre, p, *a, cp as int).1 == 0);
                                }
                                return false;
                            },
                            Some(nid) => {
                                assert(action_ok_row(*a, pre[cp as int]));
                                let ghost r2 = apply_action_row(*a, pre[cp as int]);
                                assert(r2.id == nid as int);
                                if nid != row_id && self.has_other(cp, nid) {
                                    proof {
                                        assert(update_scan(pre, p, *a, cp as int).2 == false);
                                        assert(update_scan(pre, p, *a, cp as int).0 == pre);
                                        assert(update_scan(pre, p, *a, cp as int).1 == 0);
                                    }
                                    return false;
                                }
                                assert(r2.id == pre[cp as int].id || !has_other_with_id(
                                    pre,
                                    cp as int,
                                    r2.id,
                                ));
                                let mut nr = self.rows[c].duplicate();
                                nr.id = nid;
                                proof {
                                    assert(row_model(nr) =~= r2);
                                    lemma_rows_model_update(self.rows@, cp as int, nr);
                                }
                                tr.record(row_id);
                                tr.alias(nid);
                                self.rows.set(c, nr);
                                c = c + 1;
                                proof {
                                    done = done0 + 1;
                                    lemma_sat64_chain(cnt0 + done0, 1);
                                    let cur = pre.update(cp as int, r2);
                                    assert(self.model().rows == cur);
                                    assert(update_scan(pre, p, *a, cp as int).0 == update_scan(
                                        cur,
                                        p,
                                        *a,
                                        cp as int + 1,
                                    ).0);
                                    assert(update_scan(pre, p, *a, cp as int).1 == 1 + update_scan(
                                        cur,
                                        p,
                                        *a,
                                        cp as int + 1,
                                    ).1);
                                    assert(update_scan(pre, p, *a, cp as int).2 == update_scan(
                                        cur,
                                        p,
                                        *a,
                                        cp as int + 1,
                                    ).2);
                                    lemma_unique_update(pre, cp as int, r2);
                                    assert forall|i: int| 0 <= i < cur.len() implies #[trigger] cur[i].vals.len()
                                        == self.model().width by {
                                        if i != cp as int {
                                            assert(cur[i] == pre[i]);
                                        }
                                    }
                                    assert forall|j: int| c <= j < self.rows@.len() implies !tr
                                        .counted_of().contains(#[trigger] self.rows@[j].id) by {
                                        assert(self.rows@[j] == prevec[j]);
                                        assert(pre[j].id != pre[cp as int].id);
                                        if nid != row_id && self.rows@[j].id == nid {
                                            assert(pre[j].id == nid as int);
                                            assert(has_other_with_id(pre, cp as int, nid as int));
                                        }
                                        lemma_not_contains_push(counted0, row_id, self.rows@[j].id);
                                        lemma_not_contains_push(
                                            counted0.push(row_id),
                                            nid,
                                            self.rows@[j].id,
                                        );
                                    }
                                }
                            },
                        }
                    },
                }
            }
        }
        proof {
            assert(update_scan(self.model().rows, p, *a, c as int) == (
                self.model().rows,
                0 as nat,
                true,
            ));
        }
        true
    }

    /// Remove every row matched by `p`, in one scan over the table.
    pub fn delete_where(&mut self, p: Pred, tr: &mut ChangeTracker)
        requires
            old(self).wf(),
            old(tr).counted_of() == Seq::<i64>::empty(),
        ensures
            final(self).wf(),
            final(self).model().width == old(self).model().width,
            final(self).model().rows == delete_scan(old(self).model().rows, p, 0).0,
            final(tr).count_of() == sat64(
                old(tr).count_of() + delete_scan(old(self).model().rows, p, 0).1,
            ),
    {
        let ghost rs0 = self.model().rows;
        let ghost cnt0 = tr.count_of();
        let ghost mut done: nat = 0;
        let mut c: usize = 0;
        while c < self.rows.len()
            invariant
                self.wf(),
                self.model().width == old(self).model().width,
                rs0 == old(self).model().rows,
                cnt0 == old(tr).count_of(),
                c <= self.rows@.len(),
                delete_scan(rs0, p, 0).0 == delete_scan(self.model().rows, p, c as int).0,
                delete_scan(rs0, p, 0).1 == done + delete_scan(self.model().rows, p, c as int).1,
                tr.count_of() == sat64(cnt0 + done),
                forall|j: int|
                    c <= j < self.rows@.len() ==> !tr.counted_of().contains(
                        #[trigger] self.rows@[j].id,
                    ),
            decreases self.rows@.len() - c,
        {
            let ghost pre = self.model().rows;
            let ghost prevec = self.rows@;
            let ghost counted0 = tr.counted_of();
            let ghost done0 = done;
            let row_id = self.rows[c].id;
            assert(pre[c as int].id == row_id as int);
            if p.eval(row_id) {
                proof {
                    lemma_rows_model_remove(self.rows@, c as int);
                }
                tr.record(row_id);
                let _removed = self.rows.remove(c);
                proof {
                    done = done0 + 1;
                    lemma_sat64_chain(cnt0 + done0, 1);
                    let cur = pre.remove(c as int);
                    assert(self.model().rows == cur);
                    assert(delete_scan(pre, p, c as int).0 == delete_scan(cur, p, c as int).0);
                    assert(delete_scan(pre, p, c as int).1 == 1 + delete_scan(cur, p, c as int).1);
                    lemma_unique_remove(pre, c as int);
                    lemma_arity_remove(pre, c as int, self.model().width);
                    assert forall|j: int| c <= j < self.rows@.len() implies !tr.counted_of()
                        .contains(#[trigger] self.rows@[j].id) by {
                        assert(self.rows@[j] == prevec[j + 1]);
                        assert(pre[j + 1].id != pre[c as int].id);
                        lemma_not_contains_push(counted0, row_id, self.rows@[j].id);
                    }
                }
            } else {
                c = c + 1;
            }
        }
        proof {
            assert(delete_scan(self.model().rows, p, c as int) == (self.model().rows, 0 as nat));
        }
    }

    /// Copy out every row matched by `p`, in table order.
    pub fn select_where(&self, p: Pred) -> (out: Vec<Row>)
        ensures
            rows_model(out@) == matched_rows(self.model().rows, p, 0),
    {
        let ghost rs = self.model().rows;
        let mut out: Vec<Row> = Vec::new();
        let mut c: usize = 0;
        proof {
            assert(rows_model(out@) =~= Seq::<RowModel>::empty());
            assert(matched_rows(rs, p, 0) =~= rows_model(out@) + matched_rows(rs, p, 0));
        }
        while c < self.rows.len()
            invariant
                c <= self.rows@.len(),
                rs == self.model().rows,
                matched_rows(rs, p, 0) == rows_model(out@) + matched_rows(rs, p, c as int),
            decreases self.rows@.len() - c,
        {
            let row_id = self.rows[c].id;
            assert(rs[c as int].id == row_id as int);
            if p.eval(row_id) {
                let dup = self.rows[c].duplicate();
                proof {
                    lemma_rows_model_push(out@, dup);
                    assert(matched_rows(rs, p, c as int) == seq![rs[c as int]] + matched_rows(
                        rs,
                        p,
                        c as int + 1,
                    ));
                    assert(rows_model(out@).push(row_model(dup)) + matched_rows(rs, p, c as int + 1)
                        =~= rows_model(out@) + (seq![rs[c as int]] + matched_rows(
                        rs,
                        p,
                        c as int + 1,
                    )));
                }
                out.push(dup);
            }
            c = c + 1;
        }
        proof {
            assert(matched_rows(rs, p, c as int) =~= Seq::<RowModel>::empty());
            assert(rows_model(out@) + Seq::<RowModel>::empty() =~= rows_model(out@));
        }
        out
    }
}

} // verus!
