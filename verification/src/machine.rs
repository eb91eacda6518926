//! The step state machine and the caller-facing handles.
//!
//! A `Connection` owns the stored table, the cumulative `total_changes`
//! counter, the cooperative interrupt flag and the write-lock state. A
//! `Statement` wraps one compiled program and is driven by repeated
//! `step` calls: each call performs one unit of work and reports `Row`,
//! `IO`, `Done`, `Busy` or `Interrupt`. On `IO` the caller runs the I/O
//! reactor once (`run_once`) and reissues the same `step` call. Once a
//! statement reaches `Done` its change count is folded into the
//! connection's counters, exactly once.

use vstd::prelude::*;

use crate::program::Op;
use crate::program::TableModel;
use crate::program::op_apply;
use crate::program::op_count;
use crate::program::op_emits;
use crate::program::op_mutating;
use crate::program::op_next_width;
use crate::program::op_ok;
use crate::program::op_valid;
use crate::program::ops_apply;
use crate::program::ops_count;
use crate::program::ops_emits;
use crate::program::ops_mutating;
use crate::program::ops_ok;
use crate::program::ops_valid;
use crate::program::table_wf;
use crate::table::Table;
use crate::tracker::ChangeTracker;
use crate::tracker::sat64;
use crate::values::Row;
use crate::values::RowModel;
use crate::values::lemma_rows_model_remove;
use crate::values::row_model;
use crate::values::rows_model;

verus! {

/// The exhaustive set of step outcomes.
#[derive(Debug, Clone, Copy, PartialEq, Eq, Structural)]
pub enum StepResult {
    Row,
    IO,
    Done,
    Busy,
    Interrupt,
}

/// Hard errors: an invalid program refused by `prepare`, a constraint
/// violation during execution, and stepping a failed statement.
#[derive(Debug, Clone, Copy, PartialEq, Eq, Structural)]
pub enum EngineError {
    InvalidProgram,
    Constraint,
    Unusable,
}

/// The lifecycle state of a statement.
#[derive(Debug, Clone, Copy, PartialEq, Eq, Structural)]
pub enum StmtState {
    Active,
    Done,
    Aborted,
    Failed,
}

pub struct Connection {
    table: Table,
    total: u64,
    last: u64,
    interrupted: bool,
    locked: bool,
}

pub struct Statement {
    ops: Vec<Op>,
    pc: usize,
    queue: Vec<Row>,
    current: Option<Row>,
    tracker: ChangeTracker,
    state: StmtState,
    pending_io: bool,
    io_ready: bool,
    mutating: bool,
}

impl Connection {
    /// The model of the stored table.
    pub closed spec fn table_model(self) -> TableModel {
        self.table.model()
    }

    pub open spec fn wf(self) -> bool {
        table_wf(self.table_model())
    }

    /// The cumulative count of rows changed by completed statements.
    pub closed spec fn total_of(self) -> u64 {
        self.total
    }

    /// The local count of the most recently completed mutating statement.
    pub closed spec fn last_of(self) -> u64 {
        self.last
    }

    pub closed spec fn interrupted_of(self) -> bool {
        self.interrupted
    }

    pub closed spec fn locked_of(self) -> bool {
        self.locked
    }

    pub fn new() -> (c: Connection)
        ensures
            c.wf(),
            c.table_model().width == 0,
            c.table_model().rows == Seq::<RowModel>::empty(),
            c.total_of() == 0,
            c.last_of() == 0,
            !c.interrupted_of(),
            !c.locked_of(),
    {
        Connection { table: Table::new(0), total: 0, last: 0, interrupted: false, locked: false }
    }

    /// The SQL `total_changes()` scalar: every completed statement's
    /// local change count, summed since the connection started (or the
    /// last explicit reset).
    pub fn total_changes(&self) -> (n: u64)
        ensures
            n == self.total_of(),
    {
        self.total
    }

    /// The SQL `changes()` scalar: the local change count of the most
    /// recently completed mutating statement.
    pub fn changes(&self) -> (n: u64)
        ensures
            n == self.last_of(),
    {
        self.last
    }

    /// The explicit reset of the cumulative counter.
    pub fn reset_total_changes(&mut self)
        ensures
            final(self).total_of() == 0,
            final(self).last_of() == old(self).last_of(),
            final(self).table_model() == old(self).table_model(),
            final(self).interrupted_of() == old(self).interrupted_of(),
            final(self).locked_of() == old(self).locked_of(),
    {
        self.total = 0;
    }

    /// Request cooperative cancellation: observed by any statement's
    /// next `step` call; never preempts a step already under way.
    pub fn interrupt(&mut self)
        ensures
            final(self).interrupted_of(),
            final(self).total_of() == old(self).total_of(),
            final(self).last_of() == old(self).last_of(),
            final(self).table_model() == old(self).table_model(),
            final(self).locked_of() == old(self).locked_of(),
    {
        self.interrupted = true;
    }

    pub fn clear_interrupt(&mut self)
        ensures
            !final(self).interrupted_of(),
            final(self).total_of() == old(self).total_of(),
            final(self).last_of() == old(self).last_of(),
            final(self).table_model() == old(self).table_model(),
            final(self).locked_of() == old(self).locked_of(),
    {
        self.interrupted = false;
    }

    pub fn is_interrupted(&self) -> (b: bool)
        ensures
            b == self.interrupted_of(),
    {
        self.interrupted
    }

    /// Another writer takes the shared storage's write lock: mutating
    /// steps report `Busy` until it is released.
    pub fn lock_storage(&mut self)
        ensures
            final(self).locked_of(),
            final(self).total_of() == old(self).total_of(),
            final(self).last_of() == old(self).last_of(),
            final(self).table_model() == old(self).table_model(),
            final(self).interrupted_of() == old(self).interrupted_of(),
    {
        self.locked = true;
    }

    pub fn unlock_storage(&mut self)
        ensures
            !final(self).locked_of(),
            final(self).total_of() == old(self).total_of(),
            final(self).last_of() == old(self).last_of(),
            final(self).table_model() == old(self).table_model(),
            final(self).interrupted_of() == old(self).interrupted_of(),
    {
        self.locked = false;
    }

    pub fn is_storage_locked(&self) -> (b: bool)
        ensures
            b == self.locked_of(),
    {
        self.locked
    }

    /// Compile-time validation: a statement handle for a well-formed
    /// program, an `InvalidProgram` error for any other.
    pub fn prepare(&self, ops: Vec<Op>) -> (r: Result<Statement, EngineError>)
        ensures
            r is Ok <==> ops_valid(self.table_model().width, ops@, 0),
            r is Err ==> r == Err::<Statement, EngineError>(EngineError::InvalidProgram),
            r is Ok ==> {
                &&& r->Ok_0.ops_of() == ops@
                &&& r->Ok_0.pc_of() == 0
                &&& r->Ok_0.queue_of() == Seq::<RowModel>::empty()
                &&& r->Ok_0.current_of() is None
                &&& r->Ok_0.changes_of() == 0
                &&& r->Ok_0.state_of() is Active
                &&& !r->Ok_0.pending_io_of()
                &&& !r->Ok_0.io_ready_of()
                &&& r->Ok_0.mutating_of() == ops_mutating(ops@)
                &&& r->Ok_0.valid_for(*self)
            },
    {
        let ghost w0 = self.table_model().width;
        let mut w = self.table.width();
        let mut mutating = false;
        let mut i: usize = 0;
        while i < ops.len()
            invariant
                i <= ops@.len(),
                w0 == self.table_model().width,
                ops_valid(w0, ops@, 0) == ops_valid(w as nat, ops@, i as int),
                mutating == exists|j: int| 0 <= j < i && op_mutating(ops@[j]),
            decreases ops@.len() - i,
        {
            if !ops[i].check_valid(w) {
                return Err(EngineError::InvalidProgram);
            }
            if ops[i].is_mutating() {
                proof {
                    assert(op_mutating(ops@[i as int]));
                }
                mutating = true;
            }
            w = ops[i].next_width(w);
            i = i + 1;
        }
        proof {
            assert(mutating == ops_mutating(ops@));
        }
        let stmt = Statement {
            ops,
            pc: 0,
            queue: Vec::new(),
            current: None,
            tracker: ChangeTracker::new(),
            state: StmtState::Active,
            pending_io: false,
            io_ready: false,
            mutating,
        };
        proof {
            assert(stmt.queue_of() =~= Seq::<RowModel>::empty());
        }
        Ok(stmt)
    }
}

impl Statement {
    /// The compiled program this statement executes.
    pub closed spec fn ops_of(self) -> Seq<Op> {
        self.ops@
    }

    /// The program counter: the next operation to execute.
    pub closed spec fn pc_of(self) -> nat {
        self.pc as nat
    }

    /// Rows produced but not yet handed to the caller, in emission order.
    pub closed spec fn queue_of(self) -> Seq<RowModel> {
        rows_model(self.queue@)
    }

    /// The row made available by the most recent `Row` outcome.
    pub closed spec fn current_of(self) -> Option<RowModel> {
        match self.current {
            Option::None => Option::None,
            Option::Some(r) => Option::Some(row_model(r)),
        }
    }

    /// The local change count accumulated so far.
    pub closed spec fn changes_of(self) -> u64 {
        self.tracker.count_of()
    }

    pub closed spec fn state_of(self) -> StmtState {
        self.state
    }

    /// Whether an I/O operation is pending: the caller must run the
    /// reactor once before the same `step` call can make progress.
    pub closed spec fn pending_io_of(self) -> bool {
        self.pending_io
    }

    /// Whether the I/O needed by the next operation has completed.
    pub closed spec fn io_ready_of(self) -> bool {
        self.io_ready
    }

    /// Whether the program holds any mutating operation.
    pub closed spec fn mutating_of(self) -> bool {
        self.mutating
    }

    /// The remaining program is well formed against the connection's
    /// current table width.
    pub open spec fn valid_for(self, conn: Connection) -> bool {
        &&& self.pc_of() <= self.ops_of().len()
        &&& ops_valid(conn.table_model().width, self.ops_of(), self.pc_of() as int)
    }

    /// Everything but the current row and the lifecycle state.
    pub open spec fn core_unchanged(self, s0: Statement) -> bool {
        &&& self.ops_of() == s0.ops_of()
        &&& self.pc_of() == s0.pc_of()
        &&& self.queue_of() == s0.queue_of()
        &&& self.changes_of() == s0.changes_of()
        &&& self.pending_io_of() == s0.pending_io_of()
        &&& self.io_ready_of() == s0.io_ready_of()
        &&& self.mutating_of() == s0.mutating_of()
    }

    pub fn state(&self) -> (s: StmtState)
        ensures
            s == self.state_of(),
    {
        self.state
    }

    /// The statement's local change count (`n_change`): the number of
    /// distinct rows this statement has modified; stable once `Done`.
    pub fn n_change(&self) -> (n: u64)
        ensures
            n == self.changes_of(),
    {
        self.tracker.count()
    }

    pub fn has_current_row(&self) -> (b: bool)
        ensures
            b == (self.current_of() is Some),
    {
        match &self.current {
            Option::Some(_) => true,
            Option::None => false,
        }
    }

    /// The row produced by the most recent `Row` outcome. Valid only
    /// while such a row is available; any other call is a caller error,
    /// ruled out by the precondition.
    pub fn current_row(&self) -> (r: &Row)
        requires
            self.current_of() is Some,
        ensures
            Some(row_model(*r)) == self.current_of(),
    {
        self.current.as_ref().unwrap()
    }

    /// Run the I/O reactor once: the pending operation (if any) completes.
    pub fn run_once(&mut self)
        ensures
            !final(self).pending_io_of(),
            final(self).io_ready_of() == (old(self).io_ready_of() || old(self).pending_io_of()),
            final(self).ops_of() == old(self).ops_of(),
            final(self).pc_of() == old(self).pc_of(),
            final(self).queue_of() == old(self).queue_of(),
            final(self).current_of() == old(self).current_of(),
            final(self).changes_of() == old(self).changes_of(),
            final(self).state_of() == old(self).state_of(),
            final(self).mutating_of() == old(self).mutating_of(),
    {
        if self.pending_io {
            self.pending_io = false;
            self.io_ready = true;
        }
    }

    /// Advance the program by one unit of work. See the case-by-case
    /// contract: terminal states repeat themselves; an interrupt aborts
    /// at this boundary; pending I/O reports `IO` again; queued rows are
    /// handed out one per call; at the end of the program the local
    /// count is folded into the connection exactly once; otherwise one
    /// operation executes (after its I/O and lock checks) and the
    /// outcome reports what it produced.
    pub fn step(&mut self, conn: &mut Connection) -> (r: Result<StepResult, EngineError>)
        requires
            old(conn).wf(),
            old(self).valid_for(*old(conn)),
        ensures
            final(conn).wf(),
            final(self).valid_for(*final(conn)),
            final(self).ops_of() == old(self).ops_of(),
            final(self).mutating_of() == old(self).mutating_of(),
            final(conn).locked_of() == old(conn).locked_of(),
            final(conn).interrupted_of() == old(conn).interrupted_of(),
            // terminal states are monotone
            old(self).state_of() is Done ==> r == Ok::<StepResult, EngineError>(StepResult::Done)
                && *final(self) == *old(self) && *final(conn) == *old(conn),
            old(self).state_of() is Aborted ==> r == Ok::<StepResult, EngineError>(
                StepResult::Interrupt,
            ) && *final(self) == *old(self) && *final(conn) == *old(conn),
            old(self).state_of() is Failed ==> r == Err::<StepResult, EngineError>(
                EngineError::Unusable,
            ) && *final(self) == *old(self) && *final(conn) == *old(conn),
            // cooperative cancellation, observed between steps
            old(self).state_of() is Active && old(conn).interrupted_of() ==> r == Ok::<StepResult, EngineError>(StepResult::Interrupt) && final(self).state_of() is Aborted && final(self).core_unchanged(*old(self)) && final(self).current_of() is None && *final(conn)
                == *old(conn),
            // pending I/O: reissue after the reactor ran
            old(self).state_of() is Active && !old(conn).interrupted_of() && old(self).pending_io_of() ==> r == Ok::<StepResult, EngineError>(StepResult::IO) && final(self).core_unchanged(*old(self)) && final(self).state_of() is Active && final(self).current_of() is None && *final(conn) == *old(conn),
            // a queued row is handed out
            old(self).state_of() is Active && !old(conn).interrupted_of() && !old(self).pending_io_of() && old(self).queue_of().len() > 0 ==> r == Ok::<StepResult, EngineError>(StepResult::Row) && final(self).state_of() is Active && final(self).pc_of() == old(self).pc_of() && final(self).queue_of() == old(self).queue_of().skip(1) && final(self).current_of() == Some(old(self).queue_of()[0]) && final(self).changes_of() == old(self).changes_of() && final(self).pending_io_of() == old(self).pending_io_of() && final(self).io_ready_of() == old(self).io_ready_of() && *final(conn) == *old(conn),
            // the program is exhausted: fold the local count, once
            old(self).state_of() is Active && !old(conn).interrupted_of() && !old(self).pending_io_of() && old(self).queue_of().len() == 0 && old(self).pc_of() == old(self).ops_of().len() ==> r == Ok::<StepResult, EngineError>(StepResult::Done) && final(self).state_of() is Done && final(self).core_unchanged(*old(self)) && final(self).current_of() is None && final(conn).table_model() == old(conn).table_model() && final(conn).total_of() == sat64(old(conn).total_of() + old(self).changes_of()) && final(conn).last_of() == (if old(self).mutating_of() {
                old(self).changes_of()
            } else {
                old(conn).last_of()
            }),
            // a mutating operation meets the write lock
            old(self).state_of() is Active && !old(conn).interrupted_of() && !old(self).pending_io_of() && old(self).queue_of().len() == 0 && old(self).pc_of() < old(self).ops_of().len() && op_mutating(old(self).ops_of()[old(self).pc_of() as int]) && old(conn).locked_of() ==> r == Ok::<StepResult, EngineError>(StepResult::Busy) && final(self).core_unchanged(*old(self)) && final(self).state_of() is Active && final(self).current_of() is None && *final(conn) == *old(conn),
            // the next operation needs its I/O first
            old(self).state_of() is Active && !old(conn).interrupted_of() && !old(self).pending_io_of() && old(self).queue_of().len() == 0 && old(self).pc_of() < old(self).ops_of().len() && !(op_mutating(old(self).ops_of()[old(self).pc_of() as int]) && old(conn).locked_of()) && !old(self).io_ready_of() ==> r == Ok::<StepResult, EngineError>(
                StepResult::IO,
            ) && final(self).pending_io_of() && final(self).state_of() is Active && final(self).pc_of() == old(self).pc_of() && final(self).queue_of() == old(self).queue_of()
                && final(self).changes_of() == old(self).changes_of() && final(self).io_ready_of()
                == old(self).io_ready_of() && final(self).current_of() is None && *final(conn)
                == *old(conn),
            // one operation executes
            (old(self).state_of() is Active && !old(conn).interrupted_of() && !old(self).pending_io_of() && old(self).queue_of().len() == 0 && old(self).pc_of() < old(self).ops_of().len() && !(op_mutating(old(self).ops_of()[old(self).pc_of() as int]) && old(conn).locked_of()) && old(self).io_ready_of()) ==> ({
                let op = old(self).ops_of()[old(self).pc_of() as int];
                let t0 = old(conn).table_model();
                &&& final(conn).table_model() == op_apply(t0, op)
                &&& final(self).changes_of() == sat64(old(self).changes_of() + op_count(t0, op))
                &&& (op_ok(t0, op) ==> {
                    &&& final(self).pc_of() == old(self).pc_of() + 1
                    &&& !final(self).io_ready_of()
                    &&& (op_emits(t0, op).len() > 0 ==> r == Ok::<StepResult, EngineError>(
                        StepResult::Row,
                    ) && final(self).state_of() is Active && final(self).queue_of() == op_emits(
                        t0,
                        op,
                    ).skip(1) && final(self).current_of() == Some(op_emits(t0, op)[0]) && !final(self).pending_io_of() && final(conn).total_of() == old(conn).total_of() && final(conn).last_of() == old(conn).last_of())
                    &&& (op_emits(t0, op).len() == 0 && old(self).pc_of() + 1 == old(self).ops_of().len() ==> r == Ok::<StepResult, EngineError>(StepResult::Done)
                        && final(self).state_of() is Done && final(self).queue_of()
                        == Seq::<RowModel>::empty() && final(self).current_of() is None && !final(self).pending_io_of() && final(conn).total_of() == sat64(
                        old(conn).total_of() + final(self).changes_of(),
                    ) && final(conn).last_of() == (if old(self).mutating_of() {
                        final(self).changes_of()
                    } else {
                        old(conn).last_of()
                    }))
                    &&& (op_emits(t0, op).len() == 0 && old(self).pc_of() + 1 < old(self).ops_of().len() ==> r == Ok::<StepResult, EngineError>(StepResult::IO) && final(self).state_of() is Active && final(self).queue_of() == Seq::<RowModel>::empty()
                        && final(self).current_of() is None && final(self).pending_io_of() && final(conn).total_of() == old(conn).total_of() && final(conn).last_of() == old(conn).last_of())
                })
                &&& (!op_ok(t0, op) ==> r == Err::<StepResult, EngineError>(EngineError::Constraint)
                    && final(self).state_of() is Failed && final(self).pc_of() == old(self).pc_of()
                    && final(self).queue_of() == old(self).queue_of() && final(self).current_of()
                    is None && final(conn).total_of() == old(conn).total_of() && final(conn).last_of() == old(conn).last_of())
            }),
    {
        match self.state {
            StmtState::Done => {
                return Ok(StepResult::Done);
            },
            StmtState::Aborted => {
                return Ok(StepResult::Interrupt);
            },
            StmtState::Failed => {
                return Err(EngineError::Unusable);
            },
            StmtState::Active => {},
        }
        if conn.interrupted {
            self.state = StmtState::Aborted;
            self.current = None;
            return Ok(StepResult::Interrupt);
        }
        self.current = None;
        if self.pending_io {
            return Ok(StepResult::IO);
        }
        if self.queue.len() > 0 {
            proof {
                lemma_rows_model_remove(self.queue@, 0);
                assert(rows_model(self.queue@).remove(0) =~= rows_model(self.queue@).skip(1));
            }
            let row = self.queue.remove(0);
            self.current = Some(row);
            return Ok(StepResult::Row);
        }
        if self.pc == self.ops.len() {
            let cnt = self.tracker.count();
            conn.total = conn.total.saturating_add(cnt);
            if self.mutating {
                conn.last = cnt;
            }
            self.state = StmtState::Done;
            return Ok(StepResult::Done);
        }
        proof {
            assert(ops_valid(conn.table_model().width, self.ops@, self.pc as int));
            assert(op_valid(conn.table_model().width, self.ops@[self.pc as int]));
            assert(ops_valid(
                op_next_width(conn.table_model().width, self.ops@[self.pc as int]),
                self.ops@,
                self.pc as int + 1,
            ));
        }
        if self.ops[self.pc].is_mutating() && conn.locked {
            return Ok(StepResult::Busy);
        }
        if !self.io_ready {
            self.pending_io = true;
            return Ok(StepResult::IO);
        }
        self.tracker.begin_op();
        let ghost t0 = conn.table_model();
        let pc = self.pc;
        match &self.ops[pc] {
            Op::CreateTable { width } => {
                conn.table = Table::new(*width);
                proof {
                    assert(conn.table_model() == op_apply(t0, self.ops@[pc as int]));
                }
            },
            Op::InsertRow { row } => {
                let dup = row.duplicate();
                proof {
                    assert(crate::values::vals_model(dup.vals@) == crate::values::vals_model(
                        row.vals@,
                    ));
                    assert(crate::values::vals_model(dup.vals@).len() == dup.vals@.len());
                    assert(crate::values::vals_model(row.vals@).len() == row.vals@.len());
                }
                let ok = conn.table.insert(dup, &mut self.tracker);
                if !ok {
                    self.state = StmtState::Failed;
                    return Err(EngineError::Constraint);
                }
                proof {
                    assert(conn.table_model() == op_apply(t0, self.ops@[pc as int]));
                }
            },
            Op::UpdateWhere { pred, action } => {
                let ok = conn.table.update_where(*pred, action, &mut self.tracker);
                if !ok {
                    self.state = StmtState::Failed;
                    return Err(EngineError::Constraint);
                }
                proof {
                    assert(conn.table_model() == op_apply(t0, self.ops@[pc as int]));
                }
            },
            Op::DeleteWhere { pred } => {
                conn.table.delete_where(*pred, &mut self.tracker);
                proof {
                    assert(conn.table_model() == op_apply(t0, self.ops@[pc as int]));
                }
            },
            Op::SelectWhere { pred } => {
                self.queue = conn.table.select_where(*pred);
                proof {
                    assert(self.queue_of() == op_emits(t0, self.ops@[pc as int]));
                }
            },
        }
        self.pc = pc + 1;
        self.io_ready = false;
        if self.queue.len() > 0 {
            proof {
                lemma_rows_model_remove(self.queue@, 0);
                assert(rows_model(self.queue@).remove(0) =~= rows_model(self.queue@).skip(1));
            }
            let row = self.queue.remove(0);
            self.current = Some(row);
            return Ok(StepResult::Row);
        }
        if self.pc == self.ops.len() {
            let cnt = self.tracker.count();
            conn.total = conn.total.saturating_add(cnt);
            if self.mutating {
                conn.last = cnt;
            }
            self.state = StmtState::Done;
            proof {
                assert(self.queue_of() =~= Seq::<RowModel>::empty());
            }
            return Ok(StepResult::Done);
        }
        self.pending_io = true;
        proof {
            assert(self.queue_of() =~= Seq::<RowModel>::empty());
        }
        Ok(StepResult::IO)
    }
}


impl Connection {
    /// Run one compiled program to completion: prepare it, drive the
    /// step machine, run the I/O reactor whenever it suspends, and
    /// collect the emitted rows. Succeeds exactly on well-formed
    /// programs that meet every identity constraint; an invalid program
    /// changes nothing, and a constraint failure never folds a count
    /// into the connection's counters.
    pub fn execute(&mut self, ops: Vec<Op>) -> (r: Result<Vec<Row>, EngineError>)
        requires
            old(self).wf(),
            !old(self).locked_of(),
            !old(self).interrupted_of(),
        ensures
            final(self).wf(),
            !final(self).locked_of(),
            !final(self).interrupted_of(),
            r is Ok <==> (ops_valid(old(self).table_model().width, ops@, 0) && ops_ok(
                old(self).table_model(),
                ops@,
                0,
            )),
            r is Ok ==> final(self).table_model() == ops_apply(old(self).table_model(), ops@, 0),
            r is Ok ==> rows_model(r->Ok_0@) == ops_emits(old(self).table_model(), ops@, 0),
            r is Ok ==> final(self).total_of() == sat64(
                old(self).total_of() + ops_count(old(self).table_model(), ops@, 0),
            ),
            r is Ok ==> final(self).last_of() == (if ops_mutating(ops@) {
                sat64(ops_count(old(self).table_model(), ops@, 0) as int)
            } else {
                old(self).last_of()
            }),
            !ops_valid(old(self).table_model().width, ops@, 0) ==> r == Err::<Vec<Row>, EngineError>(
                EngineError::InvalidProgram,
            ) && *final(self) == *old(self),
            ops_valid(old(self).table_model().width, ops@, 0) && !ops_ok(
                old(self).table_model(),
                ops@,
                0,
            ) ==> r == Err::<Vec<Row>, EngineError>(EngineError::Constraint) && final(self).total_of() == old(self).total_of() && final(self).last_of() == old(self).last_of(),
    {
        let ghost t0 = self.table_model();
        let mut stmt = match self.prepare(ops) {
            Err(e) => {
                return Err(e);
            },
            Ok(s) => s,
        };
        let mut out: Vec<Row> = Vec::new();
        let ghost mut done: nat = 0;
        proof {
            assert(rows_model(out@) =~= Seq::<RowModel>::empty());
            assert(sat64(0) == 0);
            assert(ops_emits(t0, ops@, 0) =~= rows_model(out@) + stmt.queue_of() + ops_emits(
                t0,
                ops@,
                0,
            ));
        }
        loop
            invariant
                self.wf(),
                !self.locked_of(),
                !self.interrupted_of(),
                stmt.valid_for(*self),
                stmt.ops_of() == ops@,
                stmt.mutating_of() == ops_mutating(ops@),
                stmt.state_of() is Active,
                !stmt.pending_io_of(),
                self.total_of() == old(self).total_of(),
                self.last_of() == old(self).last_of(),
                t0 == old(self).table_model(),
                ops_valid(t0.width, ops@, 0),
                ops_apply(t0, ops@, 0) == ops_apply(self.table_model(), ops@, stmt.pc_of() as int),
                ops_ok(t0, ops@, 0) == ops_ok(self.table_model(), ops@, stmt.pc_of() as int),
                ops_count(t0, ops@, 0) == done + ops_count(
                    self.table_model(),
                    ops@,
                    stmt.pc_of() as int,
                ),
                stmt.changes_of() == sat64(done as int),
                ops_emits(t0, ops@, 0) == rows_model(out@) + stmt.queue_of() + ops_emits(
                    self.table_model(),
                    ops@,
                    stmt.pc_of() as int,
                ),
            decreases
                    ops@.len() - stmt.pc_of(),
                    stmt.queue_of().len(),
                    (if stmt.io_ready_of() {
                        0int
                    } else {
                        1int
                    }),
        {
            let ghost s_pre = stmt;
            let ghost c_pre = *self;
            let res = stmt.step(self);
            match res {
                Err(_) => {
                    proof {
                        let op = s_pre.ops_of()[s_pre.pc_of() as int];
                        assert(!op_ok(c_pre.table_model(), op));
                        assert(!ops_ok(c_pre.table_model(), ops@, s_pre.pc_of() as int));
                    }
                    return Err(EngineError::Constraint);
                },
                Ok(StepResult::Row) => {
                    let row = stmt.current_row().duplicate();
                    let ghost out_pre = out@;
                    proof {
                        crate::values::lemma_rows_model_push(out@, row);
                    }
                    out.push(row);
                    proof {
                        if s_pre.queue_of().len() > 0 {
                            assert(s_pre.queue_of() =~= seq![s_pre.queue_of()[0]]
                                + s_pre.queue_of().skip(1));
                            assert(rows_model(out@) + stmt.queue_of() =~= rows_model(out_pre)
                                + s_pre.queue_of());
                        } else {
                            let op = s_pre.ops_of()[s_pre.pc_of() as int];
                            let tp = c_pre.table_model();
                            let em = op_emits(tp, op);
                            let opc = op_count(tp, op);
                            crate::tracker::lemma_sat64_chain(done as int, opc as int);
                            done = done + opc;
                            assert(ops_apply(tp, ops@, s_pre.pc_of() as int) == ops_apply(
                                op_apply(tp, op),
                                ops@,
                                s_pre.pc_of() as int + 1,
                            ));
                            assert(ops_ok(tp, ops@, s_pre.pc_of() as int) == ops_ok(
                                op_apply(tp, op),
                                ops@,
                                s_pre.pc_of() as int + 1,
                            ));
                            assert(ops_count(tp, ops@, s_pre.pc_of() as int) == opc + ops_count(
                                op_apply(tp, op),
                                ops@,
                                s_pre.pc_of() as int + 1,
                            ));
                            assert(ops_emits(tp, ops@, s_pre.pc_of() as int) == em + ops_emits(
                                op_apply(tp, op),
                                ops@,
                                s_pre.pc_of() as int + 1,
                            ));
                            assert(em =~= seq![em[0]] + em.skip(1));
                            assert(rows_model(out@) + stmt.queue_of() =~= rows_model(out_pre)
                                + em);
                        }
                    }
                },
                Ok(StepResult::IO) => {
                    proof {
                        if s_pre.io_ready_of() {
                            let op = s_pre.ops_of()[s_pre.pc_of() as int];
                            let tp = c_pre.table_model();
                            let opc = op_count(tp, op);
                            crate::tracker::lemma_sat64_chain(done as int, opc as int);
                            done = done + opc;
                            assert(ops_apply(tp, ops@, s_pre.pc_of() as int) == ops_apply(
                                op_apply(tp, op),
                                ops@,
                                s_pre.pc_of() as int + 1,
                            ));
                            assert(ops_ok(tp, ops@, s_pre.pc_of() as int) == ops_ok(
                                op_apply(tp, op),
                                ops@,
                                s_pre.pc_of() as int + 1,
                            ));
                            assert(ops_count(tp, ops@, s_pre.pc_of() as int) == opc + ops_count(
                                op_apply(tp, op),
                                ops@,
                                s_pre.pc_of() as int + 1,
                            ));
                            assert(ops_emits(tp, ops@, s_pre.pc_of() as int) == op_emits(tp, op)
                                + ops_emits(op_apply(tp, op), ops@, s_pre.pc_of() as int + 1));
                            assert(op_emits(tp, op) =~= Seq::<RowModel>::empty());
                            assert(rows_model(out@) + stmt.queue_of() + ops_emits(
                                self.table_model(),
                                ops@,
                                stmt.pc_of() as int,
                            ) =~= rows_model(out@) + s_pre.queue_of() + (op_emits(tp, op)
                                + ops_emits(self.table_model(), ops@, stmt.pc_of() as int)));
                        }
                    }
                    stmt.run_once();
                },
                Ok(StepResult::Done) => {
                    proof {
                        if s_pre.pc_of() == ops@.len() {
                            assert(ops_ok(c_pre.table_model(), ops@, s_pre.pc_of() as int));
                            crate::tracker::lemma_sat64_chain(done as int, 0);
                        } else {
                            let op = s_pre.ops_of()[s_pre.pc_of() as int];
                            let tp = c_pre.table_model();
                            let opc = op_count(tp, op);
                            crate::tracker::lemma_sat64_chain(done as int, opc as int);
                            done = done + opc;
                            assert(ops_apply(tp, ops@, s_pre.pc_of() as int) == ops_apply(
                                op_apply(tp, op),
                                ops@,
                                s_pre.pc_of() as int + 1,
                            ));
                            assert(ops_ok(tp, ops@, s_pre.pc_of() as int) == ops_ok(
                                op_apply(tp, op),
                                ops@,
                                s_pre.pc_of() as int + 1,
                            ));
                            assert(ops_count(tp, ops@, s_pre.pc_of() as int) == opc + ops_count(
                                op_apply(tp, op),
                                ops@,
                                s_pre.pc_of() as int + 1,
                            ));
                            assert(ops_emits(tp, ops@, s_pre.pc_of() as int) == op_emits(tp, op)
                                + ops_emits(op_apply(tp, op), ops@, s_pre.pc_of() as int + 1));
                            assert(op_emits(tp, op) =~= Seq::<RowModel>::empty());
                        }
                        crate::tracker::lemma_sat64_chain(
                            self.total_of() as int,
                            0,
                        );
                        assert(ops_emits(t0, ops@, 0) =~= rows_model(out@));
                        assert(ops_count(t0, ops@, 0) == done);
                    }
                    return Ok(out);
                },
                Ok(StepResult::Busy) => {
                    return vstd::pervasive::unreached();
                },
                Ok(StepResult::Interrupt) => {
                    return vstd::pervasive::unreached();
                },
            }
        }
    }
}

} // verus!
