use stepdb::Action;
use stepdb::Connection;
use stepdb::EngineError;
use stepdb::Op;
use stepdb::Pred;
use stepdb::Row;
use stepdb::StepResult;
use stepdb::Value;

fn text_row(id: i64, v: &str) -> Row {
    Row { id, vals: vec![Value::Text(v.to_string())] }
}

fn insert(id: i64, v: &str) -> Op {
    Op::InsertRow { row: text_row(id, v) }
}

fn exec(conn: &mut Connection, ops: Vec<Op>) -> Vec<Row> {
    conn.execute(ops).expect("statement should succeed")
}

fn standard_table(conn: &mut Connection) {
    // CREATE TABLE t(id INTEGER PRIMARY KEY, value TEXT);
    exec(conn, vec![Op::CreateTable { width: 1 }]);
}

#[test]
fn changes_counts_updates_and_total_changes() {
    let mut conn = Connection::new();

    standard_table(&mut conn);
    // INSERT INTO t VALUES (1, 'a'), (2, 'b'), (3, 'c');
    exec(&mut conn, vec![insert(1, "a"), insert(2, "b"), insert(3, "c")]);
    // UPDATE t SET value = 'x' WHERE id <= 2;
    exec(
        &mut conn,
        vec![Op::UpdateWhere {
            pred: Pred::IdLe(2),
            action: Action::SetColumn(0, Value::Text("x".to_string())),
        }],
    );

    let changes = conn.changes();
    assert_eq!(changes, 2);

    let total = conn.total_changes();
    assert_eq!(total, 5, "3 inserts + 2 updates should be recorded");

    // Updates that touch no rows should not affect either counter.
    exec(
        &mut conn,
        vec![Op::UpdateWhere {
            pred: Pred::IdEq(99),
            action: Action::SetColumn(0, Value::Text("unused".to_string())),
        }],
    );
    let changes = conn.changes();
    assert_eq!(changes, 0);
    let total_after = conn.total_changes();
    assert_eq!(total_after, total);
}

#[test]
fn changes_counts_rowid_updates_once() {
    let mut conn = Connection::new();

    standard_table(&mut conn);
    exec(&mut conn, vec![insert(1, "a")]);

    // UPDATE t SET id = id + 10 WHERE id = 1;
    exec(
        &mut conn,
        vec![Op::UpdateWhere { pred: Pred::IdEq(1), action: Action::ShiftId(10) }],
    );

    let changes = conn.changes();
    assert_eq!(changes, 1, "rowid updates should count as a single change");
    let total = conn.total_changes();
    assert_eq!(total, 2, "one insert plus one rowid update");

    exec(
        &mut conn,
        vec![Op::UpdateWhere { pred: Pred::IdEq(99), action: Action::ShiftId(10) }],
    );
    let total_after = conn.total_changes();
    assert_eq!(total_after, total);
}

#[test]
fn statement_n_change_matches_changes_function() {
    let mut conn = Connection::new();

    standard_table(&mut conn);
    exec(&mut conn, vec![insert(1, "a"), insert(2, "b"), insert(3, "c")]);

    // UPDATE t SET value = 'updated' WHERE id BETWEEN 1 AND 3;
    let mut stmt = conn
        .prepare(vec![Op::UpdateWhere {
            pred: Pred::IdBetween(1, 3),
            action: Action::SetColumn(0, Value::Text("updated".to_string())),
        }])
        .unwrap();
    loop {
        match stmt.step(&mut conn).unwrap() {
            StepResult::Done => break,
            StepResult::IO => stmt.run_once(),
            StepResult::Row => unreachable!("UPDATE should not return rows"),
            StepResult::Busy | StepResult::Interrupt => panic!("unexpected step result"),
        }
    }

    let stmt_changes = stmt.n_change();
    assert_eq!(stmt_changes, 3);

    let function_changes = conn.changes();
    assert_eq!(stmt_changes, function_changes);
}

#[test]
fn select_emits_matching_rows_in_order_and_counts_nothing() {
    let mut conn = Connection::new();
    standard_table(&mut conn);
    exec(&mut conn, vec![insert(1, "a"), insert(2, "b"), insert(3, "c")]);
    let total = conn.total_changes();
    let last = conn.changes();

    let rows = exec(&mut conn, vec![Op::SelectWhere { pred: Pred::IdLe(2) }]);
    assert_eq!(rows, vec![text_row(1, "a"), text_row(2, "b")]);
    // A non-mutating statement folds a zero count and publishes nothing.
    assert_eq!(conn.total_changes(), total);
    assert_eq!(conn.changes(), last);
}

#[test]
fn step_after_done_keeps_returning_done() {
    let mut conn = Connection::new();
    standard_table(&mut conn);
    let mut stmt = conn.prepare(vec![insert(7, "z")]).unwrap();
    loop {
        match stmt.step(&mut conn).unwrap() {
            StepResult::Done => break,
            StepResult::IO => stmt.run_once(),
            _ => panic!("unexpected step result"),
        }
    }
    let total = conn.total_changes();
    // Terminal and monotone: more steps stay Done and never re-fold.
    assert_eq!(stmt.step(&mut conn).unwrap(), StepResult::Done);
    assert_eq!(stmt.step(&mut conn).unwrap(), StepResult::Done);
    assert_eq!(conn.total_changes(), total);
    assert_eq!(stmt.n_change(), 1);
}

#[test]
fn row_outcomes_hand_out_current_rows() {
    let mut conn = Connection::new();
    standard_table(&mut conn);
    exec(&mut conn, vec![insert(1, "a"), insert(2, "b")]);
    let mut stmt = conn.prepare(vec![Op::SelectWhere { pred: Pred::All }]).unwrap();
    let mut seen: Vec<i64> = Vec::new();
    loop {
        match stmt.step(&mut conn).unwrap() {
            StepResult::Done => break,
            StepResult::IO => stmt.run_once(),
            StepResult::Row => {
                assert!(stmt.has_current_row());
                seen.push(stmt.current_row().id);
            },
            _ => panic!("unexpected step result"),
        }
    }
    assert_eq!(seen, vec![1, 2]);
    assert_eq!(stmt.n_change(), 0);
}

#[test]
fn busy_reported_while_storage_is_locked() {
    let mut conn = Connection::new();
    standard_table(&mut conn);
    let mut stmt = conn.prepare(vec![insert(1, "a")]).unwrap();
    conn.lock_storage();
    assert_eq!(stmt.step(&mut conn).unwrap(), StepResult::Busy);
    assert_eq!(stmt.step(&mut conn).unwrap(), StepResult::Busy);
    conn.unlock_storage();
    loop {
        match stmt.step(&mut conn).unwrap() {
            StepResult::Done => break,
            StepResult::IO => stmt.run_once(),
            _ => panic!("unexpected step result"),
        }
    }
    assert_eq!(conn.total_changes(), 1);
}

#[test]
fn interrupt_aborts_without_folding() {
    let mut conn = Connection::new();
    standard_table(&mut conn);
    let mut stmt = conn.prepare(vec![insert(1, "a"), insert(2, "b")]).unwrap();
    // Run the first insert, then request cancellation.
    assert_eq!(stmt.step(&mut conn).unwrap(), StepResult::IO);
    stmt.run_once();
    assert_eq!(stmt.step(&mut conn).unwrap(), StepResult::IO);
    conn.interrupt();
    assert_eq!(stmt.step(&mut conn).unwrap(), StepResult::Interrupt);
    // The aborted statement is terminal and contributed nothing.
    assert_eq!(stmt.step(&mut conn).unwrap(), StepResult::Interrupt);
    assert_eq!(conn.total_changes(), 0);
    conn.clear_interrupt();
}

#[test]
fn invalid_programs_are_refused_by_prepare() {
    let mut conn = Connection::new();
    standard_table(&mut conn);
    // Row arity does not match the declared width.
    let bad = Row { id: 1, vals: vec![] };
    match conn.prepare(vec![Op::InsertRow { row: bad }]) {
        Err(EngineError::InvalidProgram) => {},
        _ => panic!("arity mismatch must be refused"),
    }
    // A column index beyond the width is refused too.
    match conn.execute(vec![Op::UpdateWhere {
        pred: Pred::All,
        action: Action::SetColumn(5, Value::Null),
    }]) {
        Err(EngineError::InvalidProgram) => {},
        _ => panic!("column out of range must be refused"),
    }
}

#[test]
fn duplicate_identity_is_a_constraint_error() {
    let mut conn = Connection::new();
    standard_table(&mut conn);
    exec(&mut conn, vec![insert(1, "a")]);
    let total = conn.total_changes();
    match conn.execute(vec![insert(1, "again")]) {
        Err(EngineError::Constraint) => {},
        _ => panic!("duplicate identity must fail"),
    }
    // A failed statement folds nothing.
    assert_eq!(conn.total_changes(), total);
}

#[test]
fn key_shift_collision_and_overflow_are_constraint_errors() {
    let mut conn = Connection::new();
    standard_table(&mut conn);
    exec(&mut conn, vec![insert(1, "a"), insert(11, "b")]);
    let total = conn.total_changes();
    match conn.execute(vec![Op::UpdateWhere { pred: Pred::IdEq(1), action: Action::ShiftId(10) }]) {
        Err(EngineError::Constraint) => {},
        _ => panic!("identity collision must fail"),
    }
    assert_eq!(conn.total_changes(), total);

    exec(&mut conn, vec![insert(i64::MAX, "c")]);
    match conn.execute(vec![Op::UpdateWhere {
        pred: Pred::IdEq(i64::MAX),
        action: Action::ShiftId(1),
    }]) {
        Err(EngineError::Constraint) => {},
        _ => panic!("identity overflow must fail"),
    }
}

#[test]
fn delete_counts_distinct_matched_rows() {
    let mut conn = Connection::new();
    standard_table(&mut conn);
    exec(&mut conn, vec![insert(1, "a"), insert(2, "b"), insert(3, "c")]);
    exec(&mut conn, vec![Op::DeleteWhere { pred: Pred::IdLe(2) }]);
    assert_eq!(conn.changes(), 2);
    assert_eq!(conn.total_changes(), 5);
    let rows = exec(&mut conn, vec![Op::SelectWhere { pred: Pred::All }]);
    assert_eq!(rows, vec![text_row(3, "c")]);
}

#[test]
fn key_shift_matching_all_rows_counts_each_once() {
    let mut conn = Connection::new();
    standard_table(&mut conn);
    exec(&mut conn, vec![insert(1, "a"), insert(2, "b"), insert(3, "c")]);
    exec(&mut conn, vec![Op::UpdateWhere { pred: Pred::All, action: Action::ShiftId(10) }]);
    assert_eq!(conn.changes(), 3);
    let rows = exec(&mut conn, vec![Op::SelectWhere { pred: Pred::All }]);
    let ids: Vec<i64> = rows.iter().map(|r| r.id).collect();
    assert_eq!(ids, vec![11, 12, 13]);
}

#[test]
fn reset_total_changes_clears_the_cumulative_counter() {
    let mut conn = Connection::new();
    standard_table(&mut conn);
    exec(&mut conn, vec![insert(1, "a")]);
    assert_eq!(conn.total_changes(), 1);
    conn.reset_total_changes();
    assert_eq!(conn.total_changes(), 0);
    exec(&mut conn, vec![insert(2, "b")]);
    assert_eq!(conn.total_changes(), 1);
}

#[test]
fn empty_program_completes_with_no_changes() {
    let mut conn = Connection::new();
    let before = conn.changes();
    let rows = exec(&mut conn, vec![]);
    assert!(rows.is_empty());
    assert_eq!(conn.total_changes(), 0);
    assert_eq!(conn.changes(), before);
}
