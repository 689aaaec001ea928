use d1_driver::connection::{
    after_statement, first_step, ping_outcome, transaction_settings_ignored, unprepared_batch,
    AccessMode, BatchStep, IsolationLevel, PING_SQL,
};
use d1_driver::error::{DbErr, RuntimeErr};

fn exec_err(text: &str) -> DbErr {
    DbErr::Exec(RuntimeErr::Internal(text.to_string()))
}

/// Drives a batch of `count` statements whose outcomes are given; returns the indices
/// that ran and the result.
fn drive(count: usize, outcomes: &[Result<u32, DbErr>]) -> (Vec<usize>, Result<u32, DbErr>) {
    let mut ran = Vec::new();
    let mut step = first_step::<u32>(count);
    loop {
        match step {
            BatchStep::Run(i) => {
                ran.push(i);
                step = after_statement(count, i, outcomes[i].clone());
            }
            BatchStep::Done(r) => return (ran, r),
        }
    }
}

#[test]
fn second_of_three_failing_stops_batch() {
    let outcomes = vec![Ok(1), Err(exec_err("no such table: t")), Ok(3)];
    let (ran, r) = drive(3, &outcomes);
    assert_eq!(ran, vec![0, 1]);
    assert_eq!(r, Err(exec_err("no such table: t")));
}

#[test]
fn batch_returns_last_result() {
    let (ran, r) = drive(3, &[Ok(1), Ok(2), Ok(3)]);
    assert_eq!(ran, vec![0, 1, 2]);
    assert_eq!(r, Ok(3));
}

#[test]
fn empty_batch_is_an_error() {
    let (ran, r) = drive(0, &[]);
    assert!(ran.is_empty());
    assert_eq!(r, Err(exec_err("empty SQL")));
}

#[test]
fn unprepared_batch_runs_single_text_whole() {
    assert_eq!(unprepared_batch("SELECT 1;"), vec!["SELECT 1;"]);
    assert_eq!(unprepared_batch("  "), vec!["  "]);
    assert_eq!(
        unprepared_batch("INSERT INTO t VALUES (1); SELECT 2;"),
        vec!["INSERT INTO t VALUES (1)", " SELECT 2"]
    );
}

#[test]
fn ping_follows_query_outcome() {
    assert_eq!(PING_SQL, "SELECT 1");
    assert_eq!(ping_outcome::<u32>(Ok(7)), Ok(()));
    assert_eq!(
        ping_outcome::<u32>(Err(exec_err("down"))),
        Err(DbErr::Conn(RuntimeErr::Internal("down".to_string())))
    );
    assert_eq!(
        ping_outcome::<u32>(Err(DbErr::Query(RuntimeErr::Internal("gone".to_string())))),
        Err(DbErr::Conn(RuntimeErr::Internal("gone".to_string())))
    );
}

#[test]
fn transaction_settings_are_ignored_not_refused() {
    assert!(!transaction_settings_ignored(None, None));
    assert!(transaction_settings_ignored(Some(IsolationLevel::Serializable), None));
    assert!(transaction_settings_ignored(None, Some(AccessMode::ReadOnly)));
    assert!(transaction_settings_ignored(
        Some(IsolationLevel::ReadCommitted),
        Some(AccessMode::ReadWrite)
    ));
}
