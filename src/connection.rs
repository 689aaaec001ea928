use std::sync::Arc;
use vstd::prelude::*;

use crate::error::{DbErr, RuntimeErr};
use crate::splitter::{split_unprepared_sql, statements};

verus! {

broadcast use vstd::string::group_string_axioms;

#[verifier::external_type_specification]
#[verifier::external_body]
pub struct ExD1Connection(sqlx_d1::D1Connection);

#[verifier::external_type_specification]
#[verifier::external_body]
pub struct ExValues(sea_query::Values);

/// A statement: SQL text and the values bound to its placeholders.
pub struct Statement {
    pub sql: String,
    pub values: Option<sea_query::Values>,
}

/// Transaction isolation levels a caller may ask for.
#[derive(Clone, Copy, Debug, PartialEq, Eq, Structural)]
pub enum IsolationLevel {
    RepeatableRead,
    ReadCommitted,
    ReadUncommitted,
    Serializable,
}

/// Transaction access modes a caller may ask for.
#[derive(Clone, Copy, Debug, PartialEq, Eq, Structural)]
pub enum AccessMode {
    ReadOnly,
    ReadWrite,
}

/// The connector for Cloudflare D1 through `sqlx-d1`. D1 has no connection pool.
#[derive(Debug)]
pub struct SqlxD1Connector;

/// A D1 connection. The handle is shared by its clones; `M` is the metric callback
/// that observes each call.
pub struct SqlxD1Connection<M> {
    pub conn: sqlx_d1::D1Connection,
    pub metric_callback: Option<Arc<M>>,
}

impl SqlxD1Connector {
    /// A connection over an existing `sqlx_d1::D1Connection`, with no metric callback.
    pub fn from_sqlx_d1_connection<M>(conn: sqlx_d1::D1Connection) -> (r: SqlxD1Connection<M>)
        ensures
            r.conn == conn,
            r.metric_callback is None,
    {
        SqlxD1Connection { conn, metric_callback: None }
    }
}

/// The SQL that checks that the backend answers.
pub const PING_SQL: &'static str = "SELECT 1";

impl<M> SqlxD1Connection<M> {
    /// Registers the callback that observes each call; the handle is kept.
    pub fn set_metric_callback(&mut self, callback: M)
        ensures
            final(self).conn == old(self).conn,
            final(self).metric_callback == Some(Arc::new(callback)),
    {
        self.metric_callback = Some(Arc::new(callback));
    }

    /// Streaming: D1 has no server-side cursor, so this always fails.
    pub fn stream<T>(&self, _stmt: &Statement) -> (r: Result<T, DbErr>)
        ensures
            r == Err::<T, DbErr>(DbErr::BackendNotSupported { db: "D1", ctx: "QueryStream" }),
    {
        Err(DbErr::BackendNotSupported { db: "D1", ctx: "QueryStream" })
    }

    /// Closes the connection: D1 holds nothing to release, so this always succeeds.
    pub fn close(self) -> (r: Result<(), DbErr>)
        ensures
            r == Ok::<(), DbErr>(()),
    {
        self.close_by_ref()
    }

    /// Closes the connection: D1 holds nothing to release, so this always succeeds.
    pub fn close_by_ref(&self) -> (r: Result<(), DbErr>)
        ensures
            r == Ok::<(), DbErr>(()),
    {
        Ok(())
    }
}

/// Whether a transaction request carries settings that D1 cannot honour (and that
/// are therefore ignored, with a warning, rather than refused).
pub fn transaction_settings_ignored(
    isolation_level: Option<IsolationLevel>,
    access_mode: Option<AccessMode>,
) -> (r: bool)
    ensures
        r == (isolation_level is Some || access_mode is Some),
{
    isolation_level.is_some() || access_mode.is_some()
}

/// Whether `r` is the connection error that a failed ping reports for `e`: the same
/// backend error, or for an unsupported operation the operation's name as text.
pub open spec fn is_liveness_error(e: DbErr, r: DbErr) -> bool {
    match e {
        DbErr::Conn(x) => r == DbErr::Conn(x),
        DbErr::Exec(x) => r == DbErr::Conn(x),
        DbErr::Query(x) => r == DbErr::Conn(x),
        DbErr::BackendNotSupported { db, ctx } => match r {
            DbErr::Conn(RuntimeErr::Internal(text)) => text@ == ctx@,
            _ => false,
        },
    }
}

/// A transaction on D1: it runs on the connection it was begun on, with no atomicity;
/// nothing is rolled back when an operation fails.
pub struct D1Transaction<M> {
    pub conn: sqlx_d1::D1Connection,
    pub metric_callback: Option<Arc<M>>,
}

/// Begins a transaction on `conn`. It never fails: isolation and access settings that
/// D1 cannot honour are ignored, and the second result says whether any were given,
/// so that the caller can warn.
pub fn begin_transaction<M>(
    conn: sqlx_d1::D1Connection,
    metric_callback: Option<Arc<M>>,
    isolation_level: Option<IsolationLevel>,
    access_mode: Option<AccessMode>,
) -> (r: (Result<D1Transaction<M>, DbErr>, bool))
    ensures
        r.0 is Ok,
        r.0->Ok_0.conn == conn,
        r.0->Ok_0.metric_callback == metric_callback,
        r.1 == (isolation_level is Some || access_mode is Some),
{
    let ignored = transaction_settings_ignored(isolation_level, access_mode);
    (Ok(D1Transaction { conn, metric_callback }), ignored)
}

/// What the outcome of `PING_SQL` makes of a ping: success exactly when the query
/// succeeded, and otherwise a connection error carrying the query's error.
pub fn ping_outcome<R>(outcome: Result<R, DbErr>) -> (r: Result<(), DbErr>)
    ensures
        r is Ok <==> outcome is Ok,
        outcome is Err ==> r is Err && is_liveness_error(outcome->Err_0, r->Err_0),
{
    match outcome {
        Ok(_) => Ok(()),
        Err(DbErr::Conn(r)) => Err(DbErr::Conn(r)),
        Err(DbErr::Exec(r)) => Err(DbErr::Conn(r)),
        Err(DbErr::Query(r)) => Err(DbErr::Conn(r)),
        Err(DbErr::BackendNotSupported { ctx, .. }) => Err(DbErr::Conn(RuntimeErr::Internal(ctx.to_string()))),
    }
}

/// The statements that an unprepared execution of `sql` runs, in order. Text of at
/// most one statement runs whole, as given; otherwise each statement runs on its own.
pub fn unprepared_batch<'a>(sql: &'a str) -> (r: Vec<&'a str>)
    ensures
        statements(sql@).len() <= 1 ==> r@ == seq![sql],
        statements(sql@).len() > 1 ==> r@.len() == statements(sql@).len() && forall|k: int|
            0 <= k < r@.len() ==> #[trigger] r@[k]@ == statements(sql@)[k],
{
    let stmts = split_unprepared_sql(sql);
    if stmts.len() <= 1 {
        let mut one: Vec<&'a str> = Vec::new();
        one.push(sql);
        proof {
            assert(one@ =~= seq![sql]);
        }
        one
    } else {
        stmts
    }
}

/// The next move of an unprepared batch.
pub enum BatchStep<R> {
    /// Run the statement at this index.
    Run(usize),
    /// The batch is over, with this result.
    Done(Result<R, DbErr>),
}

/// The move after statement `index` of `count` ended with `outcome`: the batch stops
/// at the first error and returns it, and otherwise returns the last statement's result.
pub open spec fn next_step<R>(count: int, index: int, outcome: Result<R, DbErr>) -> BatchStep<R> {
    match outcome {
        Err(e) => BatchStep::Done(Err(e)),
        Ok(v) => if index + 1 < count {
            BatchStep::Run((index + 1) as usize)
        } else {
            BatchStep::Done(Ok(v))
        },
    }
}

/// The first move of a batch of `count` statements.
pub fn first_step<R>(count: usize) -> (r: BatchStep<R>)
    ensures
        count > 0 ==> r == BatchStep::<R>::Run(0),
        count == 0 ==> match r {
            BatchStep::Done(Err(DbErr::Exec(RuntimeErr::Internal(text)))) => text@ == "empty SQL"@,
            _ => false,
        },
{
    if count == 0 {
        BatchStep::Done(Err(DbErr::Exec(RuntimeErr::Internal("empty SQL".to_string()))))
    } else {
        BatchStep::Run(0)
    }
}

/// The move after statement `index` of `count` ended with `outcome` (see `next_step`).
pub fn after_statement<R>(count: usize, index: usize, outcome: Result<R, DbErr>) -> (r: BatchStep<R>)
    requires
        index < count,
    ensures
        r == next_step(count as int, index as int, outcome),
{
    match outcome {
        Err(e) => BatchStep::Done(Err(e)),
        Ok(v) => if count - index > 1 {
            BatchStep::Run(index + 1)
        } else {
            BatchStep::Done(Ok(v))
        },
    }
}

/// A batch of `count` statements run from statement `i`, where statement `k` ends with
/// `outcomes[k]`: how many statements ran, and the batch's result.
pub open spec fn run_batch_from<R>(count: int, i: int, outcomes: Seq<Result<R, DbErr>>) -> (
    int,
    Option<Result<R, DbErr>>,
)
    decreases count - i,
{
    if 0 <= i < count && i < outcomes.len() {
        match next_step(count, i, outcomes[i]) {
            BatchStep::Run(j) => if i < j <= count {
                run_batch_from(count, j as int, outcomes)
            } else {
                (i + 1, None)
            },
            BatchStep::Done(res) => (i + 1, Some(res)),
        }
    } else {
        (i, None)
    }
}

/// A batch stops at its first failing statement: the statements before it and the
/// failing one have run, none after it has, and the batch returns that statement's error.
pub proof fn batch_stops_at_first_failure<R>(outcomes: Seq<Result<R, DbErr>>, k: int)
    requires
        0 <= k < outcomes.len() <= usize::MAX,
        outcomes[k] is Err,
        forall|j: int| 0 <= j < k ==> #[trigger] outcomes[j] is Ok,
    ensures
        run_batch_from(outcomes.len() as int, 0, outcomes) == (k + 1, Some(outcomes[k])),
{
    lemma_run_until_failure(outcomes, 0, k);
}

proof fn lemma_run_until_failure<R>(outcomes: Seq<Result<R, DbErr>>, i: int, k: int)
    requires
        0 <= i <= k < outcomes.len() <= usize::MAX,
        outcomes[k] is Err,
        forall|j: int| 0 <= j < k ==> #[trigger] outcomes[j] is Ok,
    ensures
        run_batch_from(outcomes.len() as int, i, outcomes) == (k + 1, Some(outcomes[k])),
    decreases k - i,
{
    if i < k {
        assert(outcomes[i] is Ok);
        lemma_run_until_failure(outcomes, i + 1, k);
    }
}

/// A batch whose statements all succeed runs them all and returns the last one's result.
pub proof fn batch_without_failure_runs_all<R>(outcomes: Seq<Result<R, DbErr>>)
    requires
        0 < outcomes.len() <= usize::MAX,
        forall|j: int| 0 <= j < outcomes.len() ==> #[trigger] outcomes[j] is Ok,
    ensures
        run_batch_from(outcomes.len() as int, 0, outcomes) == (
            outcomes.len() as int,
            Some(outcomes[outcomes.len() - 1]),
        ),
{
    lemma_run_all(outcomes, 0);
}

proof fn lemma_run_all<R>(outcomes: Seq<Result<R, DbErr>>, i: int)
    requires
        0 <= i < outcomes.len() <= usize::MAX,
        forall|j: int| 0 <= j < outcomes.len() ==> #[trigger] outcomes[j] is Ok,
    ensures
        run_batch_from(outcomes.len() as int, i, outcomes) == (
            outcomes.len() as int,
            Some(outcomes[outcomes.len() - 1]),
        ),
    decreases outcomes.len() - i,
{
    assert(outcomes[i] is Ok);
    if i + 1 < outcomes.len() {
        lemma_run_all(outcomes, i + 1);
    }
}

} // verus!
