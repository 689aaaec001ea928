use vstd::prelude::*;

verus! {

/// An error of the backend, kept as text only.
#[derive(Clone, Debug, PartialEq, Eq)]
pub enum RuntimeErr {
    Internal(String),
}

/// The errors this driver reports.
#[derive(Clone, Debug, PartialEq, Eq)]
pub enum DbErr {
    /// Building a connection, or checking that it is alive, failed.
    Conn(RuntimeErr),
    /// A statement failed at the backend.
    Exec(RuntimeErr),
    /// A fetch failed at the backend.
    Query(RuntimeErr),
    /// The backend cannot do what was asked.
    BackendNotSupported { db: &'static str, ctx: &'static str },
}

#[verifier::external_type_specification]
#[verifier::external_body]
pub struct ExSqlxError(sqlx::Error);

/// Relies on `<sqlx::Error as Display>::fmt`: the error's message.
#[verifier::external_body]
fn error_text(err: &sqlx::Error) -> String {
    err.to_string()
}

/// A failed statement, with the backend's message as text.
pub fn exec_err_with_text(text: String) -> (r: DbErr)
    ensures
        r == DbErr::Exec(RuntimeErr::Internal(text)),
{
    DbErr::Exec(RuntimeErr::Internal(text))
}

/// A failed fetch, with the backend's message as text.
pub fn query_err_with_text(text: String) -> (r: DbErr)
    ensures
        r == DbErr::Query(RuntimeErr::Internal(text)),
{
    DbErr::Query(RuntimeErr::Internal(text))
}

/// A failed connection, with the backend's message as text.
pub fn conn_err_with_text(text: String) -> (r: DbErr)
    ensures
        r == DbErr::Conn(RuntimeErr::Internal(text)),
{
    DbErr::Conn(RuntimeErr::Internal(text))
}

/// A failed statement, with the backend's message (see `exec_err_with_text`).
pub fn d1_sqlx_error_to_exec_err(err: sqlx::Error) -> (r: DbErr)
    ensures
        r is Exec && r->Exec_0 is Internal,
{
    exec_err_with_text(error_text(&err))
}

/// A failed fetch, with the backend's message (see `query_err_with_text`).
pub fn d1_sqlx_error_to_query_err(err: sqlx::Error) -> (r: DbErr)
    ensures
        r is Query && r->Query_0 is Internal,
{
    query_err_with_text(error_text(&err))
}

/// A failed connection, with the backend's message (see `conn_err_with_text`).
pub fn d1_sqlx_error_to_conn_err(err: sqlx::Error) -> (r: DbErr)
    ensures
        r is Conn && r->Conn_0 is Internal,
{
    conn_err_with_text(error_text(&err))
}

} // verus!
