use d1_driver::error::{
    conn_err_with_text, d1_sqlx_error_to_conn_err, d1_sqlx_error_to_exec_err,
    d1_sqlx_error_to_query_err, exec_err_with_text, query_err_with_text, DbErr, RuntimeErr,
};

#[test]
fn error_helpers_keep_text_and_kind() {
    let t = || "disk I/O error".to_string();
    assert_eq!(exec_err_with_text(t()), DbErr::Exec(RuntimeErr::Internal(t())));
    assert_eq!(query_err_with_text(t()), DbErr::Query(RuntimeErr::Internal(t())));
    assert_eq!(conn_err_with_text(t()), DbErr::Conn(RuntimeErr::Internal(t())));
}

#[test]
fn backend_errors_keep_their_message() {
    match d1_sqlx_error_to_exec_err(sqlx::Error::Protocol("no such table: t".to_string())) {
        DbErr::Exec(RuntimeErr::Internal(text)) => assert!(text.contains("no such table: t")),
        other => panic!("unexpected {other:?}"),
    }
    match d1_sqlx_error_to_query_err(sqlx::Error::RowNotFound) {
        DbErr::Query(RuntimeErr::Internal(text)) => assert!(!text.is_empty()),
        other => panic!("unexpected {other:?}"),
    }
    match d1_sqlx_error_to_conn_err(sqlx::Error::PoolTimedOut) {
        DbErr::Conn(RuntimeErr::Internal(text)) => assert!(!text.is_empty()),
        other => panic!("unexpected {other:?}"),
    }
}
