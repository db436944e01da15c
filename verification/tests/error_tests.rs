use mysql_samp::error::{ErrorState, MysqlError};

#[test]
fn error_codes_match_repr() {
    assert_eq!(MysqlError::NoError.code(), 0);
    assert_eq!(MysqlError::ConnectionFailed.code(), 1);
    assert_eq!(MysqlError::InvalidOptions.code(), 2);
    assert_eq!(MysqlError::InvalidConnection.code(), 3);
    assert_eq!(MysqlError::PingFailed.code(), 4);
    assert_eq!(MysqlError::QueryFailed.code(), 5);
    assert_eq!(MysqlError::NoCacheActive.code(), 6);
    assert_eq!(MysqlError::InvalidOrm.code(), 7);
    assert_eq!(MysqlError::OrmKeyNotSet.code(), 8);
}

#[test]
fn error_state_ok() {
    let state = ErrorState::ok();
    assert_eq!(state.code, MysqlError::NoError);
    assert!(state.message.is_empty());
}

#[test]
fn error_state_new_with_str() {
    let state = ErrorState::new(MysqlError::ConnectionFailed, "connection refused");
    assert_eq!(state.code, MysqlError::ConnectionFailed);
    assert_eq!(state.message, "connection refused");
}

#[test]
fn error_state_new_with_string() {
    let msg = String::from("timeout exceeded");
    let state = ErrorState::new(MysqlError::PingFailed, msg);
    assert_eq!(state.code, MysqlError::PingFailed);
    assert_eq!(state.message, "timeout exceeded");
}

#[test]
fn error_state_clone() {
    let state = ErrorState::new(MysqlError::QueryFailed, "syntax error");
    let cloned = state.clone();
    assert_eq!(cloned.code, MysqlError::QueryFailed);
    assert_eq!(cloned.message, "syntax error");
}

#[test]
fn mysql_error_equality() {
    assert_eq!(MysqlError::NoError, MysqlError::NoError);
    assert_ne!(MysqlError::NoError, MysqlError::ConnectionFailed);
}
