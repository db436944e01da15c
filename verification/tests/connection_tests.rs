use mysql_samp::connection::{escape_identifier, escape_string, ConnectionManager, EscapeMode};
use mysql_samp::error::MysqlError;

// escape_string tests

#[test]
fn escape_empty_string() {
    assert_eq!(escape_string("", EscapeMode::Backslash), "");
}

#[test]
fn escape_no_special_chars() {
    assert_eq!(
        escape_string("hello world", EscapeMode::Backslash),
        "hello world"
    );
}

#[test]
fn escape_single_quote() {
    assert_eq!(escape_string("it's", EscapeMode::Backslash), "it\\'s");
}

#[test]
fn escape_double_quote() {
    assert_eq!(
        escape_string(r#"say "hi""#, EscapeMode::Backslash),
        r#"say \"hi\""#
    );
}

#[test]
fn escape_backslash() {
    assert_eq!(
        escape_string(r"path\to", EscapeMode::Backslash),
        r"path\\to"
    );
}

#[test]
fn escape_null_byte() {
    assert_eq!(escape_string("a\0b", EscapeMode::Backslash), "a\\0b");
}

#[test]
fn escape_newline() {
    assert_eq!(
        escape_string("line1\nline2", EscapeMode::Backslash),
        "line1\\nline2"
    );
}

#[test]
fn escape_carriage_return() {
    assert_eq!(
        escape_string("line1\rline2", EscapeMode::Backslash),
        "line1\\rline2"
    );
}

#[test]
fn escape_ctrl_z() {
    assert_eq!(
        escape_string("data\x1aend", EscapeMode::Backslash),
        "data\\Zend"
    );
}

#[test]
fn escape_multiple_special_chars() {
    assert_eq!(
        escape_string("it's a \"test\"\nwith\\stuff", EscapeMode::Backslash),
        "it\\'s a \\\"test\\\"\\nwith\\\\stuff"
    );
}

#[test]
fn escape_utf8_passthrough() {
    assert_eq!(
        escape_string("café ñ 日本語", EscapeMode::Backslash),
        "café ñ 日本語"
    );
}

#[test]
fn escape_sql_injection_attempt() {
    assert_eq!(
        escape_string("'; DROP TABLE users; --", EscapeMode::Backslash),
        "\\'; DROP TABLE users; --"
    );
}

#[test]
fn escape_consecutive_quotes() {
    // Three quotes in a row must each be escaped individually.
    assert_eq!(escape_string("'''", EscapeMode::Backslash), "\\'\\'\\'");
}

#[test]
fn escape_already_escaped_is_double_escaped() {
    // Important invariant: feeding the function its own output produces
    // a different (deeper-escaped) string. Callers must escape EXACTLY ONCE.
    let once = escape_string("a'b", EscapeMode::Backslash);
    let twice = escape_string(&once, EscapeMode::Backslash);
    assert_ne!(once, twice);
    // After two escapes: 'a', '\\', '\\', '\\', '\'', 'b'  → r"a\\\'b" with each char doubled.
    assert_eq!(twice, "a\\\\\\'b");
}

#[test]
fn escape_all_specials_at_once() {
    // \0 \n \r \\ \' \" \x1a
    let input = "\0\n\r\\\'\"\x1a";
    let expected = "\\0\\n\\r\\\\\\'\\\"\\Z";
    assert_eq!(escape_string(input, EscapeMode::Backslash), expected);
}

#[test]
fn escape_low_control_chars_passthrough() {
    // Only \0 \n \r \x1a are special. Other low-ASCII control bytes
    // pass through unchanged (no \xNN encoding is done).
    assert_eq!(
        escape_string("\x01\x07\x08\x0b", EscapeMode::Backslash),
        "\x01\x07\x08\x0b"
    );
}

// NO_BACKSLASH_ESCAPES mode

#[test]
fn no_backslash_mode_doubles_quote() {
    assert_eq!(
        escape_string("O'Brien", EscapeMode::NoBackslashEscapes),
        "O''Brien"
    );
}

#[test]
fn no_backslash_mode_leaves_backslash_literal() {
    // The backslash is not an escape character in this mode, so doubling
    // it would corrupt the value instead of protecting it.
    assert_eq!(
        escape_string(r"path\to", EscapeMode::NoBackslashEscapes),
        r"path\to"
    );
}

#[test]
fn no_backslash_mode_blocks_the_backslash_quote_escape() {
    // The attack the mode enables: under NO_BACKSLASH_ESCAPES the server
    // reads `\'` as a literal backslash followed by a LIVE quote, so the
    // backslash escaper would let this input terminate the literal early.
    // Doubling leaves no unpaired quote behind.
    let escaped = escape_string(r"\' OR 1=1 -- ", EscapeMode::NoBackslashEscapes);
    assert_eq!(escaped, r"\'' OR 1=1 -- ");
    assert_eq!(escaped.matches('\'').count() % 2, 0);
}

#[test]
fn backslash_mode_still_escapes_the_quote() {
    // Same input on a default server: here the backslash IS an escape
    // character, so the quote must be backslash-escaped instead.
    assert_eq!(
        escape_string(r"\' OR 1=1 -- ", EscapeMode::Backslash),
        r"\\\' OR 1=1 -- "
    );
}

// escape_identifier tests

#[test]
fn identifier_no_backticks() {
    assert_eq!(escape_identifier("users"), "users");
}

#[test]
fn identifier_with_backticks() {
    assert_eq!(escape_identifier("us`ers"), "users");
}

#[test]
fn identifier_all_backticks() {
    assert_eq!(escape_identifier("```"), "");
}

#[test]
fn identifier_empty() {
    assert_eq!(escape_identifier(""), "");
}

// ConnectionManager tests (without MySQL connection)

#[test]
fn connection_manager_new() {
    let mgr = ConnectionManager::new();
    assert_eq!(mgr.global_error.code, MysqlError::NoError);
    assert!(!mgr.is_open(1));
}

#[test]
fn connection_manager_exists_false() {
    let mgr = ConnectionManager::new();
    assert!(!mgr.is_open(0));
    assert!(!mgr.is_open(1));
    assert!(!mgr.is_open(999));
}

#[test]
fn connection_manager_disconnect_nonexistent() {
    let mut mgr = ConnectionManager::new();
    assert!(!mgr.disconnect(1));
}

#[test]
fn connection_manager_get_error_global() {
    let mgr = ConnectionManager::new();
    let err = mgr.get_error(0);
    assert_eq!(err.code, MysqlError::NoError);
}

#[test]
fn connection_manager_get_error_nonexistent_falls_back() {
    let mgr = ConnectionManager::new();
    let err = mgr.get_error(999);
    assert_eq!(err.code, MysqlError::NoError); // falls back to global
}

#[test]
fn connection_manager_get_pool_nonexistent() {
    let mgr = ConnectionManager::new();
    assert!(mgr.get_pool(1).is_none());
}
