use mysql::Value;
use mysql_samp::stmt::{count_placeholders, StmtManager, MAX_STMT_PARAMS};

/// The script that creates the handles in these tests.
fn dummy_ident() -> usize {
    1
}

/// Another script.
fn dummy_ident_2() -> usize {
    2
}

fn count(q: &str) -> usize {
    count_placeholders(q)
}

#[test]
fn stmt_counts_plain_placeholders() {
    assert_eq!(count("SELECT * FROM t WHERE a = ? AND b = ?"), 2);
}

#[test]
fn ignores_placeholder_inside_single_quotes() {
    assert_eq!(count("SELECT '?' FROM t WHERE a = ?"), 1);
}

#[test]
fn ignores_placeholder_inside_double_quotes() {
    assert_eq!(count(r#"SELECT "?" FROM t WHERE a = ?"#), 1);
}

#[test]
fn ignores_placeholder_inside_backticks() {
    assert_eq!(count("SELECT `we?rd` FROM t WHERE a = ?"), 1);
}

#[test]
fn handles_escaped_quote_in_literal() {
    assert_eq!(count(r"SELECT 'it\'s ?' FROM t WHERE a = ?"), 1);
}

#[test]
fn handles_doubled_quote_in_literal() {
    assert_eq!(count("SELECT 'it''s ?' FROM t WHERE a = ?"), 1);
}

#[test]
fn ignores_placeholder_in_line_comment() {
    assert_eq!(count("SELECT 1 -- ? comment\nWHERE a = ?"), 1);
    assert_eq!(count("SELECT 1 # ? comment\nWHERE a = ?"), 1);
}

#[test]
fn ignores_placeholder_in_block_comment() {
    assert_eq!(count("SELECT /* ? */ 1 WHERE a = ?"), 1);
}

#[test]
fn unterminated_literal_does_not_hang_or_panic() {
    assert_eq!(count("SELECT 'unterminated ?"), 0);
    assert_eq!(count("SELECT /* unterminated ?"), 0);
}

// StmtManager

#[test]
fn bind_respects_the_parameter_ceiling() {
    let mut mgr = StmtManager::new();
    let id = mgr.create(1, dummy_ident(), "SELECT ?".into());

    for _ in 0..MAX_STMT_PARAMS {
        assert!(mgr.bind(id, Value::Int(1)));
    }
    assert!(!mgr.bind(id, Value::Int(1)), "ceiling must be enforced");
}

#[test]
fn reset_clears_params_but_keeps_the_statement() {
    let mut mgr = StmtManager::new();
    let id = mgr.create(1, dummy_ident(), "SELECT ?".into());

    assert!(mgr.bind(id, Value::Int(7)));
    assert!(mgr.reset(id));
    assert_eq!(mgr.get(id).expect("still alive").params.len(), 0);
}

#[test]
fn stmt_operations_on_unknown_ids_fail() {
    let mut mgr = StmtManager::new();
    assert!(!mgr.bind(999, Value::Int(1)));
    assert!(!mgr.reset(999));
    assert!(!mgr.destroy(999));
    assert!(mgr.get(999).is_none());
}

#[test]
fn stmt_destroy_by_amx_only_touches_that_script() {
    let mut mgr = StmtManager::new();
    let mine = mgr.create(1, dummy_ident(), "SELECT 1".into());
    let other = mgr.create(1, dummy_ident_2(), "SELECT 2".into());

    mgr.destroy_by_amx(dummy_ident());

    assert!(mgr.get(mine).is_none(), "unloaded script's handle must go");
    assert!(mgr.get(other).is_some(), "other script must be untouched");
}

#[test]
fn stmt_destroy_by_conn_only_touches_that_connection() {
    let mut mgr = StmtManager::new();
    let on_one = mgr.create(1, dummy_ident(), "SELECT 1".into());
    let on_two = mgr.create(2, dummy_ident(), "SELECT 2".into());

    mgr.destroy_by_conn(1);

    assert!(mgr.get(on_one).is_none());
    assert!(mgr.get(on_two).is_some());
}

#[test]
fn destroy_removes_the_statement() {
    let mut mgr = StmtManager::new();
    let id = mgr.create(1, dummy_ident(), "SELECT 1".into());
    assert!(mgr.destroy(id));
    assert!(mgr.get(id).is_none());
}

#[test]
fn placeholder_count_is_exposed_on_the_statement() {
    let mut mgr = StmtManager::new();
    let id = mgr.create(
        1,
        dummy_ident(),
        "SELECT * FROM t WHERE a = ? AND b = ?".into(),
    );
    assert_eq!(mgr.get(id).expect("exists").placeholder_count(), 2);
}
