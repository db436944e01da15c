use mysql_samp::connection::{
    detect_escape_mode, format_status, plan_connection, retry_after, script_error_message,
    set_names_query, ConnectStage, ConnectionManager, Endpoint, EscapeMode, IdentityWarning,
    ResultCollector,
};
use mysql_samp::cache::ResultSet;
use mysql_samp::options::MysqlOptions;

#[test]
fn a_slash_makes_the_host_a_socket() {
    let plan = plan_connection("/run/mysqld.sock", "u", "p", "d", &MysqlOptions::default());
    assert!(matches!(plan.endpoint, Endpoint::Socket(ref s) if s == "/run/mysqld.sock"));
    let plan = plan_connection("db.local", "u", "p", "d", &MysqlOptions::default());
    assert!(matches!(plan.endpoint, Endpoint::Tcp { ref host, port: 3306 } if host == "db.local"));
    assert_eq!(plan.init, vec!["SET NAMES utf8mb4".to_string()]);
    assert!(plan.tls.is_none());
    assert!(plan.connect_timeout_secs.is_none());
}

#[test]
fn tls_settings_follow_the_options() {
    let mut opts = MysqlOptions::default();
    opts.ssl = true;
    opts.ssl_ca = Some("ca.pem".to_string());
    opts.ssl_cert = Some("cert.pem".to_string());
    opts.ssl_verify_cert = false;
    opts.connect_timeout = Some(10);
    let plan = plan_connection("h", "u", "p", "d", &opts);
    assert_eq!(plan.connect_timeout_secs, Some(10));
    let tls = plan.tls.expect("tls on");
    assert_eq!(tls.root_cert.as_deref(), Some("ca.pem"));
    assert!(tls.client_identity.is_none());
    assert_eq!(tls.identity_warning, Some(IdentityWarning::CertWithoutKey));
    assert!(tls.accept_invalid);

    opts.ssl_key = Some("key.pem".to_string());
    let tls = plan_connection("h", "u", "p", "d", &opts).tls.expect("tls on");
    assert_eq!(
        tls.client_identity,
        Some(("cert.pem".to_string(), "key.pem".to_string()))
    );
    assert_eq!(tls.identity_warning, None);
}

#[test]
fn sql_mode_decides_the_escaping() {
    assert_eq!(detect_escape_mode(None), EscapeMode::Backslash);
    assert_eq!(detect_escape_mode(Some("STRICT_TRANS_TABLES")), EscapeMode::Backslash);
    assert_eq!(
        detect_escape_mode(Some("STRICT_TRANS_TABLES, no_backslash_escapes ,X")),
        EscapeMode::NoBackslashEscapes
    );
    assert_eq!(detect_escape_mode(Some("NO_BACKSLASH_ESCAPES_X")), EscapeMode::Backslash);
    assert_eq!(detect_escape_mode(Some("")), EscapeMode::Backslash);
}

#[test]
fn charset_statement_is_escaped() {
    assert_eq!(set_names_query("utf8mb4", EscapeMode::Backslash), "SET NAMES 'utf8mb4'");
    assert_eq!(set_names_query("a'b", EscapeMode::Backslash), "SET NAMES 'a\\'b'");
    assert_eq!(set_names_query("a'b", EscapeMode::NoBackslashEscapes), "SET NAMES 'a''b'");
}

#[test]
fn status_line_keeps_the_documented_order() {
    let rows = vec![
        ("Open_tables".to_string(), "4".to_string()),
        ("Uptime".to_string(), "100".to_string()),
        ("Other".to_string(), "x".to_string()),
        ("Uptime".to_string(), "999".to_string()),
    ];
    assert_eq!(format_status(&rows), "Uptime: 100  Open_tables: 4");
    assert_eq!(format_status(&vec![]), "");
}

#[test]
fn a_failed_connect_is_recorded() {
    let mut mgr = ConnectionManager::new();
    mgr.record_connect_failure(ConnectStage::Pool, "boom");
    assert_eq!(mgr.get_error(0).code.code(), 1);
    assert_eq!(mgr.get_error(0).message, "Pool creation failed: boom");
    mgr.record_connect_failure(ConnectStage::FirstConnection, "refused");
    assert_eq!(mgr.get_error(7).message, "Connection failed: refused");
}

#[test]
fn only_a_lost_connection_is_retried() {
    assert!(retry_after(0, true));
    assert!(!retry_after(0, false));
    assert!(!retry_after(1064, true));
}

#[test]
fn script_errors_name_the_statement() {
    assert_eq!(
        script_error_message(2, 12, "syntax error"),
        "statement 3 of 12: syntax error"
    );
}

#[test]
fn the_row_ceiling_spans_every_set() {
    let mut c = ResultCollector::new(3);
    assert!(c.admit_row());
    assert!(c.admit_row());
    c.push_set(ResultSet::default());
    assert!(c.admit_row());
    assert!(!c.admit_row());
    assert!(!c.admit_row());
    c.push_set(ResultSet::default());
    let (sets, truncated) = c.finish();
    assert_eq!(sets.len(), 2);
    assert!(truncated);
}

#[test]
fn pool_size_sets_the_pool_limits() {
    let plan = plan_connection("h", "u", "p", "d", &MysqlOptions::default());
    assert_eq!(plan.pool_limits, None);
    let mut opts = MysqlOptions::default();
    opts.pool_size = Some(16);
    assert_eq!(plan_connection("h", "u", "p", "d", &opts).pool_limits, Some((10, 16)));
    opts.pool_size = Some(4);
    assert_eq!(plan_connection("h", "u", "p", "d", &opts).pool_limits, Some((4, 4)));
}
