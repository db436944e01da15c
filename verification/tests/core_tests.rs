use mysql_samp::cache::{CacheEntry, ResultSet};
use mysql_samp::connection::EscapeMode;
use mysql_samp::orm::{CacheWrite, OrmError, OrmOp, OrmVarBinding, VarValue};
use mysql_samp::plugin::{password_callback, saturate_i32, PluginCore};
use mysql_samp::query::CallbackParam;

fn users_cache() -> CacheEntry {
    CacheEntry::with_results(
        vec![ResultSet {
            rows: vec![
                vec![Some("7".to_string()), Some("Alice".to_string()), None],
                vec![Some("x".to_string()), Some("Bob".to_string()), Some("1.5".to_string())],
            ],
            field_names: vec!["id".to_string(), "name".to_string(), "score".to_string()],
            field_types: vec![3, 253, 4],
        }],
        2,
        9,
        1,
        3_500,
        "SELECT * FROM users".to_string(),
    )
}

#[test]
fn options_handle_zero_means_the_defaults() {
    let mut core = PluginCore::new();
    let opts = core.mysql_connect_options(0).expect("defaults");
    assert_eq!(opts.port, 3306);
    assert!(opts.auto_reconnect);
}

#[test]
fn an_unknown_options_handle_is_recorded() {
    let mut core = PluginCore::new();
    assert!(core.mysql_connect_options(5).is_none());
    assert_eq!(core.mysql_errno(0), 2);
    assert_eq!(core.mysql_error(0), "Invalid options handle.");
}

#[test]
fn a_known_options_handle_is_copied() {
    let mut core = PluginCore::new();
    let id = core.options.create();
    assert!(core.mysql_options_set_int(id, 0, 3307));
    assert!(core.mysql_options_set_str(id, 2, "ca.pem".to_string()));
    assert!(!core.mysql_options_set_int(id, 8, 1));
    assert!(!core.mysql_options_set_str(id, 0, "x".to_string()));
    let opts = core.mysql_connect_options(id).expect("known handle");
    assert_eq!(opts.port, 3307);
    assert_eq!(opts.ssl_ca.as_deref(), Some("ca.pem"));
}

#[test]
fn handles_on_a_missing_connection_are_refused() {
    let mut core = PluginCore::new();
    assert_eq!(core.mysql_stmt_new(4, 1, "SELECT ?".to_string()), 0);
    assert_eq!(core.mysql_errno(0), 3);
    assert_eq!(core.mysql_error(0), "mysql_stmt_new failed: invalid connection ID.");
    assert_eq!(core.mysql_transaction_new(4, 1), 0);
    assert_eq!(core.mysql_error(0), "mysql_transaction_new failed: invalid connection ID.");
    assert_eq!(core.orm_create("users".to_string(), 4, 1), 0);
    assert_eq!(core.mysql_error(0), "ORM create failed: invalid connection ID.");
    assert!(core.query_target(4).is_none());
    assert_eq!(core.mysql_error(0), "Query failed: invalid connection ID.");
    assert!(!core.mysql_close(4));
}

#[test]
fn a_statement_with_the_wrong_number_of_values_is_refused() {
    let mut core = PluginCore::new();
    let id = core.stmts.create(1, 1, "SELECT ? + ?".to_string());
    assert!(core.stmts.bind(id, mysql::Value::Int(1)));
    assert!(core.mysql_stmt_execute(id).is_none());
    assert_eq!(core.mysql_errno(0), 5);
    assert_eq!(
        core.mysql_error(0),
        "mysql_stmt_execute failed: statement has 2 placeholder(s) but 1 value(s) were bound."
    );
    assert!(core.stmts.bind(id, mysql::Value::Int(2)));
    // The arity is right now; the connection is what is missing.
    assert!(core.mysql_stmt_execute(id).is_none());
    assert_eq!(core.mysql_error(0), "mysql_stmt_execute failed: invalid connection ID.");
    assert!(core.mysql_stmt_execute(999).is_none());
}

#[test]
fn a_statement_is_copied_into_a_transaction() {
    let mut core = PluginCore::new();
    let tx = core.transactions.create(1, 1);
    let stmt = core.stmts.create(1, 1, "UPDATE t SET a = ?".to_string());
    assert!(!core.mysql_transaction_add_stmt(tx, stmt), "no value bound yet");
    assert!(core.stmts.bind(stmt, mysql::Value::Int(5)));
    assert!(core.mysql_transaction_add_stmt(tx, stmt));
    assert!(core.mysql_transaction_add(tx, "DELETE FROM u".to_string()));
    let steps = &core.transactions.get(tx).expect("exists").steps;
    assert_eq!(steps.len(), 2);
    assert_eq!(steps[0].query, "UPDATE t SET a = ?");
    assert_eq!(steps[0].params.len(), 1);
    assert_eq!(steps[0].params, vec![mysql::Value::Int(5)]);
    assert_eq!(steps[1].query, "DELETE FROM u");
    assert_eq!(core.stmts.get(stmt).expect("untouched").params.len(), 1);
}

#[test]
fn an_empty_or_unknown_transaction_is_not_run() {
    let mut core = PluginCore::new();
    let tx = core.transactions.create(1, 1);
    assert!(core.mysql_transaction_execute(tx).is_none());
    assert!(core.transactions.get(tx).is_some(), "left in place");
    assert!(core.mysql_transaction_add(tx, "SELECT 1".to_string()));
    assert!(core.mysql_transaction_execute(tx).is_none());
    assert_eq!(core.mysql_error(0), "mysql_transaction_execute failed: invalid connection ID.");
    assert!(core.transactions.get(tx).is_some(), "still left in place");
    assert!(core.mysql_transaction_execute(77).is_none());
}

#[test]
fn unloading_a_script_drops_what_it_created() {
    let mut core = PluginCore::new();
    core.on_amx_load(1);
    core.on_amx_load(2);
    let s1 = core.stmts.create(1, 1, "SELECT 1".to_string());
    let s2 = core.stmts.create(1, 2, "SELECT 2".to_string());
    let t1 = core.transactions.create(1, 1);
    let o1 = core.orm.create("a".to_string(), 1, 1);
    let o2 = core.orm.create("b".to_string(), 1, 2);
    core.on_amx_unload(1);
    assert_eq!(core.amx_list, vec![2]);
    assert!(core.stmts.get(s1).is_none());
    assert!(core.stmts.get(s2).is_some());
    assert!(core.transactions.get(t1).is_none());
    assert!(core.orm.get(o1).is_none());
    assert!(core.orm.get(o2).is_some());
}

#[test]
fn limits_through_the_core() {
    let mut core = PluginCore::new();
    assert_eq!(core.mysql_limit_get(0), 1024);
    assert!(core.mysql_limit_set(0, 10));
    assert_eq!(core.mysql_limit_get(0), 10);
    assert!(!core.mysql_limit_set(0, 0));
    assert!(!core.mysql_limit_set(9, 10));
    assert_eq!(core.mysql_limit_get(9), 0);
}

#[test]
fn status_failure_is_recorded_on_unknown_connections_without_effect() {
    let mut core = PluginCore::new();
    assert!(core.mysql_status(1, None).is_none());
    assert_eq!(core.mysql_errno(1), 0, "no such connection: the global error is untouched");
    let rows = vec![
        ("Uptime".to_string(), "10".to_string()),
        ("Questions".to_string(), "3".to_string()),
    ];
    assert_eq!(core.mysql_status(1, Some(rows)).as_deref(), Some("Uptime: 10  Questions: 3"));
}

#[test]
fn cache_readers_without_an_active_cache() {
    let core = PluginCore::new();
    assert_eq!(core.cache_get_row_count(), -1);
    assert_eq!(core.cache_get_field_count(), -1);
    assert_eq!(core.cache_affected_rows(), -1);
    assert_eq!(core.cache_insert_id(), -1);
    assert_eq!(core.cache_get_query_exec_time(), -1);
    assert_eq!(core.cache_warning_count(), -1);
    assert_eq!(core.cache_get_field_type(0), -1);
    assert_eq!(core.cache_get_result_count(), 0);
    assert!(core.cache_get_value_index(0, 0).is_none());
    assert!(core.cache_is_value_name_null(0, "id"));
    assert!(core.cache_get_query_string().is_none());
}

#[test]
fn cache_readers_on_the_active_cache() {
    let mut core = PluginCore::new();
    core.cache.push_active(users_cache());
    assert_eq!(core.cache_get_row_count(), 2);
    assert_eq!(core.cache_get_field_count(), 3);
    assert_eq!(core.cache_get_field_name(1), Some("name"));
    assert!(core.cache_get_field_name(-1).is_none());
    assert!(core.cache_get_field_name(3).is_none());
    assert_eq!(core.cache_get_value_index(0, 1), Some("Alice"));
    assert!(core.cache_get_value_index(-1, 1).is_none());
    assert_eq!(core.cache_get_value_index_int(0, 0), 7);
    assert_eq!(core.cache_get_value_index_int(1, 0), 0, "does not parse");
    assert!(core.cache_is_value_index_null(0, 2));
    assert!(!core.cache_is_value_index_null(1, 2));
    assert_eq!(core.cache_get_value_name(1, "NAME"), Some("Bob"));
    assert_eq!(core.cache_get_value_name_int(0, "Id"), 7);
    assert!(core.cache_is_value_name_null(0, "score"));
    assert!(core.cache_is_value_name_null(0, "missing"));
    assert_eq!(core.cache_affected_rows(), 2);
    assert_eq!(core.cache_insert_id(), 9);
    assert_eq!(core.cache_warning_count(), 1);
    assert_eq!(core.cache_get_query_exec_time(), 3);
    assert_eq!(core.cache_get_field_type(2), 4);
    assert_eq!(core.cache_get_query_string(), Some("SELECT * FROM users"));
    assert_eq!(core.cache_get_result_count(), 1);
    assert!(core.cache_set_result(0));
    assert!(!core.cache_set_result(1));
    assert!(!core.cache_set_result(-1));
}

#[test]
fn orm_operations_build_their_query() {
    let mut core = PluginCore::new();
    let id = core.orm.create("players".to_string(), 1, 1);
    assert!(core.orm_addvar(id, OrmVarBinding::Int { amx_addr: 4, column: "id".to_string() }));
    assert!(core.orm_addvar_string(id, 8, 24, "name".to_string()));
    assert!(!core.orm_addvar_string(id, 8, 0, "bad".to_string()));
    assert!(!core.orm_addvar_string(id, 8, 4097, "bad".to_string()));
    let values = vec![VarValue::Int(0), VarValue::Str("O'Brien".to_string())];

    // No key yet: select cannot be built and the reason is recorded.
    assert!(core.run_orm_op(OrmOp::Select, id, &values).is_none());
    assert_eq!(core.mysql_errno(0), 8);
    assert_eq!(
        core.mysql_error(0),
        "ORM select failed: key column not set or no variables bound."
    );

    assert!(core.orm_setkey(id, "id".to_string()));
    // Built, but the connection does not exist: refused without a new error.
    assert!(core.run_orm_op(OrmOp::Save, id, &values).is_none());
    assert!(core.run_orm_op(OrmOp::Delete, 99, &values).is_none());
    assert_eq!(core.mysql_error(0), "ORM delete failed: invalid ORM ID.");
    assert_eq!(core.orm_errno(99), -1);
    assert_eq!(core.orm_errno(id), 0);

    assert!(core.orm_delvar(id, "name"));
    assert!(!core.orm_delvar(id, "name"));
    assert!(core.orm_clear_vars(id));
    assert_eq!(core.orm.get(id).expect("exists").variables.len(), 0);
}

#[test]
fn orm_apply_cache_reports_missing_rows_and_writes_values() {
    let mut core = PluginCore::new();
    let id = core.orm.create("users".to_string(), 1, 1);
    assert!(core.orm_apply_cache(id, 0).is_none());
    assert_eq!(core.mysql_errno(0), 6);

    core.cache.push_active(users_cache());
    assert!(core.orm_apply_cache(42, 0).is_none());
    assert_eq!(core.mysql_errno(0), 7);

    assert!(core.orm_addvar(id, OrmVarBinding::Int { amx_addr: 4, column: "ID".to_string() }));
    assert!(core.orm_addvar(id, OrmVarBinding::Float { amx_addr: 8, column: "score".to_string() }));
    assert!(core.orm_addvar_string(id, 12, 4, "name".to_string()));

    assert!(core.orm_apply_cache(id, 5).is_none());
    assert_eq!(core.orm.get(id).expect("exists").errno, OrmError::NoData);

    let writes = core.orm_apply_cache(id, 0).expect("row exists");
    assert_eq!(core.orm.get(id).expect("exists").errno, OrmError::NoError);
    // The NULL score writes nothing; the name is cut to 3 bytes and a NUL.
    assert_eq!(writes.len(), 2);
    assert!(matches!(writes[0], CacheWrite::Int { amx_addr: 4, value: 7 }));
    assert!(matches!(&writes[1], CacheWrite::Str { amx_addr: 12, bytes } if bytes == b"Ali"));

    let writes = core.orm_apply_cache(id, 1).expect("row exists");
    assert!(matches!(writes[0], CacheWrite::Int { amx_addr: 4, value: 0 }));
    assert!(matches!(&writes[1], CacheWrite::Float { amx_addr: 8, text } if text == "1.5"));
}

#[test]
fn password_callbacks_get_the_result_specifier() {
    let info = password_callback(
        "OnHashed".to_string(),
        "secret",
        "d",
        vec![CallbackParam::Int(3)],
        's',
    )
    .expect("accepted");
    assert_eq!(info.name, "OnHashed");
    assert_eq!(info.format, "sd");
    assert!(password_callback(String::new(), "secret", "", vec![], 'd').is_none());
    assert!(password_callback("OnX".to_string(), &"a".repeat(1025), "", vec![], 'd').is_none());
}

#[test]
fn counts_are_saturated() {
    assert_eq!(saturate_i32(5), 5);
    assert_eq!(saturate_i32(u64::MAX), i32::MAX);
}

#[test]
fn escape_mode_of_unknown_connections_is_backslash() {
    let core = PluginCore::new();
    assert_eq!(core.connections.escape_mode(3), EscapeMode::Backslash);
    assert!(core.connections.get_auto_reconnect(3));
}

#[test]
fn fresh_core_has_no_handles_and_default_caps() {
    let mut core = PluginCore::new();
    assert_eq!(core.mysql_errno(0), 0);
    assert_eq!(core.mysql_error(0), "");
    assert_eq!(core.cache_get_row_count(), -1);
    assert!(!core.cache.is_any_active());
    assert_eq!(core.mysql_limit_get(0), 1024);
    assert_eq!(core.mysql_limit_get(1), 100_000);
    assert_eq!(core.mysql_limit_get(2), 4096);
    assert!(core.amx_list.is_empty());
    assert!(!core.mysql_close(1));
    assert_eq!(core.options.create(), 1);
    assert_eq!(core.orm_create("t".to_string(), 1, 7), 0);
}
