use mysql_samp::orm::{OrmError, OrmInstance, OrmManager, OrmVarBinding};

/// The script that creates the handles in these tests.
fn dummy_ident() -> usize {
    1
}

/// Another script.
fn dummy_ident_2() -> usize {
    2
}

// OrmVarBinding tests

#[test]
fn var_binding_column_name_int() {
    let binding = OrmVarBinding::Int {
        amx_addr: 100,
        column: "score".to_string(),
    };
    assert_eq!(binding.column_name(), "score");
}

#[test]
fn var_binding_column_name_float() {
    let binding = OrmVarBinding::Float {
        amx_addr: 200,
        column: "pos_x".to_string(),
    };
    assert_eq!(binding.column_name(), "pos_x");
}

#[test]
fn var_binding_column_name_string() {
    let binding = OrmVarBinding::String {
        amx_addr: 300,
        max_len: 64,
        column: "name".to_string(),
    };
    assert_eq!(binding.column_name(), "name");
}

// OrmError tests

#[test]
fn orm_error_values() {
    assert_eq!(OrmError::NoError as i32, 0);
    assert_eq!(OrmError::NoData as i32, 1);
}

// OrmManager tests

#[test]
fn manager_create_incremental_ids() {
    let mut mgr = OrmManager::new();
    let id1 = mgr.create("users".to_string(), 1, dummy_ident());
    let id2 = mgr.create("vehicles".to_string(), 1, dummy_ident());
    assert_eq!(id1, 1);
    assert_eq!(id2, 2);
}

#[test]
fn manager_get() {
    let mut mgr = OrmManager::new();
    let id = mgr.create("users".to_string(), 1, dummy_ident());
    let instance = mgr.get(id).unwrap();
    assert_eq!(instance.table, "users");
    assert_eq!(instance.conn_id, 1);
}

#[test]
fn manager_get_nonexistent() {
    let mgr = OrmManager::new();
    assert!(mgr.get(999).is_none());
}

#[test]
fn manager_get_mut() {
    let mut mgr = OrmManager::new();
    let id = mgr.create("users".to_string(), 1, dummy_ident());
    let instance = mgr.get_mut(id).unwrap();
    instance.key_column = Some("id".to_string());

    assert_eq!(mgr.get(id).unwrap().key_column.as_deref(), Some("id"));
}

#[test]
fn manager_destroy() {
    let mut mgr = OrmManager::new();
    let id = mgr.create("users".to_string(), 1, dummy_ident());
    assert!(mgr.destroy(id));
    assert!(mgr.get(id).is_none());
}

#[test]
fn manager_destroy_nonexistent() {
    let mut mgr = OrmManager::new();
    assert!(!mgr.destroy(999));
}

#[test]
fn manager_destroy_by_amx() {
    let mut mgr = OrmManager::new();
    let id1 = mgr.create("users".to_string(), 1, dummy_ident());
    let id2 = mgr.create("vehicles".to_string(), 1, dummy_ident_2());
    let id3 = mgr.create("houses".to_string(), 1, dummy_ident());

    mgr.destroy_by_amx(dummy_ident());

    assert!(mgr.get(id1).is_none()); // destroyed
    assert!(mgr.get(id2).is_some()); // kept (different AMX)
    assert!(mgr.get(id3).is_none()); // destroyed
}

#[test]
fn manager_wrapping_id() {
    let mut mgr = OrmManager::new();
    mgr.next_id = i32::MAX;
    let id1 = mgr.create("t1".to_string(), 1, dummy_ident());
    assert_eq!(id1, i32::MAX);
    let id2 = mgr.create("t2".to_string(), 1, dummy_ident());
    assert!(id2 >= 1);
}

#[test]
fn orm_instance_defaults() {
    let inst = OrmInstance::new("players".to_string(), 1, dummy_ident());
    assert_eq!(inst.table, "players");
    assert_eq!(inst.conn_id, 1);
    assert!(inst.key_column.is_none());
    assert!(inst.variables.is_empty());
    assert_eq!(inst.errno, OrmError::NoError);
}
