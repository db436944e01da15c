use mysql_samp::connection::EscapeMode;
use mysql_samp::orm::{OrmInstance, OrmOp, OrmVarBinding, VarValue};

fn player() -> OrmInstance {
    let mut inst = OrmInstance::new("players".to_string(), 1, 1);
    inst.add_var(OrmVarBinding::Int { amx_addr: 4, column: "id".to_string() });
    inst.add_var(OrmVarBinding::String { amx_addr: 8, max_len: 24, column: "na`me".to_string() });
    inst.add_var(OrmVarBinding::Float { amx_addr: 12, column: "score".to_string() });
    inst
}

fn values(id: i32) -> Vec<VarValue> {
    vec![
        VarValue::Int(id),
        VarValue::Str("O'Brien".to_string()),
        VarValue::Float { text: "1.5".to_string(), zero: false },
    ]
}

#[test]
fn select_names_every_column_and_the_key() {
    let mut inst = player();
    assert!(inst.build_select(&values(3), EscapeMode::Backslash).is_none(), "no key yet");
    inst.set_key("id".to_string());
    assert_eq!(
        inst.build_select(&values(3), EscapeMode::Backslash).as_deref(),
        Some("SELECT `id`, `name`, `score` FROM `players` WHERE `id` = 3")
    );
}

#[test]
fn insert_writes_every_value_escaped_for_the_connection() {
    let inst = player();
    assert_eq!(
        inst.build_insert(&values(3), EscapeMode::Backslash).as_deref(),
        Some("INSERT INTO `players` (`id`, `name`, `score`) VALUES (3, 'O\\'Brien', 1.5)")
    );
    assert_eq!(
        inst.build_insert(&values(3), EscapeMode::NoBackslashEscapes).as_deref(),
        Some("INSERT INTO `players` (`id`, `name`, `score`) VALUES (3, 'O''Brien', 1.5)")
    );
    let empty = OrmInstance::new("t".to_string(), 1, 1);
    assert!(empty.build_insert(&vec![], EscapeMode::Backslash).is_none());
}

#[test]
fn update_and_delete_go_through_the_key() {
    let mut inst = player();
    inst.set_key("id".to_string());
    assert_eq!(
        inst.build_update(&values(-2), EscapeMode::Backslash).as_deref(),
        Some("UPDATE `players` SET `id` = -2, `name` = 'O\\'Brien', `score` = 1.5 WHERE `id` = -2")
    );
    assert_eq!(
        inst.build_delete(&values(9), EscapeMode::Backslash).as_deref(),
        Some("DELETE FROM `players` WHERE `id` = 9")
    );
    inst.set_key("missing".to_string());
    assert!(inst.build_delete(&values(9), EscapeMode::Backslash).is_none());
    assert!(inst.build_update(&values(9), EscapeMode::Backslash).is_none());
}

#[test]
fn save_inserts_when_the_key_is_empty() {
    let mut inst = player();
    inst.set_key("id".to_string());
    assert!(inst.is_key_empty(&values(0)));
    assert!(!inst.is_key_empty(&values(1)));
    let insert = OrmOp::Save.build(&inst, &values(0), EscapeMode::Backslash).expect("built");
    assert!(insert.starts_with("INSERT INTO"));
    let update = OrmOp::Save.build(&inst, &values(1), EscapeMode::Backslash).expect("built");
    assert!(update.starts_with("UPDATE"));
}

#[test]
fn a_key_without_a_binding_counts_as_empty() {
    let mut inst = player();
    assert!(inst.is_key_empty(&values(5)));
    inst.set_key("nope".to_string());
    assert!(inst.is_key_empty(&values(5)));
}

#[test]
fn operation_names_and_errors() {
    assert_eq!(OrmOp::Select.name(), "select");
    assert_eq!(OrmOp::Save.name(), "save");
    assert_eq!(OrmOp::Insert.build_error_detail(), "no variables bound");
    assert_eq!(OrmOp::Delete.build_error_detail(), "key column not set");
    assert_eq!(OrmOp::Update.build_error_code().code(), 8);
    assert_eq!(OrmOp::Save.build_error_code().code(), 7);
}

#[test]
fn delvar_removes_every_binding_of_the_column() {
    let mut inst = player();
    inst.add_var(OrmVarBinding::Int { amx_addr: 16, column: "id".to_string() });
    assert!(inst.del_var("id"));
    assert_eq!(inst.variables.len(), 2);
    assert_eq!(inst.variables[0].column_name(), "na`me");
    assert!(!inst.del_var("ID"), "the match is exact");
}
