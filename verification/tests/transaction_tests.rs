use mysql::Value;
use mysql_samp::transaction::{TransactionManager, TxStep, MAX_TX_STEPS};

/// The script that creates the handles in these tests.
fn dummy_ident() -> usize {
    1
}

/// Another script.
fn dummy_ident_2() -> usize {
    2
}

fn plain(q: &str) -> TxStep {
    TxStep {
        query: q.to_string(),
        params: Vec::new(),
    }
}

#[test]
fn steps_are_kept_in_submission_order() {
    let mut mgr = TransactionManager::new();
    let id = mgr.create(1, dummy_ident());

    assert!(mgr.add_step(id, plain("UPDATE a SET x = 1")));
    assert!(mgr.add_step(id, plain("UPDATE b SET y = 2")));

    let steps = &mgr.get(id).expect("exists").steps;
    assert_eq!(steps.len(), 2);
    assert_eq!(steps[0].query, "UPDATE a SET x = 1");
    assert_eq!(steps[1].query, "UPDATE b SET y = 2");
}

#[test]
fn add_step_respects_the_ceiling() {
    let mut mgr = TransactionManager::new();
    let id = mgr.create(1, dummy_ident());

    for _ in 0..MAX_TX_STEPS {
        assert!(mgr.add_step(id, plain("SELECT 1")));
    }
    assert!(!mgr.add_step(id, plain("SELECT 1")), "ceiling must hold");
}

#[test]
fn transaction_operations_on_unknown_ids_fail() {
    let mut mgr = TransactionManager::new();
    assert!(!mgr.add_step(999, plain("SELECT 1")));
    assert!(!mgr.destroy(999));
    assert!(mgr.get(999).is_none());
}

#[test]
fn transaction_destroy_by_amx_only_touches_that_script() {
    let mut mgr = TransactionManager::new();
    let mine = mgr.create(1, dummy_ident());
    let other = mgr.create(1, dummy_ident_2());

    mgr.destroy_by_amx(dummy_ident());

    assert!(mgr.get(mine).is_none(), "unloaded script's handle must go");
    assert!(mgr.get(other).is_some(), "other script must be untouched");
}

#[test]
fn transaction_destroy_by_conn_only_touches_that_connection() {
    let mut mgr = TransactionManager::new();
    let on_one = mgr.create(1, dummy_ident());
    let on_two = mgr.create(2, dummy_ident());

    mgr.destroy_by_conn(1);

    assert!(mgr.get(on_one).is_none());
    assert!(mgr.get(on_two).is_some());
}

#[test]
fn destroy_removes_the_transaction() {
    let mut mgr = TransactionManager::new();
    let id = mgr.create(1, dummy_ident());
    assert!(mgr.destroy(id));
    assert!(mgr.get(id).is_none());
}

#[test]
fn steps_carry_bound_params() {
    let mut mgr = TransactionManager::new();
    let id = mgr.create(1, dummy_ident());

    assert!(mgr.add_step(
        id,
        TxStep {
            query: "UPDATE a SET x = ? WHERE id = ?".into(),
            params: vec![Value::Int(5), Value::Int(1)],
        }
    ));

    assert_eq!(mgr.get(id).expect("exists").steps[0].params.len(), 2);
}
