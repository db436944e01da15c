use mysql_samp::cache::{CacheEntry, CacheManager, CacheRow, ResultSet};
use mysql_samp::limits::{self, Limit, Limits};

fn set(name: &str, value: &str) -> ResultSet {
    ResultSet {
        rows: vec![vec![Some(value.to_string())]],
        field_names: vec![name.to_string()],
        field_types: vec![253],
    }
}

fn two_sets() -> CacheEntry {
    CacheEntry::with_results(
        vec![set("a", "first"), set("b", "second")],
        0,
        0,
        0,
        0,
        "CALL p()".to_string(),
    )
}

#[test]
fn a_single_set_query_reports_one_result() {
    let entry = CacheEntry::with_results(vec![set("a", "x")], 0, 0, 0, 0, String::new());
    assert_eq!(entry.result_count(), 1);
}

#[test]
fn an_empty_entry_still_reports_one_result() {
    // Readers must never hit an empty vector, so `empty` seeds one set.
    let entry = CacheEntry::empty("SELECT 1".to_string());
    assert_eq!(entry.result_count(), 1);
    assert_eq!(entry.row_count(), 0);
}

#[test]
fn the_first_set_is_selected_by_default() {
    let entry = two_sets();
    assert_eq!(entry.result_count(), 2);
    assert_eq!(entry.field_name(0), Some("a"));
    assert_eq!(entry.get_value(0, 0), Some(&Some("first".to_string())));
}

#[test]
fn set_result_switches_every_reader() {
    let mut entry = two_sets();
    assert!(entry.set_result(1));
    assert_eq!(entry.field_name(0), Some("b"));
    assert_eq!(entry.get_value(0, 0), Some(&Some("second".to_string())));
}

#[test]
fn an_out_of_range_index_is_rejected_and_changes_nothing() {
    let mut entry = two_sets();
    assert!(!entry.set_result(2));
    assert!(!entry.set_result(99));
    assert_eq!(
        entry.field_name(0),
        Some("a"),
        "selection must be untouched"
    );
}

#[test]
fn duplicate_keeps_every_set_and_the_selection() {
    let mut entry = two_sets();
    entry.set_result(1);

    let copy = entry.duplicate();
    assert_eq!(copy.result_count(), 2, "cache_save must not drop sets");
    assert_eq!(copy.field_name(0), Some("b"), "selection is preserved");
}


/// Builds a single-result-set entry, which is what most of these tests
/// care about. Multi-set behaviour is covered separately below.
#[allow(clippy::too_many_arguments)]
fn entry(
    rows: Vec<CacheRow>,
    field_names: Vec<String>,
    field_types: Vec<u8>,
    affected_rows: u64,
    insert_id: u64,
    warning_count: u16,
    exec_time_us: u128,
    query_string: String,
) -> CacheEntry {
    CacheEntry::with_results(
        vec![ResultSet {
            rows,
            field_names,
            field_types,
        }],
        affected_rows,
        insert_id,
        warning_count,
        exec_time_us,
        query_string,
    )
}

fn sample_entry() -> CacheEntry {
    entry(
        vec![
            vec![Some("1".to_string()), Some("Alice".to_string()), None],
            vec![
                Some("2".to_string()),
                Some("Bob".to_string()),
                Some("bob@test.com".to_string()),
            ],
        ],
        vec!["id".to_string(), "name".to_string(), "email".to_string()],
        vec![3, 253, 253], // LONG, VAR_STRING, VAR_STRING
        0,
        0,
        0,
        5000, // 5ms
        "SELECT * FROM users".to_string(),
    )
}

// CacheEntry tests

#[test]
fn entry_new_preserves_fields() {
    let entry = sample_entry();
    assert_eq!(entry.row_count(), 2);
    assert_eq!(entry.field_count(), 3);
    assert_eq!(entry.query_string(), "SELECT * FROM users");
    assert_eq!(entry.exec_time_ms(), 5);
}

#[test]
fn entry_empty() {
    let entry = CacheEntry::empty("INSERT INTO x".to_string());
    assert_eq!(entry.row_count(), 0);
    assert_eq!(entry.field_count(), 0);
    assert_eq!(entry.query_string(), "INSERT INTO x");
    assert_eq!(entry.affected_rows(), 0);
    assert_eq!(entry.insert_id(), 0);
}

#[test]
fn entry_field_name_valid() {
    let entry = sample_entry();
    assert_eq!(entry.field_name(0), Some("id"));
    assert_eq!(entry.field_name(1), Some("name"));
    assert_eq!(entry.field_name(2), Some("email"));
}

#[test]
fn entry_field_name_out_of_bounds() {
    let entry = sample_entry();
    assert!(entry.field_name(3).is_none());
}

#[test]
fn entry_field_index_case_insensitive() {
    let entry = sample_entry();
    assert_eq!(entry.field_index("id"), Some(0));
    assert_eq!(entry.field_index("ID"), Some(0));
    assert_eq!(entry.field_index("Id"), Some(0));
    assert_eq!(entry.field_index("NAME"), Some(1));
}

#[test]
fn entry_field_index_not_found() {
    let entry = sample_entry();
    assert!(entry.field_index("nonexistent").is_none());
}

#[test]
fn entry_get_value_valid() {
    let entry = sample_entry();
    assert_eq!(entry.get_value(0, 0), Some(&Some("1".to_string())));
    assert_eq!(entry.get_value(0, 1), Some(&Some("Alice".to_string())));
}

#[test]
fn entry_get_value_null() {
    let entry = sample_entry();
    assert_eq!(entry.get_value(0, 2), Some(&None)); // Alice's email is NULL
}

#[test]
fn entry_get_value_out_of_bounds() {
    let entry = sample_entry();
    assert!(entry.get_value(5, 0).is_none());
    assert!(entry.get_value(0, 10).is_none());
}

#[test]
fn entry_affected_rows_and_insert_id() {
    let entry = entry(
        vec![],
        vec![],
        vec![],
        42,
        100,
        0,
        0,
        "INSERT INTO x".to_string(),
    );
    assert_eq!(entry.affected_rows(), 42);
    assert_eq!(entry.insert_id(), 100);
}

#[test]
fn entry_warning_count() {
    let entry = entry(vec![], vec![], vec![], 0, 0, 3, 0, "".to_string());
    assert_eq!(entry.warning_count(), 3);
}

#[test]
fn entry_exec_time_conversion() {
    let entry = entry(
        vec![],
        vec![],
        vec![],
        0,
        0,
        0,
        123456, // microseconds
        "".to_string(),
    );
    assert_eq!(entry.exec_time_ms(), 123); // truncated to ms
}

#[test]
fn entry_field_type_valid() {
    let entry = sample_entry();
    assert_eq!(entry.field_type(0), Some(3));
    assert_eq!(entry.field_type(1), Some(253));
}

#[test]
fn entry_field_type_out_of_bounds() {
    let entry = sample_entry();
    assert!(entry.field_type(10).is_none());
}

// CacheManager tests

#[test]
fn manager_new_is_empty() {
    let mgr = CacheManager::new();
    assert!(!mgr.is_any_active());
    assert!(mgr.get_active().is_none());
}

#[test]
fn manager_push_pop_stack() {
    let mut mgr = CacheManager::new();
    mgr.push_active(sample_entry());
    assert!(mgr.is_any_active());
    assert_eq!(mgr.get_active().unwrap().row_count(), 2);

    let popped = mgr.pop_active().unwrap();
    assert_eq!(popped.row_count(), 2);
    assert!(!mgr.is_any_active());
}

#[test]
fn manager_stack_lifo() {
    let mut mgr = CacheManager::new();

    let entry1 = CacheEntry::empty("query1".to_string());
    let entry2 = CacheEntry::empty("query2".to_string());

    mgr.push_active(entry1);
    mgr.push_active(entry2);

    assert_eq!(mgr.get_active().unwrap().query_string(), "query2");
    mgr.pop_active();
    assert_eq!(mgr.get_active().unwrap().query_string(), "query1");
    mgr.pop_active();
    assert!(!mgr.is_any_active());
}

#[test]
fn manager_pop_empty_returns_none() {
    let mut mgr = CacheManager::new();
    assert!(mgr.pop_active().is_none());
}

#[test]
fn manager_save_and_restore() {
    let mut mgr = CacheManager::new();
    mgr.push_active(sample_entry());

    let saved_id = mgr.save(&Limits::new());
    assert!(saved_id >= 1);
    assert!(mgr.is_valid(saved_id));

    mgr.pop_active();
    assert!(!mgr.is_any_active());

    // Restore saved cache
    assert!(mgr.set_active(saved_id));
    assert!(mgr.is_any_active());
    assert_eq!(mgr.get_active().unwrap().row_count(), 2);

    mgr.unset_active();
    assert!(!mgr.is_any_active());
}

#[test]
fn manager_save_without_active_returns_zero() {
    let mut mgr = CacheManager::new();
    assert_eq!(mgr.save(&Limits::new()), 0);
}

#[test]
fn manager_save_incremental_ids() {
    let mut mgr = CacheManager::new();
    mgr.push_active(sample_entry());

    let id1 = mgr.save(&Limits::new());
    let id2 = mgr.save(&Limits::new());
    let id3 = mgr.save(&Limits::new());

    assert_eq!(id1, 1);
    assert_eq!(id2, 2);
    assert_eq!(id3, 3);
}

#[test]
fn manager_delete_cache() {
    let mut mgr = CacheManager::new();
    mgr.push_active(sample_entry());
    let id = mgr.save(&Limits::new());

    assert!(mgr.delete(id));
    assert!(!mgr.is_valid(id));
    assert!(!mgr.delete(id)); // already deleted
}

#[test]
fn manager_delete_clears_manual_active() {
    let mut mgr = CacheManager::new();
    mgr.push_active(sample_entry());
    let id = mgr.save(&Limits::new());
    mgr.pop_active();

    mgr.set_active(id);
    assert!(mgr.is_any_active());

    mgr.delete(id);
    assert!(!mgr.is_any_active()); // manual_active cleared
}

#[test]
fn manager_set_active_invalid_id() {
    let mut mgr = CacheManager::new();
    assert!(!mgr.set_active(999));
}

#[test]
fn manager_unset_active_when_none() {
    let mut mgr = CacheManager::new();
    assert!(!mgr.unset_active());
}

#[test]
fn manager_manual_active_overrides_stack() {
    let mut mgr = CacheManager::new();

    // Push entry on stack
    mgr.push_active(CacheEntry::empty("stack_query".to_string()));

    // Save a different entry
    mgr.push_active(sample_entry());
    let saved_id = mgr.save(&Limits::new());
    mgr.pop_active();

    // Stack top is "stack_query"
    assert_eq!(mgr.get_active().unwrap().query_string(), "stack_query");

    // Manual active overrides
    mgr.set_active(saved_id);
    assert_eq!(
        mgr.get_active().unwrap().query_string(),
        "SELECT * FROM users"
    );

    // Unset manual returns to stack
    mgr.unset_active();
    assert_eq!(mgr.get_active().unwrap().query_string(), "stack_query");
}

#[test]
fn manager_is_valid() {
    let mut mgr = CacheManager::new();
    assert!(!mgr.is_valid(1));

    mgr.push_active(sample_entry());
    let id = mgr.save(&Limits::new());
    assert!(mgr.is_valid(id));
    assert!(!mgr.is_valid(id + 1));
}

#[test]
fn manager_wrapping_saved_id() {
    let mut mgr = CacheManager::new();
    mgr.next_saved_id = i32::MAX;
    mgr.push_active(sample_entry());

    let id1 = mgr.save(&Limits::new());
    assert_eq!(id1, i32::MAX);

    let id2 = mgr.save(&Limits::new());
    assert!(id2 >= 1); // wraps, never 0
}

#[test]
fn manager_save_follows_the_saved_caches_limit() {
    let mut lim = Limits::new();
    assert!(limits::set(&mut lim, Limit::SavedCaches, 2));
    let mut mgr = CacheManager::new();
    mgr.push_active(sample_entry());
    assert_eq!(mgr.save(&lim), 1);
    assert_eq!(mgr.save(&lim), 2);
    assert_eq!(mgr.save(&lim), 0);
    assert!(!mgr.is_valid(3));
    assert!(mgr.delete(1));
    assert_eq!(mgr.save(&lim), 3);
}
