use mysql_samp::limits::{
    get, orm_string_len, orm_string_len_i32, result_rows, saved_caches, Limit, Limits,
    DEFAULT_ORM_STRING_LEN, DEFAULT_RESULT_ROWS, DEFAULT_SAVED_CACHES,
};

#[test]
fn unknown_id_is_rejected() {
    assert!(Limit::from_id(-1).is_none());
    assert!(Limit::from_id(3).is_none());
    assert_eq!(Limit::from_id(0), Some(Limit::SavedCaches));
}

#[test]
fn a_limit_round_trips() {
    let mut limits = Limits::new();
    let before = get(&limits, Limit::SavedCaches);
    assert!(mysql_samp::limits::set(&mut limits, Limit::SavedCaches, 7));
    assert_eq!(get(&limits, Limit::SavedCaches), 7);
    assert!(mysql_samp::limits::set(
        &mut limits,
        Limit::SavedCaches,
        i32::try_from(before).expect("default fits in i32")
    ));
}

#[test]
fn zero_and_negative_are_refused() {
    let mut limits = Limits::new();
    let before = get(&limits, Limit::ResultRows);
    assert!(!mysql_samp::limits::set(&mut limits, Limit::ResultRows, 0));
    assert!(!mysql_samp::limits::set(&mut limits, Limit::ResultRows, -5));
    assert_eq!(
        get(&limits, Limit::ResultRows),
        before,
        "a refused set must not change the cap"
    );
}

#[test]
fn defaults_match_the_documented_numbers() {
    assert_eq!(DEFAULT_SAVED_CACHES, 1024);
    assert_eq!(DEFAULT_RESULT_ROWS, 100_000);
    assert_eq!(DEFAULT_ORM_STRING_LEN, 4096);
}

#[test]
fn setting_one_cap_leaves_the_others() {
    let mut limits = Limits::new();
    assert!(mysql_samp::limits::set(&mut limits, Limit::OrmStringLen, 64));
    assert_eq!(orm_string_len(&limits), 64);
    assert_eq!(orm_string_len_i32(&limits), 64);
    assert_eq!(saved_caches(&limits), DEFAULT_SAVED_CACHES);
    assert_eq!(result_rows(&limits), DEFAULT_RESULT_ROWS);
}

#[test]
fn limit_names_are_the_script_constants() {
    assert_eq!(Limit::SavedCaches.name(), "MYSQL_LIMIT_SAVED_CACHES");
    assert_eq!(Limit::ResultRows.name(), "MYSQL_LIMIT_RESULT_ROWS");
    assert_eq!(Limit::OrmStringLen.name(), "MYSQL_LIMIT_ORM_STRING_LEN");
    assert_eq!(Limit::from_id(1), Some(Limit::ResultRows));
    assert_eq!(Limit::from_id(2), Some(Limit::OrmStringLen));
}
