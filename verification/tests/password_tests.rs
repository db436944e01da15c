use mysql_samp::password::{
    hash_job, password_len_ok, verify_job, PasswordOutcome, PasswordResult, MAX_PASSWORD_LEN,
};
use mysql_samp::query::{CallbackInfo, CallbackParam};

/// A distinct password built at run time, from a seed.
fn password(seed: u8) -> String {
    (0..12u8)
        .map(|i| char::from(b'a' + (seed.wrapping_add(i) % 26)))
        .collect()
}

fn hash(password: &str) -> String {
    match hash_job(password.to_string()) {
        PasswordOutcome::Hash(h) => h,
        _ => panic!("hashing succeeds"),
    }
}

fn verify(password: &str, stored: &str) -> bool {
    match verify_job(password.to_string(), stored.to_string()) {
        PasswordOutcome::Verify(b) => b,
        _ => panic!("valid PHC string"),
    }
}

#[test]
fn hash_is_argon2id_phc() {
    let stored = hash(&password(1));
    assert!(stored.starts_with("$argon2id$"), "got {stored}");
}

#[test]
fn correct_password_verifies() {
    let secret = password(2);
    let stored = hash(&secret);
    assert!(verify(&secret, &stored));
}

#[test]
fn wrong_password_rejected() {
    let stored = hash(&password(3));
    assert!(!verify(&password(4), &stored));
}

#[test]
fn same_password_hashes_differently() {
    let secret = password(5);
    assert_ne!(hash(&secret), hash(&secret));
}

#[test]
fn malformed_hash_is_rejected_not_panicking() {
    assert!(matches!(
        verify_job(password(7), "not-a-phc-string".to_string()),
        PasswordOutcome::Failed(_)
    ));
}

#[test]
fn empty_password_is_supported() {
    let empty = String::new();
    let stored = hash(&empty);
    assert!(verify(&empty, &stored));
    assert!(!verify(&password(6), &stored));
}

// Further cases.

#[test]
fn password_length_is_counted_in_bytes() {
    assert!(password_len_ok(&"a".repeat(MAX_PASSWORD_LEN)));
    assert!(!password_len_ok(&"a".repeat(MAX_PASSWORD_LEN + 1)));
    // 512 two-byte characters are exactly 1024 bytes; one more is too many.
    assert!(password_len_ok(&"é".repeat(512)));
    assert!(!password_len_ok(&"é".repeat(513)));
}

fn waiting(format: &str) -> CallbackInfo {
    CallbackInfo {
        name: "OnDone".to_string(),
        format: format.to_string(),
        params: vec![CallbackParam::Int(9)],
    }
}

#[test]
fn a_result_becomes_the_first_callback_argument() {
    let info = PasswordResult {
        outcome: PasswordOutcome::Verify(true),
        callback: waiting("dd"),
    }
    .into_callback();
    assert!(matches!(info.params[0], CallbackParam::Int(1)));
    assert!(matches!(info.params[1], CallbackParam::Int(9)));

    let info = PasswordResult {
        outcome: PasswordOutcome::Hash("$argon2id$x".to_string()),
        callback: waiting("sd"),
    }
    .into_callback();
    assert!(matches!(&info.params[0], CallbackParam::String(s) if s == "$argon2id$x"));
}

#[test]
fn a_failed_job_still_calls_back() {
    let info = PasswordResult {
        outcome: PasswordOutcome::Failed("boom".to_string()),
        callback: waiting("sd"),
    }
    .into_callback();
    assert!(matches!(&info.params[0], CallbackParam::String(s) if s.is_empty()));

    let info = PasswordResult {
        outcome: PasswordOutcome::Failed("boom".to_string()),
        callback: waiting("dd"),
    }
    .into_callback();
    assert!(matches!(info.params[0], CallbackParam::Int(0)));
}

#[test]
fn hash_has_the_default_phc_shape() {
    for p in ["", "hunter2", "pässwörd with spaces"] {
        let h = hash(p);
        assert_eq!(h.len(), 97);
        assert!(h.starts_with("$argon2id$v=19$m=19456,t=2,p=1$"));
        assert_eq!(h.as_bytes()[53], b'$');
    }
}
