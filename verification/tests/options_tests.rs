use mysql_samp::options::{MysqlOptionKind, MysqlOptions, OptionsManager};

// MysqlOptionKind tests

#[test]
fn option_kind_from_valid_values() {
    assert_eq!(MysqlOptionKind::from_i32(0), Some(MysqlOptionKind::Port));
    assert_eq!(MysqlOptionKind::from_i32(1), Some(MysqlOptionKind::Ssl));
    assert_eq!(MysqlOptionKind::from_i32(2), Some(MysqlOptionKind::SslCa));
    assert_eq!(
        MysqlOptionKind::from_i32(3),
        Some(MysqlOptionKind::ConnectTimeout)
    );
    assert_eq!(
        MysqlOptionKind::from_i32(4),
        Some(MysqlOptionKind::AutoReconnect)
    );
}

#[test]
fn option_kind_from_invalid_values() {
    assert_eq!(MysqlOptionKind::from_i32(-1), None);
    assert_eq!(MysqlOptionKind::from_i32(8), None);
    assert_eq!(MysqlOptionKind::from_i32(100), None);
}

#[test]
fn option_kind_covers_tls_options() {
    assert_eq!(MysqlOptionKind::from_i32(5), Some(MysqlOptionKind::SslCert));
    assert_eq!(MysqlOptionKind::from_i32(6), Some(MysqlOptionKind::SslKey));
    assert_eq!(
        MysqlOptionKind::from_i32(7),
        Some(MysqlOptionKind::SslVerifyCert)
    );
}

#[test]
fn tls_options_use_the_right_setter() {
    let mut mgr = OptionsManager::new();
    let id = mgr.create();

    assert!(mgr.set_str(id, MysqlOptionKind::SslCert, "cert.pem".into()));
    assert!(mgr.set_str(id, MysqlOptionKind::SslKey, "key.pem".into()));
    assert!(mgr.set_int(id, MysqlOptionKind::SslVerifyCert, 0));

    // Mismatched setters are rejected rather than silently ignored.
    assert!(!mgr.set_int(id, MysqlOptionKind::SslCert, 1));
    assert!(!mgr.set_str(id, MysqlOptionKind::SslVerifyCert, "yes".into()));

    let opts = mgr.get(id).expect("options exist");
    assert_eq!(opts.ssl_cert.as_deref(), Some("cert.pem"));
    assert_eq!(opts.ssl_key.as_deref(), Some("key.pem"));
    assert!(!opts.ssl_verify_cert);
}

#[test]
fn tls_verification_is_on_by_default() {
    assert!(MysqlOptions::default().ssl_verify_cert);
}

// MysqlOptions tests

#[test]
fn default_options() {
    let opts = MysqlOptions::default();
    assert_eq!(opts.port, 3306);
    assert!(!opts.ssl);
    assert!(opts.ssl_ca.is_none());
    assert!(opts.connect_timeout.is_none());
    assert!(opts.auto_reconnect);
}

// OptionsManager tests

#[test]
fn create_returns_incremental_ids() {
    let mut mgr = OptionsManager::new();
    assert_eq!(mgr.create(), 1);
    assert_eq!(mgr.create(), 2);
    assert_eq!(mgr.create(), 3);
}

#[test]
fn get_returns_created_options() {
    let mut mgr = OptionsManager::new();
    let id = mgr.create();
    let opts = mgr.get(id).unwrap();
    assert_eq!(opts.port, 3306);
}

#[test]
fn get_returns_none_for_invalid_id() {
    let mgr = OptionsManager::new();
    assert!(mgr.get(999).is_none());
    assert!(mgr.get(0).is_none());
}

#[test]
fn set_int_port() {
    let mut mgr = OptionsManager::new();
    let id = mgr.create();
    assert!(mgr.set_int(id, MysqlOptionKind::Port, 3307));
    assert_eq!(mgr.get(id).unwrap().port, 3307);
}

#[test]
fn set_int_ssl() {
    let mut mgr = OptionsManager::new();
    let id = mgr.create();
    assert!(mgr.set_int(id, MysqlOptionKind::Ssl, 1));
    assert!(mgr.get(id).unwrap().ssl);

    assert!(mgr.set_int(id, MysqlOptionKind::Ssl, 0));
    assert!(!mgr.get(id).unwrap().ssl);
}

#[test]
fn set_int_connect_timeout() {
    let mut mgr = OptionsManager::new();
    let id = mgr.create();
    assert!(mgr.set_int(id, MysqlOptionKind::ConnectTimeout, 10));
    assert_eq!(mgr.get(id).unwrap().connect_timeout, Some(10));
}

#[test]
fn set_int_auto_reconnect() {
    let mut mgr = OptionsManager::new();
    let id = mgr.create();
    assert!(mgr.set_int(id, MysqlOptionKind::AutoReconnect, 0));
    assert!(!mgr.get(id).unwrap().auto_reconnect);
    assert!(mgr.set_int(id, MysqlOptionKind::AutoReconnect, 1));
    assert!(mgr.get(id).unwrap().auto_reconnect);
}

#[test]
fn set_int_rejects_ssl_ca() {
    let mut mgr = OptionsManager::new();
    let id = mgr.create();
    assert!(!mgr.set_int(id, MysqlOptionKind::SslCa, 1));
}

#[test]
fn set_int_invalid_id() {
    let mut mgr = OptionsManager::new();
    assert!(!mgr.set_int(999, MysqlOptionKind::Port, 3307));
}

#[test]
fn set_str_ssl_ca() {
    let mut mgr = OptionsManager::new();
    let id = mgr.create();
    assert!(mgr.set_str(id, MysqlOptionKind::SslCa, "/path/to/ca.pem".to_string()));
    assert_eq!(
        mgr.get(id).unwrap().ssl_ca.as_deref(),
        Some("/path/to/ca.pem")
    );
}

#[test]
fn set_str_rejects_port() {
    let mut mgr = OptionsManager::new();
    let id = mgr.create();
    assert!(!mgr.set_str(id, MysqlOptionKind::Port, "3307".to_string()));
}

#[test]
fn set_str_rejects_ssl() {
    let mut mgr = OptionsManager::new();
    let id = mgr.create();
    assert!(!mgr.set_str(id, MysqlOptionKind::Ssl, "true".to_string()));
}

#[test]
fn set_str_rejects_connect_timeout() {
    let mut mgr = OptionsManager::new();
    let id = mgr.create();
    assert!(!mgr.set_str(id, MysqlOptionKind::ConnectTimeout, "10".to_string()));
}

#[test]
fn set_str_invalid_id() {
    let mut mgr = OptionsManager::new();
    assert!(!mgr.set_str(999, MysqlOptionKind::SslCa, "ca.pem".to_string()));
}

#[test]
fn wrapping_id_overflow() {
    let mut mgr = OptionsManager::new();
    mgr.next_id = i32::MAX;
    let id1 = mgr.create();
    assert_eq!(id1, i32::MAX);
    let id2 = mgr.create();
    assert!(id2 >= 1); // wraps to positive value, never 0
}

#[test]
fn pool_size_option_caps_the_pool() {
    assert_eq!(MysqlOptionKind::from_i32(9), Some(MysqlOptionKind::PoolSize));
    let mut mgr = OptionsManager::new();
    let id = mgr.create();
    assert_eq!(mgr.get(id).unwrap().pool_size, None);
    assert!(!mgr.set_int(id, MysqlOptionKind::PoolSize, 0));
    assert!(!mgr.set_int(id, MysqlOptionKind::PoolSize, -3));
    assert_eq!(mgr.get(id).unwrap().pool_size, None);
    assert!(mgr.set_int(id, MysqlOptionKind::PoolSize, 16));
    assert_eq!(mgr.get(id).unwrap().pool_size, Some(16));
    assert!(!mgr.set_str(id, MysqlOptionKind::PoolSize, "16".to_string()));
}
