use mysql_samp::config::{expand_env, parse, strip_comment, unquote, ConfigError};

const SAMPLE: &str = "\
host = 127.0.0.1
user = samp
password = s3cr3t
database = samp_server
";

/// An environment with nothing set.
fn no_env() -> Vec<(String, String)> {
    Vec::new()
}

fn env(pairs: &[(&str, &str)]) -> Vec<(String, String)> {
    pairs
        .iter()
        .map(|(k, v)| (k.to_string(), v.to_string()))
        .collect()
}

#[test]
fn parses_the_four_required_keys() {
    let cfg = parse(SAMPLE, &no_env()).expect("valid file");
    assert_eq!(cfg.host, "127.0.0.1");
    assert_eq!(cfg.user, "samp");
    assert_eq!(cfg.password, "s3cr3t");
    assert_eq!(cfg.database, "samp_server");
}

#[test]
fn keys_are_case_insensitive_and_trimmed() {
    let cfg = parse("  HOST =  db.local \nUser=samp\nPassword=x\nDATABASE=d\n", &no_env())
        .expect("valid file");
    assert_eq!(cfg.host, "db.local");
    assert_eq!(cfg.user, "samp");
}

#[test]
fn comments_and_blank_lines_are_ignored() {
    let cfg = parse(
        "# comment\n\nhost=h ; trailing\nuser=u\npassword=p\ndatabase=d\n",
        &no_env(),
    )
    .expect("valid file");
    assert_eq!(cfg.host, "h");
}

#[test]
fn quotes_preserve_surrounding_spaces() {
    let cfg = parse("host=h\nuser=u\npassword=\"  spaced  \"\ndatabase=d\n", &no_env())
        .expect("valid file");
    assert_eq!(cfg.password, "  spaced  ");
}

#[test]
fn a_password_may_contain_an_equals_sign() {
    let cfg = parse("host=h\nuser=u\npassword=a=b=c\ndatabase=d\n", &no_env()).expect("valid file");
    assert_eq!(cfg.password, "a=b=c");
}

#[test]
fn an_empty_password_is_accepted() {
    let cfg = parse("host=h\nuser=u\npassword=\ndatabase=d\n", &no_env()).expect("valid file");
    assert_eq!(cfg.password, "");
}

#[test]
fn a_missing_password_key_is_also_accepted() {
    let cfg = parse("host=h\nuser=u\ndatabase=d\n", &no_env()).expect("valid file");
    assert_eq!(cfg.password, "");
}

#[test]
fn a_missing_required_key_names_it() {
    assert!(matches!(
        parse("user=u\npassword=p\ndatabase=d\n", &no_env()),
        Err(ConfigError::MissingKey("host"))
    ));
    assert!(matches!(
        parse("host=h\nuser=u\npassword=p\n", &no_env()),
        Err(ConfigError::MissingKey("database"))
    ));
}

#[test]
fn unknown_keys_do_not_break_the_file() {
    let cfg = parse(
        "host=h\nuser=u\npassword=p\ndatabase=d\nport=3307\ncharset=utf8\n",
        &no_env(),
    )
    .expect("valid file");
    assert_eq!(cfg.host, "h");
}

#[test]
fn the_error_message_never_contains_a_value() {
    let Err(err) = parse("user=u\npassword=hunter2\ndatabase=d\n", &no_env()) else {
        panic!("expected the missing host key to be reported");
    };
    assert!(!err.message().contains("hunter2"));
}

#[test]
fn env_reference_is_expanded() {
    let vars = env(&[("MYSQL_SAMP_T1_PASS", "s3cr3t")]);
    let cfg = parse("host=h\nuser=u\npassword=${MYSQL_SAMP_T1_PASS}\ndatabase=d\n", &vars)
        .expect("valid file");
    assert_eq!(cfg.password, "s3cr3t");
}

#[test]
fn env_reference_can_sit_inside_a_larger_value() {
    let vars = env(&[("MYSQL_SAMP_T2_HOST", "db.internal")]);
    let cfg = parse("host=${MYSQL_SAMP_T2_HOST}\nuser=u\npassword=p\ndatabase=d\n", &vars)
        .expect("valid file");
    assert_eq!(cfg.host, "db.internal");
}

#[test]
fn several_references_in_one_value() {
    let vars = env(&[("MYSQL_SAMP_T3_A", "aa"), ("MYSQL_SAMP_T3_B", "bb")]);
    let cfg = parse(
        "host=h\nuser=u\npassword=x${MYSQL_SAMP_T3_A}y${MYSQL_SAMP_T3_B}z\ndatabase=d\n",
        &vars,
    )
    .expect("valid file");
    assert_eq!(cfg.password, "xaaybbz");
}

#[test]
fn an_unset_variable_expands_to_nothing() {
    let cfg = parse(
        "host=h\nuser=u\npassword=${MYSQL_SAMP_T4_MISSING}\ndatabase=d\n",
        &no_env(),
    )
    .expect("valid file");
    assert_eq!(
        cfg.password, "",
        "an unset name must not reach the server as a literal reference"
    );
}

#[test]
fn a_dollar_without_braces_is_literal() {
    let cfg = parse("host=h\nuser=u\npassword=pa$$word\ndatabase=d\n", &no_env()).expect("valid file");
    assert_eq!(cfg.password, "pa$$word");
}

#[test]
fn an_unclosed_reference_is_left_alone() {
    let cfg = parse("host=h\nuser=u\npassword=${OPEN\ndatabase=d\n", &no_env()).expect("valid file");
    assert_eq!(cfg.password, "${OPEN");
}

// Further cases.

#[test]
fn a_missing_user_is_named_before_the_database() {
    assert!(matches!(
        parse("host=h\npassword=p\n", &no_env()),
        Err(ConfigError::MissingKey("user"))
    ));
}

#[test]
fn a_later_line_overrides_an_earlier_one() {
    let cfg = parse("host=a\nhost=b\nuser=u\ndatabase=d\n", &no_env()).expect("valid file");
    assert_eq!(cfg.host, "b");
}

#[test]
fn windows_line_endings_are_accepted() {
    let cfg = parse("host=h\r\nuser=u\r\npassword=p\r\ndatabase=d\r\n", &no_env()).expect("valid file");
    assert_eq!(cfg.host, "h");
    assert_eq!(cfg.password, "p");
    assert_eq!(cfg.database, "d");
}

#[test]
fn error_messages_name_the_key_or_the_reason() {
    assert_eq!(
        ConfigError::MissingKey("host").message(),
        "required key 'host' is missing"
    );
    assert_eq!(
        ConfigError::Unreadable("denied".to_string()).message(),
        "could not read the file: denied"
    );
}

#[test]
fn strip_comment_cuts_at_either_marker() {
    assert_eq!(strip_comment("a = b # c"), "a = b ");
    assert_eq!(strip_comment("a = b ; c # d"), "a = b ");
    assert_eq!(strip_comment("plain"), "plain");
}

#[test]
fn unquote_needs_a_matching_pair() {
    assert_eq!(unquote("'x'"), "x");
    assert_eq!(unquote("\"x\""), "x");
    assert_eq!(unquote("'x\""), "'x\"");
    assert_eq!(unquote("'"), "'");
    assert_eq!(unquote("''"), "");
}

#[test]
fn the_first_matching_variable_wins() {
    let vars = env(&[("A", "1"), ("A", "2")]);
    assert_eq!(expand_env("${A}", &vars), "1");
    assert_eq!(expand_env("$A ${B}x", &vars), "$A x");
}

#[test]
fn files_differing_only_in_values_are_refused_alike() {
    let env: Vec<(String, String)> = Vec::new();
    let a = parse("user = alice\npassword = hunter2\ndatabase = game\n", &env).err().unwrap();
    let b = parse("user = bob\npassword = other\ndatabase = test\n", &env).err().unwrap();
    assert_eq!(a, b);
    assert_eq!(a.message(), "required key 'host' is missing");
}
