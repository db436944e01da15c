use mysql_samp::sql::{count_placeholders, scan_code, split_statements};

// Placeholder counting

#[test]
fn sql_counts_plain_placeholders() {
    assert_eq!(
        count_placeholders("SELECT * FROM t WHERE a = ? AND b = ?"),
        2
    );
}

#[test]
fn ignores_placeholders_inside_quotes_and_comments() {
    assert_eq!(count_placeholders("SELECT '?' FROM t WHERE a = ?"), 1);
    assert_eq!(count_placeholders(r#"SELECT "?" FROM t WHERE a = ?"#), 1);
    assert_eq!(count_placeholders("SELECT `we?rd` FROM t WHERE a = ?"), 1);
    assert_eq!(count_placeholders("SELECT /* ? */ 1 WHERE a = ?"), 1);
    assert_eq!(count_placeholders("SELECT 1 -- ?\nWHERE a = ?"), 1);
    assert_eq!(count_placeholders("SELECT 1 # ?\nWHERE a = ?"), 1);
}

#[test]
fn handles_escaped_and_doubled_quotes() {
    assert_eq!(
        count_placeholders(r"SELECT 'it\'s ?' FROM t WHERE a = ?"),
        1
    );
    assert_eq!(count_placeholders("SELECT 'it''s ?' FROM t WHERE a = ?"), 1);
}

#[test]
fn unterminated_input_does_not_hang_or_panic() {
    assert_eq!(count_placeholders("SELECT 'unterminated ?"), 0);
    assert_eq!(count_placeholders("SELECT /* unterminated ?"), 0);
}

// Statement splitting

#[test]
fn splits_on_semicolons() {
    let stmts = split_statements("SELECT 1; SELECT 2; SELECT 3");
    assert_eq!(stmts, vec!["SELECT 1", "SELECT 2", "SELECT 3"]);
}

#[test]
fn a_trailing_semicolon_does_not_add_an_empty_statement() {
    assert_eq!(split_statements("SELECT 1;"), vec!["SELECT 1"]);
    assert_eq!(split_statements("SELECT 1;\n\n"), vec!["SELECT 1"]);
}

#[test]
fn does_not_split_on_a_semicolon_inside_a_literal() {
    let stmts = split_statements("INSERT INTO t VALUES ('a;b'); SELECT 2");
    assert_eq!(stmts, vec!["INSERT INTO t VALUES ('a;b')", "SELECT 2"]);
}

#[test]
fn does_not_split_on_a_semicolon_inside_a_comment() {
    let stmts = split_statements("SELECT 1 /* ; not a break */; SELECT 2");
    assert_eq!(stmts.len(), 2);
    assert!(stmts[0].starts_with("SELECT 1"));
    assert_eq!(stmts[1], "SELECT 2");
}

#[test]
fn comment_only_fragments_are_dropped() {
    let stmts = split_statements("-- header comment\nSELECT 1;\n# trailing note\n");
    assert_eq!(stmts.len(), 1);
    assert!(stmts[0].ends_with("SELECT 1"));
}

#[test]
fn an_empty_or_comment_only_script_yields_nothing() {
    assert!(split_statements("").is_empty());
    assert!(split_statements("   \n\t\n").is_empty());
    assert!(split_statements("-- just a comment\n").is_empty());
    assert!(split_statements("/* only a block comment */").is_empty());
}

#[test]
fn a_multiline_statement_survives_intact() {
    let script = "CREATE TABLE t (\n  id INT,\n  name VARCHAR(24)\n);\nSELECT 1;";
    let stmts = split_statements(script);
    assert_eq!(stmts.len(), 2);
    assert!(stmts[0].contains("VARCHAR(24)"));
}

#[test]
fn scan_code_skips_literals_and_comments() {
    assert_eq!(scan_code("a'b'c -- x\nd"), vec![0, 4, 5, 10, 11]);
    assert_eq!(scan_code("x /* ; */ y"), vec![0, 1, 9, 10]);
    assert_eq!(scan_code("'unterminated ; ?"), Vec::<usize>::new());
    assert_eq!(scan_code("`a``b` ?"), vec![6, 7]);
}

#[test]
fn placeholders_never_exceed_question_marks() {
    let q = "SELECT ? , '?' -- ?\n , ?";
    assert_eq!(count_placeholders(q), 2);
    assert!(count_placeholders(q) <= q.matches('?').count());
    let plain = "UPDATE t SET a = ?, b = ? WHERE c = ?";
    assert_eq!(count_placeholders(plain), plain.matches('?').count());
}

#[test]
fn splitting_keeps_every_placeholder() {
    let script = "INSERT INTO t VALUES (?, '?;'); /* ? ; */ SELECT ?; # ?\n UPDATE u SET a = ? ;  ";
    let parts = split_statements(script);
    let total: usize = parts.iter().map(|s| count_placeholders(s)).sum();
    assert_eq!(total, count_placeholders(script));
    assert_eq!(total, 3);
    let mut from = 0;
    for part in &parts {
        assert_eq!(part.trim(), part);
        assert!(!part.is_empty());
        let at = script[from..].find(part.as_str()).expect("a piece of the script") + from;
        from = at + part.len();
    }
}
