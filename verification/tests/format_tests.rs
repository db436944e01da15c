use mysql_samp::connection::EscapeMode;
use mysql_samp::format::{
    callback_arg_kinds, format_arg_kinds, parse_format, render_format, truncate_to_buffer, ArgKind,
    FormatSpec, FormatValue,
};

/// A float as the host writes it for `%f`.
fn float_text(v: f32) -> String {
    format!("{:.4}", v)
}

#[test]
fn parse_format_plain() {
    assert_eq!(
        parse_format("hello"),
        vec![FormatSpec::Literal("hello".into())]
    );
}

#[test]
fn parse_format_mix() {
    let specs = parse_format("id=%d, name='%s', raw=%r, pct=%%, dunno=%z");
    assert_eq!(
        specs,
        vec![
            FormatSpec::Literal("id=".into()),
            FormatSpec::Int,
            FormatSpec::Literal(", name='".into()),
            FormatSpec::EscapedStr,
            FormatSpec::Literal("', raw=".into()),
            FormatSpec::RawStr,
            FormatSpec::Literal(", pct=".into()),
            FormatSpec::Percent,
            FormatSpec::Literal(", dunno=".into()),
            FormatSpec::Unknown('z'),
        ]
    );
}

#[test]
fn parse_format_trailing_percent() {
    assert_eq!(
        parse_format("ends with %"),
        vec![
            FormatSpec::Literal("ends with ".into()),
            FormatSpec::Literal("%".into()),
        ]
    );
}

#[test]
fn render_format_basic() {
    let specs = parse_format("INSERT INTO t (id, name) VALUES (%d, '%s')");
    let values = vec![FormatValue::Int(42), FormatValue::Str("O'Brien".into())];
    let r = render_format(&specs, &values, EscapeMode::Backslash);
    assert_eq!(
        r.output,
        "INSERT INTO t (id, name) VALUES (42, 'O\\'Brien')"
    );
    assert_eq!(r.unknown_specs, 0);
}

#[test]
fn render_format_float_precision() {
    let specs = parse_format("v=%f");
    let r = render_format(&specs, &vec![FormatValue::Float(float_text(1.5))], EscapeMode::Backslash);
    assert_eq!(r.output, "v=1.5000");
}

#[test]
fn render_format_raw_string_not_escaped() {
    let specs = parse_format("raw=%r");
    let r = render_format(&specs, &vec![FormatValue::Str("a'b".into())], EscapeMode::Backslash);
    assert_eq!(r.output, "raw=a'b");
}

#[test]
fn render_format_escaped_string_is_escaped() {
    let specs = parse_format("v=%e");
    let r = render_format(&specs, &vec![FormatValue::Str("a'b".into())], EscapeMode::Backslash);
    assert_eq!(r.output, "v=a\\'b");
}

#[test]
fn render_format_percent_literal() {
    let specs = parse_format("100%%");
    let r = render_format(&specs, &vec![], EscapeMode::Backslash);
    assert_eq!(r.output, "100%");
}

#[test]
fn render_format_unknown_spec_counted() {
    let specs = parse_format("%z %q");
    let r = render_format(&specs, &vec![], EscapeMode::Backslash);
    assert_eq!(r.unknown_specs, 2);
    assert_eq!(r.output, "%z %q");
}

#[test]
fn render_format_missing_value_skipped() {
    let specs = parse_format("%d-%d");
    let r = render_format(&specs, &vec![FormatValue::Int(5)], EscapeMode::Backslash);
    assert_eq!(r.output, "5-");
}

#[test]
fn truncate_within_capacity() {
    let (s, t) = truncate_to_buffer("hello", 10);
    assert_eq!(s, "hello");
    assert!(!t);
}

#[test]
fn truncate_oversized_ascii() {
    // max_len = 5 means 4 chars + NUL: "hell".
    let (s, t) = truncate_to_buffer("hello world", 5);
    assert_eq!(s, "hell");
    assert!(t);
}

#[test]
fn truncate_respects_utf8_boundary() {
    // "café" is 5 bytes; a cap of 4 would split the é, so 3 are kept.
    let (s, t) = truncate_to_buffer("café", 5);
    assert_eq!(s, "caf");
    assert!(t);
}

#[test]
fn truncate_zero_capacity() {
    let (s, t) = truncate_to_buffer("anything", 0);
    assert_eq!(s, "");
    assert!(t);
}

#[test]
fn truncate_zero_capacity_empty_input() {
    let (s, t) = truncate_to_buffer("", 0);
    assert_eq!(s, "");
    assert!(!t);
}

// Further cases.

#[test]
fn render_format_escapes_for_the_connection_mode() {
    let specs = parse_format("'%s'");
    let values = vec![FormatValue::Str("O'Brien\\".into())];
    let r = render_format(&specs, &values, EscapeMode::NoBackslashEscapes);
    assert_eq!(r.output, "'O''Brien\\'");
}

#[test]
fn render_format_mismatched_value_is_consumed_and_writes_nothing() {
    let specs = parse_format("%d|%s");
    let values = vec![FormatValue::Str("x".into()), FormatValue::Str("y".into())];
    let r = render_format(&specs, &values, EscapeMode::Backslash);
    assert_eq!(r.output, "|y");
}

#[test]
fn render_format_negative_and_extreme_integers() {
    let specs = parse_format("%d %i %d");
    let values = vec![
        FormatValue::Int(-7),
        FormatValue::Int(i32::MIN),
        FormatValue::Int(i32::MAX),
    ];
    let r = render_format(&specs, &values, EscapeMode::Backslash);
    assert_eq!(r.output, "-7 -2147483648 2147483647");
}

#[test]
fn format_arguments_follow_the_specifiers() {
    let specs = parse_format("%d %s %% %f %r %z %e");
    assert_eq!(
        format_arg_kinds(&specs),
        vec![ArgKind::Int, ArgKind::Str, ArgKind::Float, ArgKind::Str, ArgKind::Str]
    );
}

#[test]
fn callback_arguments_follow_the_format() {
    let (kinds, unknown) = callback_arg_kinds("dixfs");
    assert_eq!(kinds, vec![ArgKind::Int, ArgKind::Int, ArgKind::Float, ArgKind::Str]);
    assert_eq!(unknown, 1);
}

#[test]
fn truncate_keeps_whole_multibyte_characters() {
    // "日本" is two 3-byte characters; 6 cells hold 5 bytes plus the NUL.
    let (s, t) = truncate_to_buffer("日本", 6);
    assert_eq!(s, "日");
    assert!(t);
    let (s, t) = truncate_to_buffer("日本", 7);
    assert_eq!(s, "日本");
    assert!(!t);
}
