use mysql_samp::logger::{banner_lines, i32_to_level, level_for, value_or, LogLevel};

#[test]
fn levels_are_clamped() {
    assert_eq!(level_for(-3), LogLevel::Off);
    assert_eq!(level_for(0), LogLevel::Off);
    assert_eq!(level_for(1), LogLevel::Error);
    assert_eq!(level_for(2), LogLevel::Warn);
    assert_eq!(level_for(3), LogLevel::Info);
    assert_eq!(level_for(4), LogLevel::Trace);
    assert_eq!(level_for(40), LogLevel::Trace);
    assert_eq!(i32_to_level(7), LogLevel::Trace);
}

#[test]
fn blank_values_fall_back() {
    assert_eq!(value_or("  ", "N/A"), "N/A");
    assert_eq!(value_or("", "N/A"), "N/A");
    assert_eq!(value_or(" x ", "N/A"), " x ");
}

#[test]
fn the_banner_has_its_nine_lines() {
    let lines = banner_lines("mysql_samp", "1.2.3", "", "https://x", "2024-01-02", "03:04", "2024");
    assert_eq!(lines.len(), 9);
    assert_eq!(lines[0], "");
    assert_eq!(lines[1], "  | mysql_samp 1.2.3 | 2024");
    assert_eq!(lines[2], "  |-------------------------------");
    assert_eq!(lines[3], "  | Author and maintainer: Unknown");
    assert_eq!(lines[5], "  | Compiled: 2024-01-02 at 03:04");
    assert_eq!(lines[7], "  | Repository: https://x");
    assert_eq!(lines[8], "");
}
