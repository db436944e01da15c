//! The text side of logging: the level a script asks for and the banner
//! written when the plugin starts. Writing the lines out is left to the host.
use vstd::prelude::*;

use crate::text::{chars_of, trim, trim_chars};

verus! {

broadcast use vstd::string::group_string_axioms;

/// How much is logged.
#[derive(Clone, Copy, Debug, PartialEq, Eq, Structural)]
pub enum LogLevel {
    Off,
    Error,
    Warn,
    Info,
    Trace,
}

/// The level for the script-facing number (0 = nothing .. 4 = everything);
/// numbers outside that range are clamped to it.
pub fn level_for(level: i32) -> (l: LogLevel)
    ensures
        l == (if level <= 0 {
            LogLevel::Off
        } else if level == 1 {
            LogLevel::Error
        } else if level == 2 {
            LogLevel::Warn
        } else if level == 3 {
            LogLevel::Info
        } else {
            LogLevel::Trace
        }),
{
    let clamped = if level < 0 {
        0
    } else if level > 4 {
        4
    } else {
        level
    };
    i32_to_level(clamped)
}

/// The level for a number already in `0..=4`; anything above 3 logs
/// everything.
pub fn i32_to_level(level: i32) -> (l: LogLevel)
    ensures
        l == (if level == 0 {
            LogLevel::Off
        } else if level == 1 {
            LogLevel::Error
        } else if level == 2 {
            LogLevel::Warn
        } else if level == 3 {
            LogLevel::Info
        } else {
            LogLevel::Trace
        }),
{
    match level {
        0 => LogLevel::Off,
        1 => LogLevel::Error,
        2 => LogLevel::Warn,
        3 => LogLevel::Info,
        _ => LogLevel::Trace,
    }
}

/// `value`, or `fallback` when `value` is empty or only whitespace.
pub fn value_or<'a>(value: &'a str, fallback: &'a str) -> (r: &'a str)
    ensures
        r@ == (if trim(value@).len() == 0 {
            fallback@
        } else {
            value@
        }),
{
    let v = chars_of(value);
    let t = trim_chars(&v);
    if t.len() == 0 {
        fallback
    } else {
        value
    }
}

/// The banner lines: name, version and build year; the author (or
/// `Unknown`); the build date and time; the repository (or `N/A`), framed by
/// blank and rule lines.
pub fn banner_lines(
    name: &str,
    version: &str,
    authors: &str,
    repository: &str,
    build_date: &str,
    build_time: &str,
    build_year: &str,
) -> (lines: Vec<String>)
    ensures
        lines@.len() == 9,
        lines@[0]@.len() == 0,
        lines@[1]@ == "  | "@ + name@ + " "@ + version@ + " | "@ + build_year@,
        lines@[2]@ == "  |-------------------------------"@,
        lines@[3]@ == "  | Author and maintainer: "@ + (if trim(authors@).len() == 0 {
            "Unknown"@
        } else {
            authors@
        }),
        lines@[4]@.len() == 0,
        lines@[5]@ == "  | Compiled: "@ + build_date@ + " at "@ + build_time@,
        lines@[6]@ == "  |-------------------------------"@,
        lines@[7]@ == "  | Repository: "@ + (if trim(repository@).len() == 0 {
            "N/A"@
        } else {
            repository@
        }),
        lines@[8]@.len() == 0,
{
    let mut lines: Vec<String> = Vec::new();
    lines.push(String::new());
    let mut l1 = String::from_str("  | ");
    l1.append(name);
    l1.append(" ");
    l1.append(version);
    l1.append(" | ");
    l1.append(build_year);
    lines.push(l1);
    lines.push(String::from_str("  |-------------------------------"));
    let mut l3 = String::from_str("  | Author and maintainer: ");
    l3.append(value_or(authors, "Unknown"));
    lines.push(l3);
    lines.push(String::new());
    let mut l5 = String::from_str("  | Compiled: ");
    l5.append(build_date);
    l5.append(" at ");
    l5.append(build_time);
    lines.push(l5);
    lines.push(String::from_str("  |-------------------------------"));
    let mut l7 = String::from_str("  | Repository: ");
    l7.append(value_or(repository, "N/A"));
    lines.push(l7);
    lines.push(String::new());
    lines
}

} // verus!
