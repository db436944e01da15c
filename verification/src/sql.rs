//! Lexical scanning of SQL text.
//!
//! The placeholder counter and the statement splitter both need to look at
//! SQL and ignore anything inside a string literal, a quoted identifier or a
//! comment: a `?` inside `'...'` is data, a `;` inside `/* ... */` does not end
//! a statement. One scanner serves both, so the two cannot drift apart.
//!
//! The scanner works on characters. Every character it reacts to is ASCII, and
//! in UTF-8 the bytes of a non-ASCII character are all non-ASCII, so scanning
//! characters finds the same literals, comments and code as scanning bytes.
use vstd::prelude::*;

use crate::text::{
    chars_of, is_ascii_ws, is_ws, lead_end, lemma_lead_end, lemma_trail_start, lemma_trim_range, slice_chars, string_of,
    trail_start, trim, trim_chars, trim_range,
};

verus! {

/// Where a quoted region opened at `j - 1` by `q` closes: the index of the
/// closing quote, or the end of the input when it never closes. Backslash
/// escapes apply to string literals, not to backtick identifiers; a doubled
/// quote is a literal quote.
pub open spec fn quote_close(s: Seq<char>, q: char, j: int) -> int
    decreases s.len() - j,
{
    if j >= s.len() {
        s.len() as int
    } else if q != '`' && s[j] == '\\' {
        if j + 2 >= s.len() {
            s.len() as int
        } else {
            quote_close(s, q, j + 2)
        }
    } else if s[j] == q {
        if j + 1 < s.len() && s[j + 1] == q {
            quote_close(s, q, j + 2)
        } else {
            j
        }
    } else {
        quote_close(s, q, j + 1)
    }
}

/// The first line break at or after `j`, or the end of the input.
pub open spec fn line_end(s: Seq<char>, j: int) -> int
    decreases s.len() - j,
{
    if j >= s.len() {
        s.len() as int
    } else if s[j] == '\n' {
        j
    } else {
        line_end(s, j + 1)
    }
}

/// The position just after the `*/` that closes a block comment whose body
/// starts at `j`, or the end of the input.
pub open spec fn block_close(s: Seq<char>, j: int) -> int
    decreases s.len() - j,
{
    if j + 1 >= s.len() {
        s.len() as int
    } else if s[j] == '*' && s[j + 1] == '/' {
        j + 2
    } else {
        block_close(s, j + 1)
    }
}

pub open spec fn is_quote(c: char) -> bool {
    c == '\'' || c == '"' || c == '`'
}

/// A line comment (`-- …`) starts at `i`.
pub open spec fn dash_comment_at(s: Seq<char>, i: int) -> bool {
    s[i] == '-' && i + 1 < s.len() && s[i + 1] == '-'
}

/// A block comment (`/* … */`) starts at `i`.
pub open spec fn block_comment_at(s: Seq<char>, i: int) -> bool {
    s[i] == '/' && i + 1 < s.len() && s[i + 1] == '*'
}

/// The character at `i`, reached in code position, is itself code: it opens
/// no literal and no comment.
pub open spec fn is_code_at(s: Seq<char>, i: int) -> bool {
    !is_quote(s[i]) && !dash_comment_at(s, i) && s[i] != '#' && !block_comment_at(s, i)
}

/// Where the scanner goes next from code position `i`.
pub open spec fn step(s: Seq<char>, i: int) -> int {
    if is_quote(s[i]) {
        let c = quote_close(s, s[i], i + 1);
        if c + 1 < s.len() {
            c + 1
        } else {
            s.len() as int
        }
    } else if dash_comment_at(s, i) || s[i] == '#' {
        line_end(s, i)
    } else if block_comment_at(s, i) {
        block_close(s, i + 2)
    } else {
        i + 1
    }
}

proof fn lemma_quote_close_bounds(s: Seq<char>, q: char, j: int)
    ensures
        quote_close(s, q, j) >= j || quote_close(s, q, j) == s.len(),
        quote_close(s, q, j) <= s.len() || quote_close(s, q, j) == j,
        j <= s.len() ==> quote_close(s, q, j) <= s.len(),
    decreases s.len() - j,
{
    if j >= s.len() {
    } else if q != '`' && s[j] == '\\' {
        if j + 2 < s.len() {
            lemma_quote_close_bounds(s, q, j + 2);
        }
    } else if s[j] == q {
        if j + 1 < s.len() && s[j + 1] == q {
            lemma_quote_close_bounds(s, q, j + 2);
        }
    } else {
        lemma_quote_close_bounds(s, q, j + 1);
    }
}

proof fn lemma_line_end_bounds(s: Seq<char>, j: int)
    requires
        0 <= j <= s.len(),
    ensures
        j <= line_end(s, j) <= s.len(),
    decreases s.len() - j,
{
    if j < s.len() && s[j] != '\n' {
        lemma_line_end_bounds(s, j + 1);
    }
}

proof fn lemma_block_close_bounds(s: Seq<char>, j: int)
    requires
        0 <= j,
    ensures
        j <= block_close(s, j) <= s.len() || block_close(s, j) == s.len(),
        block_close(s, j) <= s.len(),
    decreases s.len() - j,
{
    if j + 1 >= s.len() {
    } else if s[j] == '*' && s[j + 1] == '/' {
    } else {
        lemma_block_close_bounds(s, j + 1);
    }
}

/// Every step moves forward and stays within the input.
pub proof fn lemma_step_bounds(s: Seq<char>, i: int)
    requires
        0 <= i < s.len(),
    ensures
        i < step(s, i) <= s.len(),
{
    if is_quote(s[i]) {
        lemma_quote_close_bounds(s, s[i], i + 1);
    } else if dash_comment_at(s, i) || s[i] == '#' {
        lemma_line_end_bounds(s, i + 1);
    } else if block_comment_at(s, i) {
        lemma_block_close_bounds(s, i + 2);
    }
}

/// The code positions of `s` from code position `i` on, in order.
pub open spec fn code_positions(s: Seq<char>, i: int) -> Seq<int>
    decreases s.len() - i,
{
    if i < 0 || i >= s.len() {
        Seq::empty()
    } else {
        proof {
            lemma_step_bounds(s, i);
        }
        let rest = code_positions(s, step(s, i));
        if is_code_at(s, i) {
            seq![i] + rest
        } else {
            rest
        }
    }
}

/// The code positions of `s` holding the character `c`.
pub open spec fn code_hits(s: Seq<char>, i: int, c: char) -> Seq<int>
    decreases s.len() - i,
{
    if i < 0 || i >= s.len() {
        Seq::empty()
    } else {
        proof {
            lemma_step_bounds(s, i);
        }
        let rest = code_hits(s, step(s, i), c);
        if is_code_at(s, i) && s[i] == c {
            seq![i] + rest
        } else {
            rest
        }
    }
}

fn quote_close_exec(s: &Vec<char>, q: char, start: usize) -> (r: usize)
    requires
        start <= s@.len(),
    ensures
        r as int == quote_close(s@, q, start as int),
        r <= s@.len(),
{
    let n = s.len();
    let mut j = start;
    let ghost j0 = j as int;
    loop
        invariant
            n == s@.len(),
            j <= n,
            j0 == start,
            quote_close(s@, q, j as int) == quote_close(s@, q, j0),
        decreases n - j,
    {
        if j >= n {
            return n;
        }
        if q != '`' && s[j] == '\\' {
            if n - j > 2 {
                j = j + 2;
            } else {
                j = n;
            }
            continue;
        }
        if s[j] == q {
            if n - j > 1 && s[j + 1] == q {
                j = j + 2;
                continue;
            }
            return j;
        }
        j = j + 1;
    }
}

fn line_end_exec(s: &Vec<char>, start: usize) -> (r: usize)
    requires
        start <= s@.len(),
    ensures
        r as int == line_end(s@, start as int),
{
    let n = s.len();
    let mut j = start;
    let ghost j0 = j as int;
    while j < n && s[j] != '\n'
        invariant
            n == s@.len(),
            j <= n,
            line_end(s@, j as int) == line_end(s@, j0),
        decreases n - j,
    {
        j = j + 1;
    }
    j
}

fn block_close_exec(s: &Vec<char>, start: usize) -> (r: usize)
    requires
        start <= s@.len(),
    ensures
        r as int == block_close(s@, start as int),
{
    let n = s.len();
    let mut j = start;
    let ghost j0 = j as int;
    loop
        invariant
            n == s@.len(),
            j <= n,
            j0 == start,
            block_close(s@, j as int) == block_close(s@, j0),
        decreases n - j,
    {
        if n - j <= 1 {
            return n;
        }
        if s[j] == '*' && s[j + 1] == '/' {
            return j + 2;
        }
        j = j + 1;
    }
}

/// One step of the scanner from code position `i`: where it goes next, and
/// whether the character at `i` is code.
fn scan_step(s: &Vec<char>, i: usize) -> (r: (usize, bool))
    requires
        i < s@.len(),
    ensures
        r.0 as int == step(s@, i as int),
        r.1 == is_code_at(s@, i as int),
{
    proof { lemma_step_bounds(s@, i as int); }
    let n = s.len();
    let c = s[i];
    if c == '\'' || c == '"' || c == '`' {
        let close = quote_close_exec(s, c, i + 1);
        if close < n - 1 {
            (close + 1, false)
        } else {
            (n, false)
        }
    } else if (c == '-' && n - i > 1 && s[i + 1] == '-') || c == '#' {
        (line_end_exec(s, i), false)
    } else if c == '/' && n - i > 1 && s[i + 1] == '*' {
        (block_close_exec(s, i + 2), false)
    } else {
        (i + 1, true)
    }
}

/// The positions (in characters) of `sql` that are code: outside `'...'`,
/// `"..."`, `` `...` ``, `-- ...`, `# ...` and `/* ... */`, in order. An
/// unterminated literal or comment takes the rest of the input.
pub fn scan_code(sql: &str) -> (r: Vec<usize>)
    ensures
        r@.map_values(|p: usize| p as int) == code_positions(sql@, 0),
{
    let s = chars_of(sql);
    let n = s.len();
    let mut out: Vec<usize> = Vec::new();
    let mut i: usize = 0;
    while i < n
        invariant
            n == s@.len(),
            s@ == sql@,
            i <= n,
            out@.map_values(|p: usize| p as int) + code_positions(s@, i as int) == code_positions(
                s@,
                0,
            ),
        decreases n - i,
    {
        let ghost before = out@.map_values(|p: usize| p as int);
        let (next, code) = scan_step(&s, i);
        proof {
            lemma_step_bounds(s@, i as int);
        }
        if code {
            out.push(i);
        }
        proof {
            if code {
                assert(out@.map_values(|p: usize| p as int) =~= before.push(i as int));
            }
            assert(out@.map_values(|p: usize| p as int) + code_positions(s@, next as int) =~= before
                + code_positions(s@, i as int));
        }
        i = next;
    }
    proof {
        assert(out@.map_values(|p: usize| p as int) + code_positions(s@, i as int) =~= out@.map_values(|p: usize| p as int));
    }
    out
}

/// The number of `?` placeholders in code position.
pub open spec fn placeholder_count(s: Seq<char>) -> int {
    code_hits(s, 0, '?').len() as int
}

/// The number of `c` in `s` from `i` on, wherever they stand.
pub open spec fn char_count(s: Seq<char>, i: int, c: char) -> nat
    decreases s.len() - i,
{
    if i < 0 || i >= s.len() {
        0
    } else {
        (if s[i] == c {
            1nat
        } else {
            0nat
        }) + char_count(s, i + 1, c)
    }
}

proof fn lemma_char_count_mono(s: Seq<char>, i: int, j: int, c: char)
    requires
        0 <= i <= j,
    ensures
        char_count(s, j, c) <= char_count(s, i, c),
    decreases j - i,
{
    if i < j {
        lemma_char_count_mono(s, i + 1, j, c);
    }
}

proof fn lemma_hits_bounded(s: Seq<char>, i: int, c: char)
    requires
        0 <= i,
    ensures
        code_hits(s, i, c).len() <= char_count(s, i, c),
        (forall|k: int| i <= k < s.len() ==> #[trigger] is_code_at(s, k)) ==> code_hits(s, i, c).len() == char_count(
            s,
            i,
            c,
        ),
    decreases s.len() - i,
{
    if i < s.len() {
        lemma_step_bounds(s, i);
        lemma_hits_bounded(s, step(s, i), c);
        lemma_char_count_mono(s, i + 1, step(s, i), c);
        if forall|k: int| i <= k < s.len() ==> #[trigger] is_code_at(s, k) {
            assert(is_code_at(s, i));
            assert(step(s, i) == i + 1);
            assert forall|k: int| i + 1 <= k < s.len() implies #[trigger] is_code_at(s, k) by {}
        }
    }
}

/// Only a `?` can be a placeholder, so there are never more placeholders
/// than question marks; in text with no quote, `#`, `--` or `/*`, every
/// question mark is one.
pub proof fn lemma_placeholders_are_question_marks(q: Seq<char>)
    ensures
        placeholder_count(q) <= char_count(q, 0, '?'),
        (forall|k: int| 0 <= k < q.len() ==> #[trigger] is_code_at(q, k)) ==> placeholder_count(q)
            == char_count(q, 0, '?'),
{
    lemma_hits_bounded(q, 0, '?');
}

/// Counts `?` in code position from `i` on, one scanner step at a time.
fn count_code_char(s: &Vec<char>, c: char) -> (count: usize)
    ensures
        count == code_hits(s@, 0, c).len(),
{
    let n = s.len();
    let mut i: usize = 0;
    let mut count: usize = 0;
    while i < n
        invariant
            n == s@.len(),
            i <= n,
            count <= i,
            count + code_hits(s@, i as int, c).len() == code_hits(s@, 0, c).len(),
        decreases n - i,
    {
        let (next, code) = scan_step(s, i);
        proof { lemma_step_bounds(s@, i as int); }
        if code && s[i] == c {
            count = count + 1;
        }
        i = next;
    }
    count
}

/// Number of `?` placeholders in code position.
pub fn count_placeholders(query: &str) -> (n: usize)
    ensures
        n == placeholder_count(query@),
{
    let s = chars_of(query);
    count_code_char(&s, '?')
}

/// The code positions of `s` from `i` on that are not ASCII whitespace exist.
pub open spec fn has_code_from(s: Seq<char>, i: int) -> bool
    decreases s.len() - i,
{
    if i < 0 || i >= s.len() {
        false
    } else {
        proof {
            lemma_step_bounds(s, i);
        }
        (is_code_at(s, i) && !is_ascii_ws(s[i])) || has_code_from(s, step(s, i))
    }
}

/// A fragment worth sending: its trimmed text, when that holds actual SQL
/// and not only blanks and comments.
pub open spec fn kept_statement(f: Seq<char>) -> Seq<Seq<char>> {
    if has_code_from(trim(f), 0) {
        seq![trim(f)]
    } else {
        Seq::empty()
    }
}

/// The statements of `s` between `start` and the end, cut at the code-position
/// semicolons `bs`.
pub open spec fn statements_from(s: Seq<char>, start: int, bs: Seq<int>) -> Seq<Seq<char>>
    decreases bs.len(),
{
    if bs.len() == 0 {
        kept_statement(s.subrange(start, s.len() as int))
    } else {
        kept_statement(s.subrange(start, bs[0])) + statements_from(s, bs[0] + 1, bs.drop_first())
    }
}

/// `split_statements` on `s`: cut at every `;` in code position, trim each
/// fragment, drop the ones without SQL.
pub open spec fn split_spec(s: Seq<char>) -> Seq<Seq<char>> {
    statements_from(s, 0, code_hits(s, 0, ';'))
}

/// The hits of the scanner lie in the input, in increasing order.
proof fn lemma_code_hits_sorted(s: Seq<char>, i: int, c: char)
    requires
        0 <= i,
    ensures
        forall|k: int| 0 <= k < code_hits(s, i, c).len() ==> i <= #[trigger] code_hits(s, i, c)[k] < s.len(),
        forall|k: int| 0 <= k < code_hits(s, i, c).len() ==> s[#[trigger] code_hits(s, i, c)[k]] == c,
        forall|k: int, l: int| 0 <= k < l < code_hits(s, i, c).len() ==> code_hits(s, i, c)[k] < code_hits(s, i, c)[l],
    decreases s.len() - i,
{
    if i < s.len() {
        lemma_step_bounds(s, i);
        lemma_code_hits_sorted(s, step(s, i), c);
        let rest = code_hits(s, step(s, i), c);
        if is_code_at(s, i) && s[i] == c {
            let h = seq![i] + rest;
            assert(code_hits(s, i, c) == h);
            assert forall|k: int, l: int| 0 <= k < l < h.len() implies h[k] < h[l] by {
                if k > 0 {
                    assert(h[k] == rest[k - 1]);
                }
                assert(h[l] == rest[l - 1]);
            }
        }
    }
}

/// Where each statement of `statements_from(s, start, bs)` lies in `s`.
pub open spec fn ranges_from(s: Seq<char>, start: int, bs: Seq<int>) -> Seq<(int, int)>
    decreases bs.len(),
{
    let end = if bs.len() == 0 {
        s.len() as int
    } else {
        bs[0]
    };
    let f = s.subrange(start, end);
    let r = trim_range(f);
    let here = if has_code_from(trim(f), 0) {
        seq![(start + r.0, start + r.1)]
    } else {
        Seq::<(int, int)>::empty()
    };
    if bs.len() == 0 {
        here
    } else {
        here + ranges_from(s, bs[0] + 1, bs.drop_first())
    }
}

/// Where each statement of `split_statements` lies in the script.
pub open spec fn split_ranges(s: Seq<char>) -> Seq<(int, int)> {
    ranges_from(s, 0, code_hits(s, 0, ';'))
}

proof fn lemma_ranges_from(s: Seq<char>, start: int, bs: Seq<int>)
    requires
        0 <= start <= s.len(),
        forall|k: int| 0 <= k < bs.len() ==> start <= #[trigger] bs[k] < s.len(),
        forall|k: int, l: int| 0 <= k < l < bs.len() ==> bs[k] < bs[l],
    ensures
        ({
            let st = statements_from(s, start, bs);
            let rs = ranges_from(s, start, bs);
            &&& st.len() == rs.len()
            &&& forall|k: int|
                0 <= k < rs.len() ==> start <= (#[trigger] rs[k]).0 < rs[k].1 <= s.len() && st[k] == s.subrange(
                    rs[k].0,
                    rs[k].1,
                ) && st[k].len() > 0 && trim(st[k]) == st[k] && has_code_from(st[k], 0)
            &&& forall|k: int, l: int| 0 <= k < l < rs.len() ==> (#[trigger] rs[k]).1 <= (#[trigger] rs[l]).0
        }),
    decreases bs.len(),
{
    let end = if bs.len() == 0 {
        s.len() as int
    } else {
        bs[0]
    };
    let f = s.subrange(start, end);
    lemma_trim_range(f);
    let r = trim_range(f);
    let t = trim(f);
    let keep = has_code_from(t, 0);
    let here_st = kept_statement(f);
    let here_rs = if keep {
        seq![(start + r.0, start + r.1)]
    } else {
        Seq::<(int, int)>::empty()
    };
    if keep {
        assert(t.len() > 0);
        assert(r.0 < r.1);
        assert(t =~= s.subrange(start + r.0, start + r.1));
    }
    if bs.len() == 0 {
        assert(statements_from(s, start, bs) == here_st);
        assert(ranges_from(s, start, bs) == here_rs);
    } else {
        let rest = bs.drop_first();
        assert forall|k: int| 0 <= k < rest.len() implies bs[0] + 1 <= #[trigger] rest[k] < s.len() by {
            assert(rest[k] == bs[k + 1]);
        }
        assert forall|k: int, l: int| 0 <= k < l < rest.len() implies rest[k] < rest[l] by {
            assert(rest[k] == bs[k + 1]);
            assert(rest[l] == bs[l + 1]);
        }
        lemma_ranges_from(s, bs[0] + 1, rest);
        let st2 = statements_from(s, bs[0] + 1, rest);
        let rs2 = ranges_from(s, bs[0] + 1, rest);
        let st = statements_from(s, start, bs);
        let rs = ranges_from(s, start, bs);
        assert(st == here_st + st2);
        assert(rs == here_rs + rs2);
        let h = here_rs.len() as int;
        assert forall|k: int| 0 <= k < rs.len() implies start <= (#[trigger] rs[k]).0 < rs[k].1 <= s.len()
            && st[k] == s.subrange(rs[k].0, rs[k].1) && st[k].len() > 0 && trim(st[k]) == st[k]
            && has_code_from(st[k], 0) by {
            if k < h {
                assert(rs[k] == here_rs[k]);
                assert(st[k] == here_st[k]);
            } else {
                assert(rs[k] == rs2[k - h]);
                assert(st[k] == st2[k - h]);
            }
        }
        assert forall|k: int, l: int| 0 <= k < l < rs.len() implies (#[trigger] rs[k]).1 <= (#[trigger] rs[l]).0 by {
            if l < h {
            } else if k < h {
                assert(rs[k] == here_rs[k]);
                assert(rs[l] == rs2[l - h]);
                let _ = rs2[l - h];
            } else {
                assert(rs[k] == rs2[k - h]);
                assert(rs[l] == rs2[l - h]);
                let _ = rs2[k - h];
                let _ = rs2[l - h];
            }
        }
    }
}

/// The statements `split_statements` returns are the pieces of the script
/// worth sending: each is non-empty, trimmed and holds code (not only blanks
/// and comments), each is a slice of the script, and they come in the
/// script's order without overlapping.
pub proof fn lemma_split_statements_are_pieces(s: Seq<char>)
    ensures
        ({
            let st = split_spec(s);
            let rs = split_ranges(s);
            &&& st.len() == rs.len()
            &&& forall|k: int|
                0 <= k < st.len() ==> (#[trigger] st[k]).len() > 0 && trim(st[k]) == st[k] && has_code_from(
                    st[k],
                    0,
                )
            &&& forall|k: int|
                0 <= k < rs.len() ==> 0 <= (#[trigger] rs[k]).0 < rs[k].1 <= s.len() && st[k] == s.subrange(
                    rs[k].0,
                    rs[k].1,
                )
            &&& forall|k: int, l: int| 0 <= k < l < rs.len() ==> (#[trigger] rs[k]).1 <= (#[trigger] rs[l]).0
        }),
{
    lemma_code_hits_sorted(s, 0, ';');
    lemma_ranges_from(s, 0, code_hits(s, 0, ';'));
    let st = split_spec(s);
    let rs = split_ranges(s);
    assert forall|k: int| 0 <= k < st.len() implies (#[trigger] st[k]).len() > 0 && trim(st[k]) == st[k]
        && has_code_from(st[k], 0) by {
        let _ = rs[k];
    }
}

// ---- Scanning a window of the input -------------------------------------

proof fn lemma_qc_window(s: Seq<char>, a: int, b: int, q: char, j: int)
    requires
        0 <= a <= j,
        a <= b <= s.len(),
        is_quote(q),
    ensures
        ({
            let w = s.subrange(a, b);
            let c = quote_close(s, q, j);
            let cw = quote_close(w, q, j - a);
            &&& c <= b - 2 ==> cw + a == c
            &&& c >= b - 1 ==> cw + a >= b - 1
        }),
    decreases s.len() - j,
{
    let w = s.subrange(a, b);
    lemma_quote_close_bounds(s, q, j);
    if j >= b {
    } else {
        assert(w[j - a] == s[j]);
        if q != '`' && s[j] == '\\' {
            if j + 2 >= b {
                if j + 2 < s.len() {
                    lemma_quote_close_bounds(s, q, j + 2);
                }
            } else {
                lemma_qc_window(s, a, b, q, j + 2);
            }
        } else if s[j] == q {
            if j + 1 < b {
                assert(w[j + 1 - a] == s[j + 1]);
                if s[j + 1] == q {
                    lemma_qc_window(s, a, b, q, j + 2);
                }
            } else {
                if j + 1 < s.len() && s[j + 1] == q {
                    lemma_quote_close_bounds(s, q, j + 2);
                }
            }
        } else {
            lemma_qc_window(s, a, b, q, j + 1);
        }
    }
}

proof fn lemma_le_window(s: Seq<char>, a: int, b: int, j: int)
    requires
        0 <= a <= j <= s.len(),
        a <= b <= s.len(),
    ensures
        ({
            let w = s.subrange(a, b);
            let l = line_end(s, j);
            line_end(w, j - a) + a == if l <= b {
                l
            } else {
                b
            }
        }),
    decreases s.len() - j,
{
    let w = s.subrange(a, b);
    lemma_line_end_bounds(s, j);
    if j >= b {
    } else {
        assert(w[j - a] == s[j]);
        if s[j] != '\n' {
            lemma_le_window(s, a, b, j + 1);
        }
    }
}

proof fn lemma_bc_window(s: Seq<char>, a: int, b: int, j: int)
    requires
        0 <= a <= j,
        a <= b <= s.len(),
    ensures
        ({
            let w = s.subrange(a, b);
            let bc = block_close(s, j);
            block_close(w, j - a) + a == if bc <= b {
                bc
            } else {
                b
            }
        }),
    decreases s.len() - j,
{
    let w = s.subrange(a, b);
    lemma_block_close_bounds(s, j);
    if j + 1 >= s.len() {
    } else if j + 1 >= b {
        if !(s[j] == '*' && s[j + 1] == '/') {
            lemma_block_close_bounds(s, j + 1);
        }
    } else {
        assert(w[j - a] == s[j]);
        assert(w[j + 1 - a] == s[j + 1]);
        if !(s[j] == '*' && s[j + 1] == '/') {
            lemma_bc_window(s, a, b, j + 1);
        }
    }
}

/// One scanner step inside a window `[a, b)` goes where the step over the
/// whole input goes, cut at the window's end; and a character other than `-`
/// or `/` is a code hit in the window exactly when it is one in the input.
proof fn lemma_step_window(s: Seq<char>, a: int, b: int, i: int, c: char)
    requires
        0 <= a <= i < b <= s.len(),
        c != '-' && c != '/',
    ensures
        ({
            let w = s.subrange(a, b);
            let st = step(s, i);
            &&& step(w, i - a) + a == if st <= b {
                st
            } else {
                b
            }
            &&& (is_code_at(w, i - a) && w[i - a] == c) == (is_code_at(s, i) && s[i] == c)
        }),
{
    let w = s.subrange(a, b);
    lemma_step_bounds(s, i);
    assert(w[i - a] == s[i]);
    if i + 1 < b {
        assert(w[i + 1 - a] == s[i + 1]);
    }
    if is_quote(s[i]) {
        lemma_qc_window(s, a, b, s[i], i + 1);
    } else if dash_comment_at(w, i - a) || w[i - a] == '#' {
        lemma_le_window(s, a, b, i);
    } else if dash_comment_at(s, i) {
        lemma_line_end_bounds(s, i + 1);
        assert(line_end(s, i) == line_end(s, i + 1));
    } else if block_comment_at(w, i - a) {
        lemma_bc_window(s, a, b, i + 2);
    } else if block_comment_at(s, i) {
        lemma_block_close_bounds(s, i + 2);
    }
}

/// The code hits of `s` from `i` on that come before `b`.
pub open spec fn hits_below(s: Seq<char>, i: int, c: char, b: int) -> Seq<int>
    decreases s.len() - i,
{
    if i < 0 || i >= s.len() || i >= b {
        Seq::empty()
    } else {
        proof {
            lemma_step_bounds(s, i);
        }
        let rest = hits_below(s, step(s, i), c, b);
        if is_code_at(s, i) && s[i] == c {
            seq![i] + rest
        } else {
            rest
        }
    }
}

/// Scanning a window `[a, b)` from `i` finds, shifted by `a`, the hits that
/// scanning the whole input from `i` finds before `b`.
proof fn lemma_hits_window(s: Seq<char>, a: int, b: int, i: int, c: char)
    requires
        0 <= a <= i <= b <= s.len(),
        c != '-' && c != '/',
    ensures
        code_hits(s.subrange(a, b), i - a, c).map_values(|p: int| p + a) == hits_below(s, i, c, b),
    decreases b - i,
{
    let w = s.subrange(a, b);
    if i >= b {
        assert(code_hits(w, i - a, c) =~= Seq::<int>::empty());
        assert(code_hits(w, i - a, c).map_values(|p: int| p + a) =~= Seq::<int>::empty());
    } else {
        lemma_step_window(s, a, b, i, c);
        lemma_step_bounds(s, i);
        lemma_step_bounds(w, i - a);
        let st = step(s, i);
        let sw = step(w, i - a);
        if st <= b {
            lemma_hits_window(s, a, b, st, c);
        } else {
            assert(sw == w.len());
            assert(code_hits(w, sw, c) =~= Seq::<int>::empty());
            assert(hits_below(s, st, c, b) =~= Seq::<int>::empty());
        }
        let rw = code_hits(w, sw, c);
        let rs = hits_below(s, st, c, b);
        assert(rw.map_values(|p: int| p + a) == rs);
        if is_code_at(s, i) && s[i] == c {
            assert(code_hits(w, i - a, c) == seq![i - a] + rw);
            assert((seq![i - a] + rw).map_values(|p: int| p + a) =~= seq![i] + rw.map_values(|p: int| p + a));
        } else {
            assert(code_hits(w, i - a, c) == rw);
        }
    }
}

/// The scanner, started in code position at `p`, stops at `b` on its way.
pub open spec fn reaches(s: Seq<char>, p: int, b: int) -> bool
    decreases s.len() - p,
{
    if p == b {
        true
    } else if 0 <= p < s.len() && p < b {
        proof {
            lemma_step_bounds(s, p);
        }
        reaches(s, step(s, p), b)
    } else {
        false
    }
}

/// The hits before a point the scanner stops at, then the hits from there.
proof fn lemma_hits_split(s: Seq<char>, p: int, c: char, b: int)
    requires
        0 <= p,
        reaches(s, p, b),
    ensures
        code_hits(s, p, c) == hits_below(s, p, c, b) + code_hits(s, b, c),
    decreases s.len() - p,
{
    if p == b {
        assert(hits_below(s, p, c, b) =~= Seq::<int>::empty());
        assert(code_hits(s, p, c) =~= Seq::<int>::empty() + code_hits(s, b, c));
    } else {
        lemma_step_bounds(s, p);
        lemma_hits_split(s, step(s, p), c, b);
        if is_code_at(s, p) && s[p] == c {
            assert(code_hits(s, p, c) =~= hits_below(s, p, c, b) + code_hits(s, b, c));
        }
    }
}

/// Cut at the end of the input, the hits are all the hits.
proof fn lemma_hits_below_end(s: Seq<char>, p: int, c: char)
    requires
        0 <= p,
    ensures
        hits_below(s, p, c, s.len() as int) == code_hits(s, p, c),
    decreases s.len() - p,
{
    if p < s.len() {
        lemma_step_bounds(s, p);
        lemma_hits_below_end(s, step(s, p), c);
    }
}

/// The first hit of a character that opens nothing is a point the scanner
/// stops at, no hit comes before it, and the scan goes on right after it.
proof fn lemma_first_hit(s: Seq<char>, p: int, c: char)
    requires
        0 <= p,
        code_hits(s, p, c).len() > 0,
        !is_quote(c) && c != '#' && c != '-' && c != '/',
    ensures
        ({
            let h = code_hits(s, p, c)[0];
            &&& reaches(s, p, h)
            &&& p <= h < s.len()
            &&& s[h] == c
            &&& step(s, h) == h + 1
            &&& hits_below(s, p, c, h).len() == 0
            &&& code_hits(s, p, c) == seq![h] + code_hits(s, h + 1, c)
        }),
    decreases s.len() - p,
{
    lemma_step_bounds(s, p);
    if is_code_at(s, p) && s[p] == c {
        assert(code_hits(s, p, c)[0] == p);
        assert(hits_below(s, p, c, p) =~= Seq::<int>::empty());
    } else {
        lemma_first_hit(s, step(s, p), c);
        let h = code_hits(s, p, c)[0];
        assert(code_hits(s, p, c) == code_hits(s, step(s, p), c));
        lemma_code_hits_sorted(s, step(s, p), c);
        assert(h >= step(s, p));
    }
}

/// No hit where the character does not occur.
proof fn lemma_no_char_no_hits(s: Seq<char>, i: int, c: char)
    requires
        0 <= i,
        forall|k: int| i <= k < s.len() ==> s[k] != c,
    ensures
        code_hits(s, i, c).len() == 0,
{
    lemma_code_hits_sorted(s, i, c);
    if code_hits(s, i, c).len() > 0 {
        let h = code_hits(s, i, c)[0];
        assert(s[h] == c);
    }
}

/// Hits before `b` are all the hits when `c` does not occur from `b` on.
proof fn lemma_hits_below_tail(s: Seq<char>, i: int, c: char, b: int)
    requires
        0 <= i,
        0 <= b <= s.len(),
        forall|k: int| b <= k < s.len() ==> s[k] != c,
    ensures
        hits_below(s, i, c, b) == code_hits(s, i, c),
    decreases s.len() - i,
{
    if i >= s.len() {
    } else if i >= b {
        lemma_no_char_no_hits(s, i, c);
        assert(code_hits(s, i, c) =~= Seq::<int>::empty());
    } else {
        lemma_step_bounds(s, i);
        lemma_hits_below_tail(s, step(s, i), c, b);
    }
}

/// A text without code other than ASCII whitespace has no hit of a
/// character that is not such whitespace.
proof fn lemma_no_code_no_hits(s: Seq<char>, i: int, c: char)
    requires
        0 <= i,
        !has_code_from(s, i),
        !is_ascii_ws(c),
    ensures
        code_hits(s, i, c).len() == 0,
    decreases s.len() - i,
{
    if i < s.len() {
        lemma_step_bounds(s, i);
        lemma_no_code_no_hits(s, step(s, i), c);
    }
}

/// Trimming whitespace changes no hit count of a character that is neither
/// whitespace nor one that opens a literal or comment.
proof fn lemma_trim_keeps_hits(f: Seq<char>, c: char)
    requires
        !is_ws(c) && c != '-' && c != '/',
    ensures
        code_hits(trim(f), 0, c).len() == code_hits(f, 0, c).len(),
{
    lemma_trim_range(f);
    lemma_lead_end(f, 0);
    lemma_trail_start(f, f.len() as int);
    let r = trim_range(f);
    let lo = r.0;
    let hi = r.1;
    let a = lead_end(f, 0);
    let b = trail_start(f, f.len() as int);
    if a < b {
        lemma_hits_window(f, lo, hi, lo, c);
        assert(code_hits(trim(f), 0, c).map_values(|p: int| p + lo).len() == code_hits(trim(f), 0, c).len());
        lemma_hits_below_tail(f, lo, c, hi);
        lemma_ws_prefix_reaches(f, 0, lo);
        lemma_hits_split(f, 0, c, lo);
        lemma_ws_prefix_no_hits(f, 0, c, lo);
    } else {
        assert(trim(f).len() == 0);
        assert(code_hits(trim(f), 0, c) =~= Seq::<int>::empty());
        assert forall|k: int| 0 <= k < f.len() implies f[k] != c by {
            if k < a {
            } else {
                assert(k >= b);
            }
        }
        lemma_no_char_no_hits(f, 0, c);
    }
}

/// Whitespace opens no literal and no comment, so the scanner walks over it
/// one character at a time.
proof fn lemma_ws_prefix_reaches(f: Seq<char>, i: int, lo: int)
    requires
        0 <= i <= lo <= f.len(),
        forall|k: int| i <= k < lo ==> is_ws(#[trigger] f[k]),
    ensures
        reaches(f, i, lo),
    decreases lo - i,
{
    if i < lo {
        assert(is_ws(f[i]));
        assert(step(f, i) == i + 1);
        lemma_ws_prefix_reaches(f, i + 1, lo);
    }
}

proof fn lemma_ws_prefix_no_hits(f: Seq<char>, i: int, c: char, lo: int)
    requires
        0 <= i <= lo <= f.len(),
        forall|k: int| i <= k < lo ==> is_ws(#[trigger] f[k]),
        !is_ws(c),
    ensures
        hits_below(f, i, c, lo).len() == 0,
    decreases lo - i,
{
    if i < lo {
        assert(is_ws(f[i]));
        assert(step(f, i) == i + 1);
        lemma_ws_prefix_no_hits(f, i + 1, c, lo);
    }
}

/// The code hits of `c` in all the statements together.
pub open spec fn total_hits(st: Seq<Seq<char>>, c: char) -> nat
    decreases st.len(),
{
    if st.len() == 0 {
        0
    } else {
        code_hits(st[0], 0, c).len() + total_hits(st.drop_first(), c)
    }
}

proof fn lemma_total_hits_front(x: Seq<Seq<char>>, rest: Seq<Seq<char>>, c: char)
    requires
        x.len() <= 1,
    ensures
        total_hits(x + rest, c) == total_hits(x, c) + total_hits(rest, c),
{
    if x.len() == 0 {
        assert(x + rest =~= rest);
    } else {
        assert((x + rest)[0] == x[0]);
        assert((x + rest).drop_first() =~= rest);
        assert(x.drop_first() =~= Seq::<Seq<char>>::empty());
        assert(total_hits(x.drop_first(), c) == 0);
        assert(total_hits(x, c) == code_hits(x[0], 0, c).len() + total_hits(x.drop_first(), c));
        assert(total_hits(x + rest, c) == code_hits((x + rest)[0], 0, c).len() + total_hits((x + rest).drop_first(), c));
    }
}

/// One fragment `s[p..e]` that ends where the scan of the whole input stops
/// (a code `;` or the end): its statement, if kept, has as many `?` hits as
/// the scan finds there, and no `;` hit.
proof fn lemma_fragment_hits(s: Seq<char>, p: int, e: int)
    requires
        0 <= p <= e <= s.len(),
        hits_below(s, p, ';', e).len() == 0,
    ensures
        total_hits(kept_statement(s.subrange(p, e)), '?') == hits_below(s, p, '?', e).len(),
        forall|k: int|
            0 <= k < kept_statement(s.subrange(p, e)).len() ==> code_hits(
                #[trigger] kept_statement(s.subrange(p, e))[k],
                0,
                ';',
            ).len() == 0,
{
    let f = s.subrange(p, e);
    lemma_hits_window(s, p, e, p, '?');
    lemma_hits_window(s, p, e, p, ';');
    assert(code_hits(f, 0, '?').map_values(|x: int| x + p).len() == code_hits(f, 0, '?').len());
    assert(code_hits(f, 0, ';').map_values(|x: int| x + p).len() == code_hits(f, 0, ';').len());
    lemma_trim_keeps_hits(f, '?');
    lemma_trim_keeps_hits(f, ';');
    let t = trim(f);
    let kept = kept_statement(f);
    if has_code_from(t, 0) {
        assert(kept == seq![t]);
        assert(kept.drop_first() =~= Seq::<Seq<char>>::empty());
        assert(kept[0] == t);
        assert(total_hits(kept.drop_first(), '?') == 0);
        assert(total_hits(kept, '?') == code_hits(kept[0], 0, '?').len() + total_hits(kept.drop_first(), '?'));
    } else {
        lemma_no_code_no_hits(t, 0, '?');
        assert(kept =~= Seq::<Seq<char>>::empty());
        assert(total_hits(kept, '?') == 0);
    }
}

proof fn lemma_statement_hits(s: Seq<char>, p: int)
    requires
        0 <= p <= s.len(),
    ensures
        total_hits(statements_from(s, p, code_hits(s, p, ';')), '?') == code_hits(s, p, '?').len(),
        forall|k: int|
            0 <= k < statements_from(s, p, code_hits(s, p, ';')).len() ==> code_hits(
                #[trigger] statements_from(s, p, code_hits(s, p, ';'))[k],
                0,
                ';',
            ).len() == 0,
    decreases s.len() - p,
{
    let bs = code_hits(s, p, ';');
    let st = statements_from(s, p, bs);
    if bs.len() == 0 {
        lemma_hits_below_end(s, p, '?');
        lemma_hits_below_end(s, p, ';');
        lemma_fragment_hits(s, p, s.len() as int);
        assert(st == kept_statement(s.subrange(p, s.len() as int)));
    } else {
        lemma_first_hit(s, p, ';');
        let h = bs[0];
        let here = kept_statement(s.subrange(p, h));
        lemma_fragment_hits(s, p, h);
        lemma_hits_split(s, p, '?', h);
        assert(code_hits(s, h, '?') == code_hits(s, h + 1, '?'));
        lemma_statement_hits(s, h + 1);
        let rest_bs = code_hits(s, h + 1, ';');
        assert(bs.drop_first() =~= rest_bs);
        let rest = statements_from(s, h + 1, rest_bs);
        assert(st == here + rest);
        lemma_total_hits_front(here, rest, '?');
        assert forall|k: int| 0 <= k < st.len() implies code_hits(#[trigger] st[k], 0, ';').len() == 0 by {
            if k < here.len() {
                assert(st[k] == here[k]);
            } else {
                assert(st[k] == rest[k - here.len()]);
            }
        }
    }
}

/// Splitting a script neither makes nor loses a placeholder: the statements'
/// placeholder counts add up to the script's. And no statement holds a `;`
/// in code position, scanned from its own start.
pub proof fn lemma_split_keeps_placeholders(s: Seq<char>)
    ensures
        total_hits(split_spec(s), '?') == placeholder_count(s),
        forall|k: int| 0 <= k < split_spec(s).len() ==> code_hits(#[trigger] split_spec(s)[k], 0, ';').len() == 0,
{
    lemma_statement_hits(s, 0);
}

/// Whether `v` holds a code character that is not ASCII whitespace.
fn has_code(v: &Vec<char>) -> (b: bool)
    ensures
        b == has_code_from(v@, 0),
{
    let n = v.len();
    let mut i: usize = 0;
    while i < n
        invariant
            n == v@.len(),
            i <= n,
            has_code_from(v@, i as int) == has_code_from(v@, 0),
        decreases n - i,
    {
        let (next, code) = scan_step(v, i);
        proof { lemma_step_bounds(v@, i as int); }
        if code && !(v[i] == ' ' || v[i] == '\t' || v[i] == '\n' || v[i] == '\x0C' || v[i] == '\r') {
            return true;
        }
        i = next;
    }
    false
}

/// Adds the fragment `s[lo..hi]` to `out` if it carries SQL.
fn push_statement(out: &mut Vec<String>, s: &Vec<char>, lo: usize, hi: usize)
    requires
        lo <= hi <= s@.len(),
    ensures
        final(out).deep_view() == old(out).deep_view() + kept_statement(s@.subrange(lo as int, hi as int)),
{
    let fragment = slice_chars(s, lo, hi);
    let trimmed = trim_chars(&fragment);
    if trimmed.len() == 0 {
        assert(!has_code_from(trimmed@, 0));
        assert(out.deep_view() =~= old(out).deep_view() + Seq::<Seq<char>>::empty());
        return;
    }
    if has_code(&trimmed) {
        let st = string_of(&trimmed);
        out.push(st);
        assert(out.deep_view() =~= old(out).deep_view() + seq![trimmed@]);
    } else {
        assert(out.deep_view() =~= old(out).deep_view() + Seq::<Seq<char>>::empty());
    }
}

/// Splits a script into statements on `;` in code position.
///
/// Empty fragments (a trailing semicolon, a comment-only line, blank space)
/// are dropped, so the result holds only statements worth sending.
pub fn split_statements(script: &str) -> (r: Vec<String>)
    ensures
        r.deep_view() == split_spec(script@),
{
    let s = chars_of(script);
    let n = s.len();
    let mut boundaries: Vec<usize> = Vec::new();
    let mut i: usize = 0;
    let ghost all = code_hits(s@, 0, ';');
    while i < n
        invariant
            n == s@.len(),
            i <= n,
            all == code_hits(s@, 0, ';'),
            boundaries@.map_values(|b: usize| b as int) + code_hits(s@, i as int, ';') == all,
        decreases n - i,
    {
        let (next, code) = scan_step(&s, i);
        proof { lemma_step_bounds(s@, i as int); }
        if code && s[i] == ';' {
            let ghost before = boundaries@;
            boundaries.push(i);
            proof {
                assert(boundaries@.map_values(|b: usize| b as int) =~= before.map_values(|b: usize| b as int).push(i as int));
                assert(code_hits(s@, i as int, ';') == seq![i as int] + code_hits(s@, next as int, ';'));
                assert(boundaries@.map_values(|b: usize| b as int) + code_hits(s@, next as int, ';')
                    =~= before.map_values(|b: usize| b as int) + code_hits(s@, i as int, ';'));
            }
        }
        i = next;
    }
    let ghost bs = boundaries@.map_values(|b: usize| b as int);
    proof {
        assert(bs =~= all);
        lemma_code_hits_sorted(s@, 0, ';');
    }
    let mut out: Vec<String> = Vec::new();
    let mut start: usize = 0;
    let mut k: usize = 0;
    proof {
        assert(bs.skip(0) =~= bs);
        assert(out.deep_view() =~= Seq::<Seq<char>>::empty());
        assert(out.deep_view() + statements_from(s@, 0, bs) =~= statements_from(s@, 0, bs));
    }
    while k < boundaries.len()
        invariant
            n == s@.len(),
            bs == boundaries@.map_values(|b: usize| b as int),
            bs == code_hits(s@, 0, ';'),
            k <= bs.len(),
            start <= n,
            k > 0 ==> start == bs[k - 1] + 1,
            k == 0 ==> start == 0,
            forall|a: int| 0 <= a < bs.len() ==> 0 <= #[trigger] bs[a] < n,
            forall|a: int, b: int| 0 <= a < b < bs.len() ==> bs[a] < bs[b],
            out.deep_view() + statements_from(s@, start as int, bs.skip(k as int)) == split_spec(s@),
        decreases bs.len() - k,
    {
        let end = boundaries[k];
        proof {
            if k > 0 {
                assert(bs[k - 1] < bs[k as int]);
            }
            assert(bs.skip(k as int)[0] == end);
            assert(bs.skip(k as int).drop_first() =~= bs.skip(k + 1));
        }
        let ghost before = out.deep_view();
        push_statement(&mut out, &s, start, end);
        proof {
            assert(out.deep_view() + statements_from(s@, end + 1, bs.skip(k + 1))
                =~= before + statements_from(s@, start as int, bs.skip(k as int)));
        }
        start = end + 1;
        k = k + 1;
    }
    let ghost before = out.deep_view();
    push_statement(&mut out, &s, start, n);
    proof {
        assert(bs.skip(k as int).len() == 0);
        assert(out.deep_view() =~= before + statements_from(s@, start as int, bs.skip(k as int)));
    }
    out
}

} // verus!
