//! Escaping of values and identifiers pasted into SQL text, and the choice of
//! escaping rules for a connection.
use vstd::prelude::*;

use crate::error::{ErrorState, MysqlError};
use crate::idmap::{advance_handle, next_handle, IdMap};
use crate::cache::{ResultSet, ResultSetView};
use crate::num::{nat_text, u64_text};
use crate::options::MysqlOptions;
use crate::sql::{quote_close, step};
use crate::text::{
    ascii_ci_eq, chars_of, eq_ignore_ascii_case, lemma_next_of, next_of, push_char, slice_chars,
    join_with, str_eq, string_of, trim, trim_chars,
};

verus! {

/// How string literals must be escaped on a given connection.
///
/// Under `sql_mode=NO_BACKSLASH_ESCAPES` the backslash stops being an escape
/// character, so `\'` no longer escapes the quote; the only valid escape is
/// doubling it. Picking the wrong mode reopens SQL injection in either
/// direction, which is why the mode is detected per connection.
#[derive(Clone, Copy, PartialEq, Eq, Debug, Structural)]
pub enum EscapeMode {
    /// Default MySQL: backslash escapes are honoured.
    Backslash,
    /// `sql_mode` contains `NO_BACKSLASH_ESCAPES`.
    NoBackslashEscapes,
}

/// An error reported by the server or the driver for one query.
#[derive(Debug)]
pub struct QueryError {
    pub code: u16,
    pub message: String,
}

/// What one character becomes inside a single-quoted literal when backslash
/// escapes are honoured (the rules of `mysql_real_escape_string`).
pub open spec fn escape_char(c: char) -> Seq<char> {
    if c == '\0' {
        seq!['\\', '0']
    } else if c == '\n' {
        seq!['\\', 'n']
    } else if c == '\r' {
        seq!['\\', 'r']
    } else if c == '\\' {
        seq!['\\', '\\']
    } else if c == '\'' {
        seq!['\\', '\'']
    } else if c == '"' {
        seq!['\\', '"']
    } else if c == '\x1a' {
        seq!['\\', 'Z']
    } else {
        seq![c]
    }
}

/// Backslash escaping of a whole string.
pub open spec fn escape_backslash(s: Seq<char>) -> Seq<char>
    decreases s.len(),
{
    if s.len() == 0 {
        Seq::empty()
    } else {
        escape_char(s[0]) + escape_backslash(s.drop_first())
    }
}

/// Quote doubling: every `'` becomes `''`, everything else is literal.
pub open spec fn double_quotes(s: Seq<char>) -> Seq<char>
    decreases s.len(),
{
    if s.len() == 0 {
        Seq::empty()
    } else {
        (if s[0] == '\'' {
            seq!['\'', '\'']
        } else {
            seq![s[0]]
        }) + double_quotes(s.drop_first())
    }
}

pub open spec fn escape_spec(s: Seq<char>, mode: EscapeMode) -> Seq<char> {
    match mode {
        EscapeMode::Backslash => escape_backslash(s),
        EscapeMode::NoBackslashEscapes => double_quotes(s),
    }
}

/// `s` without any occurrence of `c`.
pub open spec fn without_char(s: Seq<char>, c: char) -> Seq<char>
    decreases s.len(),
{
    if s.len() == 0 {
        Seq::empty()
    } else {
        (if s[0] == c {
            Seq::empty()
        } else {
            seq![s[0]]
        }) + without_char(s.drop_first(), c)
    }
}

proof fn lemma_split_last<A>(s: Seq<A>, i: int)
    requires
        0 <= i < s.len(),
    ensures
        s.skip(i).len() > 0,
        s.skip(i)[0] == s[i],
        s.skip(i).drop_first() == s.skip(i + 1),
{
    assert(s.skip(i).drop_first() =~= s.skip(i + 1));
}

/// Escapes an identifier (table or column name) by removing backticks, so it
/// can be wrapped in backticks safely.
pub fn escape_identifier(input: &str) -> (r: String)
    ensures
        r@ == without_char(input@, '`'),
{
    let s = chars_of(input);
    let mut out = String::new();
    let mut i: usize = 0;
    assert(s@.skip(0) =~= s@);
    assert(out@ + without_char(s@, '`') =~= without_char(s@, '`'));
    while i < s.len()
        invariant
            s@ == input@,
            i <= s@.len(),
            out@ + without_char(s@.skip(i as int), '`') == without_char(s@, '`'),
        decreases s@.len() - i,
    {
        proof { lemma_split_last(s@, i as int); }
        let c = s[i];
        if c != '`' {
            push_char(&mut out, c);
        }
        proof {
            let t = s@.skip(i as int);
            assert(without_char(t, '`') == (if t[0] == '`' { Seq::empty() } else { seq![t[0]] })
                + without_char(t.drop_first(), '`'));
        }
        assert(out@ + without_char(s@.skip(i + 1), '`') =~= without_char(s@, '`'));
        i = i + 1;
    }
    proof {
        assert(s@.skip(i as int) =~= Seq::<char>::empty());
        assert(out@ =~= out@ + without_char(s@.skip(i as int), '`'));
    }
    out
}

fn push_escaped(out: &mut String, c: char, mode: EscapeMode)
    ensures
        final(out)@ == old(out)@ + (match mode {
            EscapeMode::Backslash => escape_char(c),
            EscapeMode::NoBackslashEscapes => if c == '\'' {
                seq!['\'', '\'']
            } else {
                seq![c]
            },
        }),
{
    match mode {
        EscapeMode::NoBackslashEscapes => {
            if c == '\'' {
                push_char(out, '\'');
                push_char(out, '\'');
            } else {
                push_char(out, c);
            }
        },
        EscapeMode::Backslash => {
            let esc = if c == '\0' {
                Some('0')
            } else if c == '\n' {
                Some('n')
            } else if c == '\r' {
                Some('r')
            } else if c == '\\' {
                Some('\\')
            } else if c == '\'' {
                Some('\'')
            } else if c == '"' {
                Some('"')
            } else if c == '\x1a' {
                Some('Z')
            } else {
                None
            };
            match esc {
                Some(e) => {
                    push_char(out, '\\');
                    push_char(out, e);
                },
                None => push_char(out, c),
            }
        },
    }
    assert(out@ =~= old(out)@ + (match mode {
        EscapeMode::Backslash => escape_char(c),
        EscapeMode::NoBackslashEscapes => if c == '\'' {
            seq!['\'', '\'']
        } else {
            seq![c]
        },
    }));
}

/// Escapes a string for a single-quoted SQL literal: backslash escapes by
/// default (as `mysql_real_escape_string`), quote doubling under
/// `NO_BACKSLASH_ESCAPES`. The result is only safe inside single quotes.
pub fn escape_string(input: &str, mode: EscapeMode) -> (r: String)
    ensures
        r@ == escape_spec(input@, mode),
{
    let s = chars_of(input);
    let mut out = String::new();
    let mut i: usize = 0;
    assert(s@.skip(0) =~= s@);
    assert(out@ + escape_spec(s@, mode) =~= escape_spec(s@, mode));
    while i < s.len()
        invariant
            s@ == input@,
            i <= s@.len(),
            out@ + escape_spec(s@.skip(i as int), mode) == escape_spec(s@, mode),
        decreases s@.len() - i,
    {
        proof { lemma_split_last(s@, i as int); }
        let ghost before = out@;
        push_escaped(&mut out, s[i], mode);
        proof {
            let t = s@.skip(i as int);
            assert(escape_backslash(t) == escape_char(t[0]) + escape_backslash(t.drop_first()));
            assert(double_quotes(t) == (if t[0] == '\'' { seq!['\'', '\''] } else { seq![t[0]] })
                + double_quotes(t.drop_first()));
        }
        assert(out@ + escape_spec(s@.skip(i + 1), mode) =~= before + escape_spec(s@.skip(i as int), mode));
        i = i + 1;
    }
    proof {
        assert(s@.skip(i as int) =~= Seq::<char>::empty());
        assert(out@ =~= out@ + escape_spec(s@.skip(i as int), mode));
    }
    out
}

proof fn lemma_escaped_run_closes(t: Seq<char>, s: Seq<char>, j: int)
    requires
        0 <= j,
        j + escape_backslash(s).len() < t.len(),
        t.subrange(j, j + escape_backslash(s).len()) == escape_backslash(s),
        t[j + escape_backslash(s).len()] == '\'',
        j + escape_backslash(s).len() + 1 >= t.len() || t[j + escape_backslash(s).len() + 1] != '\'',
    ensures
        quote_close(t, '\'', j) == j + escape_backslash(s).len(),
    decreases s.len(),
{
    let e = escape_backslash(s);
    if s.len() == 0 {
    } else {
        let head = escape_char(s[0]);
        let tail = escape_backslash(s.drop_first());
        assert(e == head + tail);
        assert(t[j] == e[0]);
        if head.len() == 2 {
            assert(t[j] == '\\');
            assert(t.subrange(j + 2, j + 2 + tail.len()) =~= tail) by {
                assert forall|k: int| 0 <= k < tail.len() implies t.subrange(j + 2, j + 2 + tail.len())[k] == tail[k] by {
                    assert(t.subrange(j, j + e.len())[k + 2] == e[k + 2]);
                }
            }
            lemma_escaped_run_closes(t, s.drop_first(), j + 2);
        } else {
            assert(t[j] == s[0]);
            assert(t.subrange(j + 1, j + 1 + tail.len()) =~= tail) by {
                assert forall|k: int| 0 <= k < tail.len() implies t.subrange(j + 1, j + 1 + tail.len())[k] == tail[k] by {
                    assert(t.subrange(j, j + e.len())[k + 1] == e[k + 1]);
                }
            }
            lemma_escaped_run_closes(t, s.drop_first(), j + 1);
        }
    }
}

/// Injection safety of backslash escaping: a value escaped for a connection
/// that honours backslash escapes and wrapped in single quotes is scanned as
/// exactly one string literal, whatever it holds. The SQL after it (when it
/// does not itself start with a quote, which would continue the literal) is
/// scanned from its own start, so the value cannot end the literal early,
/// hide a placeholder or end the statement.
pub proof fn lemma_escaped_literal_is_one_token(s: Seq<char>, rest: Seq<char>)
    requires
        rest.len() == 0 || rest[0] != '\'',
    ensures
        ({
            let t = seq!['\''] + escape_backslash(s) + seq!['\''] + rest;
            step(t, 0) == t.len() - rest.len()
        }),
{
    let e = escape_backslash(s);
    let t = seq!['\''] + e + seq!['\''] + rest;
    assert(t.subrange(1, 1 + e.len() as int) =~= e);
    assert(t[1 + e.len() as int] == '\'');
    if rest.len() > 0 {
        assert(t[2 + e.len() as int] == rest[0]);
    }
    lemma_escaped_run_closes(t, s, 1);
}

proof fn lemma_identifier_run_closes(t: Seq<char>, w: Seq<char>, j: int)
    requires
        0 <= j,
        j + w.len() < t.len(),
        t.subrange(j, j + w.len()) == w,
        !w.contains('`'),
        t[j + w.len()] == '`',
        j + w.len() + 1 >= t.len() || t[j + w.len() + 1] != '`',
    ensures
        quote_close(t, '`', j) == j + w.len(),
    decreases w.len(),
{
    if w.len() > 0 {
        assert(t[j] == w[0]);
        assert(w[0] != '`');
        assert(!w.drop_first().contains('`')) by {
            if w.drop_first().contains('`') {
                let k = choose|k: int| 0 <= k < w.drop_first().len() && w.drop_first()[k] == '`';
                assert(w[k + 1] == '`');
            }
        }
        assert(t.subrange(j + 1, j + 1 + w.drop_first().len()) =~= w.drop_first()) by {
            assert forall|k: int| 0 <= k < w.drop_first().len() implies t.subrange(j + 1, j + w.len())[k] == w.drop_first()[k] by {
                assert(t.subrange(j, j + w.len())[k + 1] == w[k + 1]);
            }
        }
        lemma_identifier_run_closes(t, w.drop_first(), j + 1);
    }
}

/// What `escape_identifier` returns never holds a backtick.
pub proof fn lemma_without_char_absent(s: Seq<char>, c: char)
    ensures
        !without_char(s, c).contains(c),
    decreases s.len(),
{
    if s.len() > 0 {
        lemma_without_char_absent(s.drop_first(), c);
        let head: Seq<char> = if s[0] == c { Seq::empty() } else { seq![s[0]] };
        let w = without_char(s, c);
        assert(w == head + without_char(s.drop_first(), c));
        if w.contains(c) {
            let k = choose|k: int| 0 <= k < w.len() && w[k] == c;
            if k >= head.len() {
                assert(without_char(s.drop_first(), c)[k - head.len()] == c);
            }
        }
    }
}

/// Injection safety of identifier escaping: an escaped name wrapped in
/// backticks is scanned as exactly one quoted identifier.
pub proof fn lemma_escaped_identifier_is_one_token(s: Seq<char>, rest: Seq<char>)
    requires
        rest.len() == 0 || rest[0] != '`',
    ensures
        ({
            let t = seq!['`'] + without_char(s, '`') + seq!['`'] + rest;
            step(t, 0) == t.len() - rest.len()
        }),
{
    let w = without_char(s, '`');
    lemma_without_char_absent(s, '`');
    let t = seq!['`'] + w + seq!['`'] + rest;
    assert(t.subrange(1, 1 + w.len() as int) =~= w);
    assert(t[1 + w.len() as int] == '`');
    if rest.len() > 0 {
        assert(t[2 + w.len() as int] == rest[0]);
    }
    lemma_identifier_run_closes(t, w, 1);
}

/// Occurrences of `c` in `s`.
pub open spec fn count_char(s: Seq<char>, c: char) -> nat
    decreases s.len(),
{
    if s.len() == 0 {
        0
    } else {
        (if s[0] == c {
            1nat
        } else {
            0nat
        }) + count_char(s.drop_first(), c)
    }
}

proof fn lemma_count_char_concat(a: Seq<char>, b: Seq<char>, c: char)
    ensures
        count_char(a + b, c) == count_char(a, c) + count_char(b, c),
    decreases a.len(),
{
    if a.len() == 0 {
        assert(a + b =~= b);
    } else {
        assert((a + b).drop_first() =~= a.drop_first() + b);
        lemma_count_char_concat(a.drop_first(), b, c);
    }
}

/// Under `NO_BACKSLASH_ESCAPES` every quote of the value is doubled, so the
/// escaped text holds twice as many quotes as the value: none is left
/// unpaired to end the literal.
pub proof fn lemma_doubled_quotes_pair_up(s: Seq<char>)
    ensures
        count_char(double_quotes(s), '\'') == 2 * count_char(s, '\''),
    decreases s.len(),
{
    if s.len() > 0 {
        lemma_doubled_quotes_pair_up(s.drop_first());
        let head: Seq<char> = if s[0] == '\'' { seq!['\'', '\''] } else { seq![s[0]] };
        lemma_count_char_concat(head, double_quotes(s.drop_first()), '\'');
        assert(head.drop_first().len() <= 1);
        reveal_with_fuel(count_char, 3);
        if s[0] == '\'' {
            assert(head.drop_first() =~= seq!['\'']);
            assert(head.drop_first().drop_first() =~= Seq::<char>::empty());
            assert(count_char(head, '\'') == 2);
        } else {
            assert(head.drop_first() =~= Seq::<char>::empty());
            assert(count_char(head, '\'') == 0);
        }
        assert(double_quotes(s) == head + double_quotes(s.drop_first()));
    }
}

/// Some comma-separated flag of `s`, from position `lo` on, is
/// `NO_BACKSLASH_ESCAPES` (surrounding whitespace and ASCII case ignored).
pub open spec fn has_nbe_flag_from(s: Seq<char>, lo: int) -> bool
    decreases s.len() - lo,
{
    if lo < 0 || lo > s.len() {
        false
    } else {
        proof {
            lemma_next_of(s, lo, ',', ',');
        }
        let hi = next_of(s, lo, ',', ',');
        ascii_ci_eq(trim(s.subrange(lo, hi)), "NO_BACKSLASH_ESCAPES"@) || (hi < s.len()
            && has_nbe_flag_from(s, hi + 1))
    }
}


/// `s[a..b]` is one of the comma-separated pieces of `s`: it starts at the
/// beginning or right after a comma, ends at the end or right before a comma,
/// and holds no comma.
pub open spec fn is_comma_piece(s: Seq<char>, a: int, b: int) -> bool {
    &&& 0 <= a <= b <= s.len()
    &&& (a == 0 || s[a - 1] == ',')
    &&& (b == s.len() || s[b] == ',')
    &&& forall|k: int| a <= k < b ==> s[k] != ','
}

proof fn lemma_next_comma_is_end(s: Seq<char>, j: int, b: int)
    requires
        0 <= j <= b <= s.len(),
        b == s.len() || s[b] == ',',
        forall|k: int| j <= k < b ==> s[k] != ',',
    ensures
        next_of(s, j, ',', ',') == b,
    decreases b - j,
{
    if j < b {
        lemma_next_comma_is_end(s, j + 1, b);
    }
}

proof fn lemma_nbe_pieces_from(s: Seq<char>, lo: int)
    requires
        0 <= lo <= s.len(),
        lo == 0 || s[lo - 1] == ',',
    ensures
        has_nbe_flag_from(s, lo) <==> exists|a: int, b: int|
            #[trigger] is_comma_piece(s, a, b) && a >= lo && ascii_ci_eq(
                trim(s.subrange(a, b)),
                "NO_BACKSLASH_ESCAPES"@,
            ),
    decreases s.len() - lo,
{
    lemma_next_of(s, lo, ',', ',');
    let hi = next_of(s, lo, ',', ',');
    assert(is_comma_piece(s, lo, hi));
    if hi < s.len() {
        lemma_nbe_pieces_from(s, hi + 1);
    }
    if exists|a: int, b: int|
        #[trigger] is_comma_piece(s, a, b) && a >= lo && ascii_ci_eq(
            trim(s.subrange(a, b)),
            "NO_BACKSLASH_ESCAPES"@,
        ) {
        let (a, b) = choose|a: int, b: int|
            #[trigger] is_comma_piece(s, a, b) && a >= lo && ascii_ci_eq(
                trim(s.subrange(a, b)),
                "NO_BACKSLASH_ESCAPES"@,
            );
        if a == lo {
            lemma_next_comma_is_end(s, lo, b);
        } else {
            assert(s[a - 1] == ',');
            assert(hi <= a - 1);
            assert(hi < s.len());
        }
    }
}

/// The escaping follows `NO_BACKSLASH_ESCAPES` in `sql_mode` wherever it
/// stands: a `sql_mode` has the flag exactly when one of its comma-separated
/// pieces, trimmed, is `NO_BACKSLASH_ESCAPES` up to ASCII case, the first,
/// a middle, the last or the only one alike.
pub proof fn lemma_flag_found_in_any_piece(s: Seq<char>)
    ensures
        has_nbe_flag_from(s, 0) <==> exists|a: int, b: int|
            #[trigger] is_comma_piece(s, a, b) && ascii_ci_eq(trim(s.subrange(a, b)), "NO_BACKSLASH_ESCAPES"@),
{
    lemma_nbe_pieces_from(s, 0);
}

/// The escaping a connection needs, from the `sql_mode` read on it. When
/// `sql_mode` could not be read the server default (backslash escapes) is
/// assumed; a wrong guess there is loud (broken queries), not silent.
pub fn detect_escape_mode(sql_mode: Option<&str>) -> (m: EscapeMode)
    ensures
        m == (match sql_mode {
            Some(v) => if has_nbe_flag_from(v@, 0) {
                EscapeMode::NoBackslashEscapes
            } else {
                EscapeMode::Backslash
            },
            None => EscapeMode::Backslash,
        }),
{
    let Some(v) = sql_mode else {
        return EscapeMode::Backslash;
    };
    let s = chars_of(v);
    let n = s.len();
    let mut lo: usize = 0;
    loop
        invariant
            n == s@.len(),
            s@ == v@,
            sql_mode == Some(v),
            lo <= n,
            has_nbe_flag_from(s@, lo as int) == has_nbe_flag_from(s@, 0),
        decreases n - lo,
    {
        let mut hi = lo;
        while hi < n && s[hi] != ','
            invariant
                lo <= hi <= n == s@.len(),
                s@ == v@,
                has_nbe_flag_from(s@, lo as int) == has_nbe_flag_from(s@, 0),
                next_of(s@, hi as int, ',', ',') == next_of(s@, lo as int, ',', ','),
            decreases n - hi,
        {
            hi = hi + 1;
        }
        let piece = string_of(&trim_chars(&slice_chars(&s, lo, hi)));
        if eq_ignore_ascii_case(piece.as_str(), "NO_BACKSLASH_ESCAPES") {
            return EscapeMode::NoBackslashEscapes;
        }
        if hi >= n {
            return EscapeMode::Backslash;
        }
        lo = hi + 1;
    }
}

/// The statement that switches a connection's character set, with the name
/// escaped for the connection.
pub fn set_names_query(charset: &str, mode: EscapeMode) -> (q: String)
    ensures
        q@ == "SET NAMES '"@ + escape_spec(charset@, mode) + "'"@,
{
    let mut q = String::from_str("SET NAMES '");
    let escaped = escape_string(charset, mode);
    q.append(escaped.as_str());
    q.append("'");
    q
}


/// A pool of connections to one server, as the driver keeps it. Only carried
/// here; every use of it is I/O and happens outside this library.
#[verifier::external_type_specification]
#[verifier::external_body]
pub struct ExPool(mysql::Pool);

/// `mysql::Pool::clone`: another handle on the same pool. `Pool` derives
/// `Clone` over a single `Arc` of the shared pool state, so the clone is the
/// same pool.
#[verifier::external_body]
fn clone_pool(pool: &mysql::Pool) -> (r: mysql::Pool)
    ensures
        r == *pool,
{
    pool.clone()
}

/// Where a connection goes: a Unix socket (a host that starts with `/`) or a
/// TCP host and port.
pub enum Endpoint {
    Socket(String),
    Tcp { host: String, port: u16 },
}

/// A client certificate given without its other half, which is reported and
/// ignored.
#[derive(Clone, Copy, Debug, PartialEq, Eq, Structural)]
pub enum IdentityWarning {
    CertWithoutKey,
    KeyWithoutCert,
}

/// TLS settings for a connection.
pub struct TlsPlan {
    /// CA file the server is verified against (the driver's built-in roots
    /// otherwise).
    pub root_cert: Option<String>,
    /// Client certificate and key, for mutual TLS.
    pub client_identity: Option<(String, String)>,
    pub identity_warning: Option<IdentityWarning>,
    /// Certificate and host name are not checked.
    pub accept_invalid: bool,
}

/// The fewest connections a pool keeps open when a pool size is set: the
/// driver's own default, lowered to the size when that is smaller.
pub const POOL_MIN: u32 = 10;

/// Everything the driver is told when a pool is opened.
pub struct ConnectPlan {
    pub endpoint: Endpoint,
    pub user: String,
    pub password: String,
    pub database: String,
    pub connect_timeout_secs: Option<u64>,
    pub tls: Option<TlsPlan>,
    /// Statements run on every new connection.
    pub init: Vec<String>,
    /// The fewest and most connections the pool keeps, when the options
    /// set a pool size; the driver's defaults otherwise.
    pub pool_limits: Option<(usize, usize)>,
}

fn copy_opt(s: &Option<String>) -> (r: Option<String>)
    ensures
        r is Some == s is Some,
        s is Some ==> r->0@ == s->0@,
{
    match s {
        Some(v) => Some(String::from_str(v.as_str())),
        None => None,
    }
}

/// The connection settings for `host`, the credentials and `options`.
pub fn plan_connection(
    host: &str,
    user: &str,
    password: &str,
    database: &str,
    options: &MysqlOptions,
) -> (p: ConnectPlan)
    ensures
        host@.len() > 0 && host@[0] == '/' ==> (p.endpoint matches Endpoint::Socket(path)
            && path@ == host@),
        !(host@.len() > 0 && host@[0] == '/') ==> (p.endpoint matches Endpoint::Tcp { host: h, port }
            && h@ == host@ && port == options.port),
        p.user@ == user@,
        p.password@ == password@,
        p.database@ == database@,
        p.connect_timeout_secs == (match options.connect_timeout {
            Some(t) => Some(t as u64),
            None => None::<u64>,
        }),
        options.ssl == p.tls is Some,
        options.ssl ==> ({
            let tls = p.tls->0;
            &&& tls.root_cert is Some == options.ssl_ca is Some
            &&& options.ssl_ca is Some ==> tls.root_cert->0@ == options.ssl_ca->0@
            &&& tls.client_identity is Some == (options.ssl_cert is Some && options.ssl_key is Some)
            &&& tls.client_identity is Some ==> {
                let pair = tls.client_identity->0;
                pair.0@ == options.ssl_cert->0@ && pair.1@ == options.ssl_key->0@
            }
            &&& tls.identity_warning == (if options.ssl_cert is Some && options.ssl_key is None {
                Some(IdentityWarning::CertWithoutKey)
            } else if options.ssl_cert is None && options.ssl_key is Some {
                Some(IdentityWarning::KeyWithoutCert)
            } else {
                None
            })
            &&& tls.accept_invalid == !options.ssl_verify_cert
        }),
        p.init@.len() == 1,
        p.init@[0]@ == "SET NAMES utf8mb4"@,
        p.pool_limits == (match options.pool_size {
            Some(max) => Some((if max < POOL_MIN { max as usize } else { POOL_MIN as usize }, max as usize)),
            None => None::<(usize, usize)>,
        }),
{
    let hv = chars_of(host);
    let endpoint = if hv.len() > 0 && hv[0] == '/' {
        Endpoint::Socket(String::from_str(host))
    } else {
        Endpoint::Tcp { host: String::from_str(host), port: options.port }
    };
    let connect_timeout_secs = match options.connect_timeout {
        Some(t) => Some(t as u64),
        None => None,
    };
    let tls = if options.ssl {
        let client_identity = match (&options.ssl_cert, &options.ssl_key) {
            (Some(c), Some(k)) => Some((String::from_str(c.as_str()), String::from_str(k.as_str()))),
            _ => None,
        };
        let identity_warning = match (&options.ssl_cert, &options.ssl_key) {
            (Some(_), None) => Some(IdentityWarning::CertWithoutKey),
            (None, Some(_)) => Some(IdentityWarning::KeyWithoutCert),
            _ => None,
        };
        Some(
            TlsPlan {
                root_cert: copy_opt(&options.ssl_ca),
                client_identity,
                identity_warning,
                accept_invalid: !options.ssl_verify_cert,
            },
        )
    } else {
        None
    };
    let mut init: Vec<String> = Vec::new();
    init.push(String::from_str("SET NAMES utf8mb4"));
    let pool_limits = match options.pool_size {
        Some(max) => Some((if max < POOL_MIN { max as usize } else { POOL_MIN as usize }, max as usize)),
        None => None,
    };
    ConnectPlan {
        endpoint,
        user: String::from_str(user),
        password: String::from_str(password),
        database: String::from_str(database),
        connect_timeout_secs,
        tls,
        init,
        pool_limits,
    }
}

/// Which step of opening a connection failed.
#[derive(Clone, Copy, Debug, PartialEq, Eq, Structural)]
pub enum ConnectStage {
    /// The pool could not be created.
    Pool,
    /// The pool was created but no connection could be taken from it.
    FirstConnection,
}

/// The start of the message recorded for a failure at `stage`.
pub open spec fn failure_prefix(stage: ConnectStage) -> Seq<char> {
    match stage {
        ConnectStage::Pool => "Pool creation failed: "@,
        ConnectStage::FirstConnection => "Connection failed: "@,
    }
}

struct ConnectionEntry {
    pool: mysql::Pool,
    last_error: ErrorState,
    auto_reconnect: bool,
    escape_mode: EscapeMode,
}

/// What contracts see of a connection: its last error, whether a dropped
/// connection is retried, and its escaping rules.
pub struct ConnView {
    /// The connection's pool.
    pub pool: mysql::Pool,
    pub last_error: ErrorState,
    pub auto_reconnect: bool,
    pub escape_mode: EscapeMode,
}

/// `e` says that nothing went wrong.
pub open spec fn is_ok_state(e: ErrorState) -> bool {
    e.code == MysqlError::NoError && e.message@.len() == 0
}

/// The open connections by handle, and the error of the last failed connect.
pub struct ConnectionManager {
    connections: IdMap<ConnectionEntry>,
    next_id: i32,
    pub global_error: ErrorState,
}

impl ConnectionManager {
    pub closed spec fn conns(&self) -> Map<i32, ConnView> {
        self.connections@.map_values(
            |e: ConnectionEntry|
                ConnView {
                    pool: e.pool,
                    last_error: e.last_error,
                    auto_reconnect: e.auto_reconnect,
                    escape_mode: e.escape_mode,
                },
        )
    }

    /// The error reported for handle 0 and for unknown handles.
    pub closed spec fn global(&self) -> ErrorState {
        self.global_error
    }

    /// The handle the next connection gets.
    pub closed spec fn next(&self) -> i32 {
        self.next_id
    }

    pub closed spec fn wf(&self) -> bool {
        self.connections.wf() && self.next_id >= 1
    }

    pub fn new() -> (m: Self)
        ensures
            m.wf(),
            m.conns() == Map::<i32, ConnView>::empty(),
            is_ok_state(m.global()),
            m.next() == 1,
    {
        let m = ConnectionManager {
            connections: IdMap::new(),
            next_id: 1,
            global_error: ErrorState::ok(),
        };
        assert(m.conns() =~= Map::<i32, ConnView>::empty());
        m
    }

    /// Records a pool that was opened and checked, and returns its handle.
    /// The global error is cleared.
    pub fn register(&mut self, pool: mysql::Pool, auto_reconnect: bool, escape_mode: EscapeMode) -> (id: i32)
        requires
            old(self).wf(),
        ensures
            final(self).wf(),
            id == old(self).next(),
            id >= 1,
            final(self).next() == next_handle(old(self).next()),
            is_ok_state(final(self).global()),
            final(self).conns().dom() == old(self).conns().dom().insert(id),
            forall|k: i32| #[trigger] final(self).conns().contains_key(k) && k != id
                ==> final(self).conns()[k] == old(self).conns()[k],
            is_ok_state(final(self).conns()[id].last_error),
            final(self).conns()[id].auto_reconnect == auto_reconnect,
            final(self).conns()[id].escape_mode == escape_mode,
            final(self).conns()[id].pool == pool,
    {
        let id = self.next_id;
        self.global_error = ErrorState::ok();
        self.next_id = advance_handle(self.next_id);
        self.connections.insert(
            id,
            ConnectionEntry { pool, last_error: ErrorState::ok(), auto_reconnect, escape_mode },
        );
        proof {
            assert(self.conns().dom() =~= old(self).conns().dom().insert(id));
        }
        id
    }

    /// Replaces the global error; the open connections are untouched.
    pub fn set_global_error(&mut self, error: ErrorState)
        requires
            old(self).wf(),
        ensures
            final(self).wf(),
            final(self).next() == old(self).next(),
            final(self).conns() == old(self).conns(),
            final(self).global() == error,
    {
        self.global_error = error;
    }

    /// Records why a connect failed; the open connections are untouched.
    pub fn record_connect_failure(&mut self, stage: ConnectStage, detail: &str)
        requires
            old(self).wf(),
        ensures
            final(self).wf(),
            final(self).next() == old(self).next(),
            final(self).conns() == old(self).conns(),
            final(self).global().code == MysqlError::ConnectionFailed,
            final(self).global().message@ == failure_prefix(stage) + detail@,
    {
        let mut m = match stage {
            ConnectStage::Pool => String::from_str("Pool creation failed: "),
            ConnectStage::FirstConnection => String::from_str("Connection failed: "),
        };
        m.append(detail);
        self.global_error = ErrorState::new(MysqlError::ConnectionFailed, m);
    }

    /// Closes a connection; `false` when the handle is unknown.
    pub fn disconnect(&mut self, id: i32) -> (ok: bool)
        requires
            old(self).wf(),
        ensures
            final(self).wf(),
            final(self).next() == old(self).next(),
            final(self).global() == old(self).global(),
            ok == old(self).conns().contains_key(id),
            final(self).conns() == old(self).conns().remove(id),
    {
        let r = self.connections.remove(id).is_some();
        proof {
            assert(self.conns() =~= old(self).conns().remove(id));
        }
        r
    }

    /// The error of a connection; handle 0, and any unknown handle, get the
    /// global one.
    pub fn get_error(&self, conn_id: i32) -> (e: &ErrorState)
        requires
            self.wf(),
        ensures
            *e == (if conn_id != 0 && self.conns().contains_key(conn_id) {
                self.conns()[conn_id].last_error
            } else {
                self.global()
            }),
    {
        if conn_id == 0 {
            return &self.global_error;
        }
        match self.connections.get(conn_id) {
            Some(entry) => &entry.last_error,
            None => &self.global_error,
        }
    }

    /// Another handle on the pool of a connection, for a worker thread.
    pub fn get_pool(&self, conn_id: i32) -> (p: Option<mysql::Pool>)
        requires
            self.wf(),
        ensures
            p is Some == self.conns().contains_key(conn_id),
            p matches Some(pool) ==> pool == self.conns()[conn_id].pool,
    {
        match self.connections.get(conn_id) {
            Some(entry) => Some(clone_pool(&entry.pool)),
            None => None,
        }
    }

    /// Whether a dropped connection is retried; `true` for unknown handles.
    pub fn get_auto_reconnect(&self, conn_id: i32) -> (b: bool)
        requires
            self.wf(),
        ensures
            b == (if self.conns().contains_key(conn_id) {
                self.conns()[conn_id].auto_reconnect
            } else {
                true
            }),
    {
        match self.connections.get(conn_id) {
            Some(entry) => entry.auto_reconnect,
            None => true,
        }
    }

    /// Sets the last error of a connection; unknown handles are ignored.
    pub fn set_error(&mut self, conn_id: i32, error: ErrorState)
        requires
            old(self).wf(),
        ensures
            final(self).wf(),
            final(self).next() == old(self).next(),
            final(self).global() == old(self).global(),
            final(self).conns() == (if old(self).conns().contains_key(conn_id) {
                old(self).conns().insert(
                    conn_id,
                    ConnView { last_error: error, ..old(self).conns()[conn_id] },
                )
            } else {
                old(self).conns()
            }),
    {
        match self.connections.get_mut(conn_id) {
            Some(entry) => {
                entry.last_error = error;
            },
            None => {},
        }
        proof {
            if old(self).conns().contains_key(conn_id) {
                assert(self.conns() =~= old(self).conns().insert(
                    conn_id,
                    ConnView { last_error: error, ..old(self).conns()[conn_id] },
                ));
            }
        }
    }

    /// Whether `conn_id` names an open connection.
    pub fn is_open(&self, conn_id: i32) -> (b: bool)
        requires
            self.wf(),
        ensures
            b == self.conns().contains_key(conn_id),
    {
        self.connections.contains_key(conn_id)
    }

    /// The escaping rules of a connection; unknown handles get the server
    /// default, backslash escaping.
    pub fn escape_mode(&self, conn_id: i32) -> (m: EscapeMode)
        requires
            self.wf(),
        ensures
            m == (if self.conns().contains_key(conn_id) {
                self.conns()[conn_id].escape_mode
            } else {
                EscapeMode::Backslash
            }),
    {
        match self.connections.get(conn_id) {
            Some(entry) => entry.escape_mode,
            None => EscapeMode::Backslash,
        }
    }
}


/// The server counters `mysql_stat` reports, in order.
pub open spec fn status_keys() -> Seq<Seq<char>> {
    seq![
        "Uptime"@,
        "Threads_connected"@,
        "Questions"@,
        "Slow_queries"@,
        "Opens"@,
        "Flush_tables"@,
        "Open_tables"@,
        "Queries_per_second_avg"@,
    ]
}

/// The value of the first row named `key`.
pub open spec fn first_value(rows: Seq<(String, String)>, key: Seq<char>) -> Option<Seq<char>>
    decreases rows.len(),
{
    if rows.len() == 0 {
        None
    } else if rows[0].0@ == key {
        Some(rows[0].1@)
    } else {
        first_value(rows.drop_first(), key)
    }
}

/// `key: value` for each of `keys` that some row names.
pub open spec fn status_parts(rows: Seq<(String, String)>, keys: Seq<Seq<char>>) -> Seq<Seq<char>>
    decreases keys.len(),
{
    if keys.len() == 0 {
        Seq::empty()
    } else {
        status_parts(rows, keys.drop_last()) + match first_value(rows, keys.last()) {
            Some(v) => seq![keys.last() + ": "@ + v],
            None => Seq::empty(),
        }
    }
}

fn find_row<'a>(rows: &'a Vec<(String, String)>, key: &str) -> (r: Option<&'a String>)
    ensures
        match r {
            Some(v) => first_value(rows@, key@) == Some(v@),
            None => first_value(rows@, key@) is None,
        },
{
    let mut i: usize = 0;
    proof {
        assert(rows@.subrange(0, rows@.len() as int) =~= rows@);
    }
    while i < rows.len()
        invariant
            i <= rows@.len(),
            first_value(rows@.subrange(i as int, rows@.len() as int), key@) == first_value(
                rows@,
                key@,
            ),
        decreases rows@.len() - i,
    {
        proof {
            assert(rows@.subrange(i as int, rows@.len() as int).drop_first() =~= rows@.subrange(
                i + 1,
                rows@.len() as int,
            ));
        }
        if str_eq(rows[i].0.as_str(), key) {
            return Some(&rows[i].1);
        }
        i = i + 1;
    }
    None
}

/// The line `mysql_stat` returns, from the rows of `SHOW GLOBAL STATUS`:
/// `name: value` for each reported counter that is present, joined by two
/// spaces.
pub fn format_status(rows: &Vec<(String, String)>) -> (s: String)
    ensures
        s@ == join_with(status_parts(rows@, status_keys()), "  "@),
{
    let keys: [&str; 8] = [
        "Uptime",
        "Threads_connected",
        "Questions",
        "Slow_queries",
        "Opens",
        "Flush_tables",
        "Open_tables",
        "Queries_per_second_avg",
    ];
    let ghost kv = status_keys();
    proof {
        assert(keys@.map_values(|k: &str| k@) =~= kv);
    }
    let mut out = String::new();
    let mut any = false;
    let mut i: usize = 0;
    while i < 8
        invariant
            i <= 8,
            keys@.map_values(|k: &str| k@) == kv,
            kv == status_keys(),
            any == (status_parts(rows@, kv.take(i as int)).len() > 0),
            out@ == join_with(status_parts(rows@, kv.take(i as int)), "  "@),
        decreases 8 - i,
    {
        let key = keys[i];
        let ghost parts = status_parts(rows@, kv.take(i as int));
        proof {
            assert(kv.take(i + 1).drop_last() =~= kv.take(i as int));
            assert(kv.take(i + 1).last() == kv[i as int]);
            assert(key@ == kv[i as int]);
        }
        match find_row(rows, key) {
            Some(v) => {
                if any {
                    out.append("  ");
                }
                out.append(key);
                out.append(": ");
                out.append(v.as_str());
                any = true;
                proof {
                    let part = kv[i as int] + ": "@ + v@;
                    let np = status_parts(rows@, kv.take(i + 1));
                    assert(np =~= parts.push(part));
                    assert(np.drop_last() =~= parts);
                    if parts.len() == 0 {
                        assert(out@ =~= part);
                    } else {
                        assert(out@ =~= join_with(parts, "  "@) + "  "@ + part);
                    }
                }
            },
            None => {
                proof {
                    assert(status_parts(rows@, kv.take(i + 1)) =~= parts);
                }
            },
        }
        i = i + 1;
    }
    proof {
        assert(kv.take(8) =~= kv);
    }
    out
}

/// The message for statement `index` (counted from zero) of a script of
/// `total`: its position, counted from one, and then the server's text.
pub fn script_error_message(index: usize, total: usize, message: &str) -> (m: String)
    requires
        index < total,
    ensures
        m@ == "statement "@ + nat_text((index + 1) as nat) + " of "@ + nat_text(total as nat) + ": "@
            + message@,
{
    let mut m = String::from_str("statement ");
    let pos = u64_text((index + 1) as u64);
    m.append(pos.as_str());
    m.append(" of ");
    let all = u64_text(total as u64);
    m.append(all.as_str());
    m.append(": ");
    m.append(message);
    m
}

/// Whether a failed query is run once more on a fresh connection: only when
/// the connection was lost (the driver's error code 0, as opposed to an error
/// the server reported) and the connection asks for it.
pub fn retry_after(error_code: u16, auto_reconnect: bool) -> (b: bool)
    ensures
        b == (auto_reconnect && error_code == 0),
{
    auto_reconnect && error_code == 0
}

/// Gathers the result sets of one query while the rows are read, keeping at
/// most `max_rows` rows over all of them (so that many small sets cannot get
/// past the ceiling either). Rows past the ceiling are still read, as the
/// protocol requires, but dropped, and the result is marked truncated.
pub struct ResultCollector {
    sets: Vec<ResultSet>,
    kept: usize,
    max_rows: usize,
    truncated: bool,
}

impl ResultCollector {
    pub closed spec fn sets(&self) -> Seq<ResultSetView> {
        self.sets@.map_values(|s: ResultSet| s@)
    }

    /// Rows kept so far.
    pub closed spec fn kept(&self) -> nat {
        self.kept as nat
    }

    /// Whether some row was dropped.
    pub closed spec fn is_truncated(&self) -> bool {
        self.truncated
    }

    /// The ceiling on kept rows.
    pub closed spec fn max_rows(&self) -> nat {
        self.max_rows as nat
    }

    pub closed spec fn wf(&self) -> bool {
        self.kept <= self.max_rows
    }

    /// However many rows a query returns, no more than the ceiling are kept.
    pub proof fn lemma_kept_within_ceiling(&self)
        requires
            self.wf(),
        ensures
            self.kept() <= self.max_rows(),
    {
    }

    pub fn new(max_rows: usize) -> (c: Self)
        ensures
            c.wf(),
            c.sets().len() == 0,
            c.kept() == 0,
            c.max_rows() == max_rows,
            !c.is_truncated(),
    {
        ResultCollector { sets: Vec::new(), kept: 0, max_rows, truncated: false }
    }

    /// Whether the next row read is kept; a row past the ceiling marks the
    /// result truncated.
    pub fn admit_row(&mut self) -> (keep: bool)
        requires
            old(self).wf(),
        ensures
            final(self).wf(),
            keep == (old(self).kept() < old(self).max_rows()),
            final(self).max_rows() == old(self).max_rows(),
            final(self).kept() == if keep {
                old(self).kept() + 1
            } else {
                old(self).kept()
            },
            final(self).is_truncated() == (old(self).is_truncated() || !keep),
            final(self).sets() == old(self).sets(),
    {
        if self.kept >= self.max_rows {
            self.truncated = true;
            false
        } else {
            self.kept = self.kept + 1;
            true
        }
    }

    /// Adds a finished result set.
    pub fn push_set(&mut self, set: ResultSet)
        requires
            old(self).wf(),
        ensures
            final(self).wf(),
            final(self).sets() == old(self).sets().push(set@),
            final(self).kept() == old(self).kept(),
            final(self).max_rows() == old(self).max_rows(),
            final(self).is_truncated() == old(self).is_truncated(),
    {
        self.sets.push(set);
        proof {
            assert(self.sets() =~= old(self).sets().push(set@));
        }
    }

    /// The result sets, and whether rows were dropped.
    pub fn finish(self) -> (r: (Vec<ResultSet>, bool))
        ensures
            r.0@.map_values(|s: ResultSet| s@) == self.sets(),
            r.1 == self.is_truncated(),
    {
        (self.sets, self.truncated)
    }
}

} // verus!
