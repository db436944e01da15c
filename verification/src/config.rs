//! Connection credentials read from a `key = value` file.
//!
//! The format is deliberately small: one `key = value` per line, `#` or `;`
//! starts a comment, keys ignore ASCII case, a value may be quoted to keep
//! surrounding spaces, and `${NAME}` in a value is replaced from the
//! environment. Nothing read here ends up in an error message: a failure names
//! the missing key, never a value.
//!
//! The environment is handed in as a list of `(name, value)` pairs, so that
//! parsing stays a function of its inputs.
use vstd::prelude::*;

use crate::text::{
    chars_eq_str, chars_of, find_either, lemma_next_of, lower_chars, lower_seq, next_of,
    slice_chars, string_of, trim, trim_chars,
};

verus! {

broadcast use vstd::string::group_string_axioms;

/// The four credentials of a connection file.
pub struct ConnectionFile {
    pub host: String,
    pub user: String,
    pub password: String,
    pub database: String,
}

/// Why a connection file was refused.
#[derive(Debug, PartialEq, Eq)]
pub enum ConfigError {
    /// The file could not be read; holds the system's reason, not the contents.
    Unreadable(String),
    /// A required key is absent.
    MissingKey(&'static str),
}

impl ConfigError {
    /// The text shown to the operator. It names a key or the read failure,
    /// never a value from the file.
    pub fn message(&self) -> (m: String)
        ensures
            m@ == (match self {
                ConfigError::Unreadable(err) => "could not read the file: "@ + err@,
                ConfigError::MissingKey(key) => "required key '"@ + key@ + "' is missing"@,
            }),
    {
        match self {
            ConfigError::Unreadable(err) => {
                let mut m = String::from_str("could not read the file: ");
                m.append(err.as_str());
                m
            },
            ConfigError::MissingKey(key) => {
                let mut m = String::from_str("required key '");
                m.append(key);
                m.append("' is missing");
                m
            },
        }
    }
}

/// `line` up to its first `#` or `;`.
pub open spec fn strip_comment_spec(line: Seq<char>) -> Seq<char> {
    line.subrange(0, next_of(line, 0, '#', ';'))
}

/// `value` without one pair of matching outer quotes, single or double.
pub open spec fn unquote_spec(value: Seq<char>) -> Seq<char> {
    if value.len() >= 2 && (value[0] == '"' || value[0] == '\'') && value[0] == value.last() {
        value.subrange(1, value.len() - 1)
    } else {
        value
    }
}

/// The `(key, raw value)` a line defines: the key trimmed and lower-cased,
/// the value trimmed and unquoted. `None` for blank, comment-only and
/// `=`-less lines.
pub open spec fn line_entry(line: Seq<char>) -> Option<(Seq<char>, Seq<char>)> {
    let t = trim(strip_comment_spec(line));
    let e = next_of(t, 0, '=', '=');
    if e >= t.len() {
        None
    } else {
        Some((lower_seq(trim(t.subrange(0, e))), unquote_spec(trim(t.subrange(e + 1, t.len() as int)))))
    }
}

/// The value of the variable `name` in `env`, empty when it is not set.
pub open spec fn env_lookup(env: Seq<(String, String)>, name: Seq<char>) -> Seq<char>
    decreases env.len(),
{
    if env.len() == 0 {
        Seq::empty()
    } else if env[0].0@ == name {
        env[0].1@
    } else {
        env_lookup(env.drop_first(), name)
    }
}

/// Index of the first `${` at or after `j`, or the length.
pub open spec fn find_open(v: Seq<char>, j: int) -> int
    decreases v.len() - j,
{
    if j + 1 >= v.len() {
        v.len() as int
    } else if v[j] == '$' && v[j + 1] == '{' {
        j
    } else {
        find_open(v, j + 1)
    }
}

pub proof fn lemma_find_open(v: Seq<char>, j: int)
    requires
        0 <= j <= v.len(),
    ensures
        j <= find_open(v, j) <= v.len(),
        find_open(v, j) < v.len() ==> find_open(v, j) + 1 < v.len() && v[find_open(v, j)] == '$'
            && v[find_open(v, j) + 1] == '{',
    decreases v.len() - j,
{
    if j + 1 < v.len() && !(v[j] == '$' && v[j + 1] == '{') {
        lemma_find_open(v, j + 1);
    }
}

/// `v[pos..]` with every complete `${NAME}` replaced by the variable's value
/// (nothing when unset). A `${` with no closing brace is kept as it is,
/// together with everything after it.
pub open spec fn expand_from(v: Seq<char>, pos: int, env: Seq<(String, String)>) -> Seq<char>
    decreases v.len() - pos,
{
    if pos < 0 || pos > v.len() {
        Seq::empty()
    } else {
        proof {
            lemma_find_open(v, pos);
        }
        let st = find_open(v, pos);
        if st >= v.len() {
            v.subrange(pos, v.len() as int)
        } else {
            proof {
                lemma_next_of(v, st + 2, '}', '}');
            }
            let end = next_of(v, st + 2, '}', '}');
            if end >= v.len() {
                v.subrange(pos, v.len() as int)
            } else {
                v.subrange(pos, st) + env_lookup(env, v.subrange(st + 2, end)) + expand_from(
                    v,
                    end + 1,
                    env,
                )
            }
        }
    }
}

/// A value with no `${` is kept exactly as written: a dollar sign on its own
/// is not a reference.
pub proof fn lemma_no_reference_is_verbatim(v: Seq<char>, env: Seq<(String, String)>)
    requires
        find_open(v, 0) >= v.len(),
    ensures
        expand_from(v, 0, env) == v,
{
    assert(v.subrange(0, v.len() as int) =~= v);
}

/// A reference to a variable that is not set expands to nothing.
pub proof fn lemma_unset_reference_is_empty(name: Seq<char>, env: Seq<(String, String)>)
    requires
        forall|i: int| 0 <= i < env.len() ==> #[trigger] env[i].0@ != name,
    ensures
        env_lookup(env, name) == Seq::<char>::empty(),
    decreases env.len(),
{
    if env.len() > 0 {
        assert(env[0].0@ != name);
        assert forall|i: int| 0 <= i < env.drop_first().len() implies #[trigger] env.drop_first()[i].0@ != name by {
            assert(env.drop_first()[i] == env[i + 1]);
        }
        lemma_unset_reference_is_empty(name, env.drop_first());
    }
}

/// The value of `key` after the lines from `lo` on, starting from `acc`:
/// a later line overrides an earlier one.
pub open spec fn value_from(
    s: Seq<char>,
    lo: int,
    env: Seq<(String, String)>,
    key: Seq<char>,
    acc: Option<Seq<char>>,
) -> Option<Seq<char>>
    decreases s.len() - lo,
{
    if lo < 0 || lo > s.len() {
        acc
    } else {
        proof {
            lemma_next_of(s, lo, '\n', '\n');
        }
        let hi = next_of(s, lo, '\n', '\n');
        let acc2 = match line_entry(s.subrange(lo, hi)) {
            Some(kv) => if kv.0 == key {
                Some(expand_from(kv.1, 0, env))
            } else {
                acc
            },
            None => acc,
        };
        if hi >= s.len() {
            acc2
        } else {
            value_from(s, hi + 1, env, key, acc2)
        }
    }
}

/// The value a file gives `key`, if any line sets it.
pub open spec fn config_value(s: Seq<char>, env: Seq<(String, String)>, key: Seq<char>) -> Option<
    Seq<char>,
> {
    value_from(s, 0, env, key, None)
}

/// What parsing yields: the four credentials, or the first missing required
/// key (`host`, then `user`, then `database`). A missing password is empty.
pub open spec fn parse_spec(s: Seq<char>, env: Seq<(String, String)>) -> Result<
    (Seq<char>, Seq<char>, Seq<char>, Seq<char>),
    Seq<char>,
> {
    let host = config_value(s, env, "host"@);
    let user = config_value(s, env, "user"@);
    let password = config_value(s, env, "password"@);
    let database = config_value(s, env, "database"@);
    if host is None {
        Err("host"@)
    } else if user is None {
        Err("user"@)
    } else if database is None {
        Err("database"@)
    } else {
        Ok(
            (
                host->0,
                user->0,
                match password {
                    Some(p) => p,
                    None => Seq::empty(),
                },
                database->0,
            ),
        )
    }
}

/// The key of each line from `lo` on (`None` for a line that sets nothing):
/// what a file says apart from its values.
pub open spec fn line_keys(s: Seq<char>, lo: int) -> Seq<Option<Seq<char>>>
    decreases s.len() - lo,
{
    if lo < 0 || lo > s.len() {
        Seq::empty()
    } else {
        proof {
            lemma_next_of(s, lo, '\n', '\n');
        }
        let hi = next_of(s, lo, '\n', '\n');
        let k = match line_entry(s.subrange(lo, hi)) {
            Some(kv) => Some(kv.0),
            None => None,
        };
        if hi >= s.len() {
            seq![k]
        } else {
            seq![k] + line_keys(s, hi + 1)
        }
    }
}

/// Whether a key gets a value depends on the lines' keys alone.
proof fn lemma_value_present(s: Seq<char>, lo: int, env: Seq<(String, String)>, key: Seq<char>, acc: Option<Seq<char>>)
    ensures
        value_from(s, lo, env, key, acc) is Some <==> (acc is Some || line_keys(s, lo).contains(Some(key))),
    decreases s.len() - lo,
{
    if lo < 0 || lo > s.len() {
    } else {
        lemma_next_of(s, lo, '\n', '\n');
        let hi = next_of(s, lo, '\n', '\n');
        let k: Option<Seq<char>> = match line_entry(s.subrange(lo, hi)) {
            Some(kv) => Some(kv.0),
            None => None,
        };
        let acc2 = match line_entry(s.subrange(lo, hi)) {
            Some(kv) => if kv.0 == key {
                Some(expand_from(kv.1, 0, env))
            } else {
                acc
            },
            None => acc,
        };
        assert(acc2 is Some <==> (acc is Some || k == Some(key)));
        if hi >= s.len() {
            assert(line_keys(s, lo) == seq![k]);
            assert(seq![k].contains(Some(key)) <==> k == Some(key)) by {
                if k == Some(key) {
                    assert(seq![k][0] == k);
                }
            }
        } else {
            lemma_value_present(s, hi + 1, env, key, acc2);
            let rest = line_keys(s, hi + 1);
            assert(line_keys(s, lo) == seq![k] + rest);
            assert((seq![k] + rest).contains(Some(key)) <==> (k == Some(key) || rest.contains(Some(key)))) by {
                let all = seq![k] + rest;
                if k == Some(key) {
                    assert(all[0] == k);
                }
                if rest.contains(Some(key)) {
                    let j = choose|j: int| 0 <= j < rest.len() && rest[j] == Some(key);
                    assert(all[j + 1] == rest[j]);
                }
                if all.contains(Some(key)) {
                    let j = choose|j: int| 0 <= j < all.len() && all[j] == Some(key);
                    if j > 0 {
                        assert(rest[j - 1] == all[j]);
                    }
                }
            }
        }
    }
}

/// A refused file names a missing required key, and which one it names
/// depends only on the keys the file's lines set: two files that differ only
/// in their values (or in the environment) are refused alike, so the error
/// never carries a value.
pub proof fn lemma_error_ignores_values(
    s1: Seq<char>,
    env1: Seq<(String, String)>,
    s2: Seq<char>,
    env2: Seq<(String, String)>,
)
    requires
        line_keys(s1, 0) == line_keys(s2, 0),
    ensures
        parse_spec(s1, env1) is Err <==> parse_spec(s2, env2) is Err,
        parse_spec(s1, env1) is Err ==> parse_spec(s1, env1) == parse_spec(s2, env2),
        parse_spec(s1, env1) matches Err(k) ==> (k == "host"@ || k == "user"@ || k == "database"@),
{
    lemma_value_present(s1, 0, env1, "host"@, None);
    lemma_value_present(s2, 0, env2, "host"@, None);
    lemma_value_present(s1, 0, env1, "user"@, None);
    lemma_value_present(s2, 0, env2, "user"@, None);
    lemma_value_present(s1, 0, env1, "database"@, None);
    lemma_value_present(s2, 0, env2, "database"@, None);
}

/// The characters held by an optional vector.
pub open spec fn opt_view(o: Option<Vec<char>>) -> Option<Seq<char>> {
    match o {
        Some(v) => Some(v@),
        None => None,
    }
}

/// `line` cut at its first `#` or `;`.
pub fn strip_comment(line: &str) -> (r: String)
    ensures
        r@ == strip_comment_spec(line@),
{
    let v = chars_of(line);
    let idx = find_either(&v, 0, '#', ';');
    proof {
        lemma_next_of(v@, 0, '#', ';');
    }
    string_of(&slice_chars(&v, 0, idx))
}

fn unquote_chars(v: &Vec<char>) -> (r: Vec<char>)
    ensures
        r@ == unquote_spec(v@),
{
    let n = v.len();
    if n >= 2 {
        let first = v[0];
        if (first == '"' || first == '\'') && first == v[n - 1] {
            return slice_chars(v, 1, n - 1);
        }
    }
    slice_chars(v, 0, n)
}

/// `value` without one pair of matching outer quotes.
pub fn unquote(value: &str) -> (r: String)
    ensures
        r@ == unquote_spec(value@),
{
    let v = chars_of(value);
    string_of(&unquote_chars(&v))
}

/// The value of `name` in `env`, empty when it is not there.
fn lookup_env(env: &Vec<(String, String)>, name: &Vec<char>) -> (r: Vec<char>)
    ensures
        r@ == env_lookup(env@, name@),
{
    let name_s = string_of(name);
    let mut i: usize = 0;
    proof {
        assert(env@.subrange(0, env@.len() as int) =~= env@);
    }
    while i < env.len()
        invariant
            i <= env@.len(),
            name_s@ == name@,
            env_lookup(env@.subrange(i as int, env@.len() as int), name@) == env_lookup(env@, name@),
        decreases env@.len() - i,
    {
        proof {
            assert(env@.subrange(i as int, env@.len() as int).drop_first() =~= env@.subrange(
                i + 1,
                env@.len() as int,
            ));
        }
        if env[i].0 == name_s {
            return chars_of(env[i].1.as_str());
        }
        i = i + 1;
    }
    Vec::new()
}

fn expand_chars(v: &Vec<char>, env: &Vec<(String, String)>) -> (r: Vec<char>)
    ensures
        r@ == expand_from(v@, 0, env@),
{
    let n = v.len();
    let mut out: Vec<char> = Vec::new();
    let mut pos: usize = 0;
    loop
        invariant
            n == v@.len(),
            pos <= n,
            out@ + expand_from(v@, pos as int, env@) == expand_from(v@, 0, env@),
        decreases n - pos,
    {
        proof {
            lemma_find_open(v@, pos as int);
        }
        let mut st = pos;
        while n - st > 1 && !(v[st] == '$' && v[st + 1] == '{')
            invariant
                pos <= st <= n == v@.len(),
                find_open(v@, st as int) == find_open(v@, pos as int),
            decreases n - st,
        {
            st = st + 1;
        }
        if n - st <= 1 {
            assert(find_open(v@, st as int) == n);
            let tail = slice_chars(v, pos, n);
            proof {
                assert(out@ + tail@ == expand_from(v@, 0, env@));
            }
            let mut out2 = out;
            let mut i: usize = 0;
            while i < tail.len()
                invariant
                    i <= tail@.len(),
                    out2@ == out@ + tail@.subrange(0, i as int),
                decreases tail@.len() - i,
            {
                out2.push(tail[i]);
                proof {
                    assert(out2@ =~= out@ + tail@.subrange(0, i + 1));
                }
                i = i + 1;
            }
            proof {
                assert(tail@.subrange(0, i as int) =~= tail@);
            }
            return out2;
        }
        proof {
            lemma_next_of(v@, st + 2, '}', '}');
        }
        let end = find_either(v, st + 2, '}', '}');
        let piece: Vec<char> = if end >= n {
            slice_chars(v, pos, n)
        } else {
            let mut p = slice_chars(v, pos, st);
            let name = slice_chars(v, st + 2, end);
            let value = lookup_env(env, &name);
            let mut i: usize = 0;
            let ghost p0 = p@;
            while i < value.len()
                invariant
                    i <= value@.len(),
                    p@ == p0 + value@.subrange(0, i as int),
                decreases value@.len() - i,
            {
                p.push(value[i]);
                proof {
                    assert(p@ =~= p0 + value@.subrange(0, i + 1));
                }
                i = i + 1;
            }
            proof {
                assert(value@.subrange(0, i as int) =~= value@);
            }
            p
        };
        let ghost before = out@;
        let mut i: usize = 0;
        while i < piece.len()
            invariant
                i <= piece@.len(),
                out@ == before + piece@.subrange(0, i as int),
            decreases piece@.len() - i,
        {
            out.push(piece[i]);
            proof {
                assert(out@ =~= before + piece@.subrange(0, i + 1));
            }
            i = i + 1;
        }
        proof {
            assert(piece@.subrange(0, i as int) =~= piece@);
        }
        if end >= n {
            proof {
                assert(out@ == expand_from(v@, 0, env@));
            }
            return out;
        }
        proof {
            assert(before + piece@ + expand_from(v@, end + 1, env@) =~= before + (piece@
                + expand_from(v@, end + 1, env@)));
        }
        pos = end + 1;
    }
}

/// `value` with every complete `${NAME}` replaced from `env`; an unset name
/// gives nothing, a bare `$NAME` or an unclosed `${` stays as written.
pub fn expand_env(value: &str, env: &Vec<(String, String)>) -> (r: String)
    ensures
        r@ == expand_from(value@, 0, env@),
{
    let v = chars_of(value);
    string_of(&expand_chars(&v, env))
}

/// The `(key, raw value)` of one line, as `line_entry` describes it.
fn parse_line(line: &Vec<char>) -> (r: Option<(Vec<char>, Vec<char>)>)
    ensures
        match r {
            Some(kv) => line_entry(line@) == Some((kv.0@, kv.1@)),
            None => line_entry(line@) is None,
        },
{
    let idx = find_either(line, 0, '#', ';');
    proof {
        lemma_next_of(line@, 0, '#', ';');
    }
    let t = trim_chars(&slice_chars(line, 0, idx));
    let e = find_either(&t, 0, '=', '=');
    proof {
        lemma_next_of(t@, 0, '=', '=');
    }
    if e >= t.len() {
        return None;
    }
    let key = lower_chars(&trim_chars(&slice_chars(&t, 0, e)));
    let value = unquote_chars(&trim_chars(&slice_chars(&t, e + 1, t.len())));
    Some((key, value))
}

/// Parses a connection file. `env` is the environment `${NAME}` is read from.
///
/// Unknown keys are ignored; when a key appears twice the later line wins.
/// `host`, `user` and `database` are required; a missing `password` is empty.
pub fn parse(contents: &str, env: &Vec<(String, String)>) -> (r: Result<ConnectionFile, ConfigError>)
    ensures
        match r {
            Ok(f) => parse_spec(contents@, env@) == Ok::<_, Seq<char>>(
                (f.host@, f.user@, f.password@, f.database@),
            ),
            Err(ConfigError::MissingKey(k)) => parse_spec(contents@, env@) == Err::<
                (Seq<char>, Seq<char>, Seq<char>, Seq<char>),
                _,
            >(k@),
            Err(ConfigError::Unreadable(_)) => false,
        },
{
    let s = chars_of(contents);
    let n = s.len();
    let mut host: Option<Vec<char>> = None;
    let mut user: Option<Vec<char>> = None;
    let mut password: Option<Vec<char>> = None;
    let mut database: Option<Vec<char>> = None;
    let mut lo: usize = 0;
    loop
        invariant_except_break
            value_from(s@, lo as int, env@, "host"@, opt_view(host)) == config_value(
                s@,
                env@,
                "host"@,
            ),
            value_from(s@, lo as int, env@, "user"@, opt_view(user)) == config_value(
                s@,
                env@,
                "user"@,
            ),
            value_from(s@, lo as int, env@, "password"@, opt_view(password))
                == config_value(s@, env@, "password"@),
            value_from(s@, lo as int, env@, "database"@, opt_view(database))
                == config_value(s@, env@, "database"@),
        invariant
            n == s@.len(),
            s@ == contents@,
            lo <= n,
        ensures
            opt_view(host) == config_value(s@, env@, "host"@),
            opt_view(user) == config_value(s@, env@, "user"@),
            opt_view(password) == config_value(s@, env@, "password"@),
            opt_view(database) == config_value(s@, env@, "database"@),
        decreases n - lo,
    {
        proof {
            lemma_next_of(s@, lo as int, '\n', '\n');
            reveal_strlit("host");
            reveal_strlit("user");
            reveal_strlit("password");
            reveal_strlit("database");
            assert("host"@[0] != "user"@[0] && "host"@[0] != "password"@[0]);
            assert("user"@[0] != "password"@[0] && "user"@[0] != "database"@[0]);
            assert("password"@[0] != "database"@[0] && "host"@[0] != "database"@[0]);
        }
        let hi = find_either(&s, lo, '\n', '\n');
        let line = slice_chars(&s, lo, hi);
        match parse_line(&line) {
            Some(kv) => {
                let (key, raw) = kv;
                let value = expand_chars(&raw, env);
                if chars_eq_str(&key, "host") {
                    host = Some(value);
                } else if chars_eq_str(&key, "user") {
                    user = Some(value);
                } else if chars_eq_str(&key, "password") {
                    password = Some(value);
                } else if chars_eq_str(&key, "database") {
                    database = Some(value);
                }
            },
            None => {},
        }
        if hi >= n {
            break ;
        }
        lo = hi + 1;
    }
    match (host, user, database) {
        (None, _, _) => Err(ConfigError::MissingKey("host")),
        (Some(_), None, _) => Err(ConfigError::MissingKey("user")),
        (Some(_), Some(_), None) => Err(ConfigError::MissingKey("database")),
        (Some(h), Some(u), Some(d)) => {
            let p = match password {
                Some(p) => p,
                None => Vec::new(),
            };
            Ok(
                ConnectionFile {
                    host: string_of(&h),
                    user: string_of(&u),
                    password: string_of(&p),
                    database: string_of(&d),
                },
            )
        },
    }
}

} // verus!
