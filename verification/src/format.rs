//! `mysql_format`: a `printf`-like pattern turned into SQL text.
//!
//! `%d`/`%i` write an integer, `%f` a float, `%s`/`%e` a string escaped for
//! the connection, `%r` a string as it is, `%%` a percent sign; any other
//! `%x` is kept as written and counted as unknown. A value that does not match
//! its specifier, or is missing, writes nothing.
use vstd::prelude::*;

use crate::connection::{escape_spec, escape_string, EscapeMode};
use crate::num::{i32_text, int_text};
use crate::text::{chars_of, lemma_next_of, next_of, push_char, slice_chars, string_of};
use vstd::string::StrSliceExecFns;
use vstd::utf8::encode_utf8;
use crate::text::{char_len_utf8, lemma_utf8_len_concat, lemma_utf8_len_push, utf8_len};

verus! {

broadcast use vstd::string::group_string_axioms;

/// One token of a pattern.
#[derive(Debug, Clone, PartialEq)]
pub enum FormatSpec {
    Literal(String),
    Int,
    Float,
    /// `%s` or `%e`: a string escaped for the connection.
    EscapedStr,
    /// `%r`: a string inserted without escaping.
    RawStr,
    Percent,
    Unknown(char),
}

/// The value for one specifier. A float arrives already written out, with
/// four decimals, by the caller that read it.
#[derive(Debug, Clone, PartialEq)]
pub enum FormatValue {
    Int(i32),
    Float(String),
    Str(String),
}

#[derive(Debug, Clone, PartialEq)]
pub struct FormatResult {
    pub output: String,
    pub unknown_specs: usize,
}

/// What a script argument must be read as, for a specifier or a callback
/// parameter.
#[derive(Debug, Clone, Copy, PartialEq, Eq, Structural)]
pub enum ArgKind {
    Int,
    Float,
    Str,
}

/// A token, as contracts see it.
pub enum Tok {
    Lit(Seq<char>),
    Int,
    Float,
    Esc,
    Raw,
    Pct,
    Unk(char),
}

pub open spec fn tok_of(f: FormatSpec) -> Tok {
    match f {
        FormatSpec::Literal(s) => Tok::Lit(s@),
        FormatSpec::Int => Tok::Int,
        FormatSpec::Float => Tok::Float,
        FormatSpec::EscapedStr => Tok::Esc,
        FormatSpec::RawStr => Tok::Raw,
        FormatSpec::Percent => Tok::Pct,
        FormatSpec::Unknown(c) => Tok::Unk(c),
    }
}

pub open spec fn toks_of(specs: Seq<FormatSpec>) -> Seq<Tok> {
    specs.map_values(|f: FormatSpec| tok_of(f))
}

/// The token a `%` followed by `c` stands for.
pub open spec fn spec_kind(c: char) -> Tok {
    if c == 'd' || c == 'i' {
        Tok::Int
    } else if c == 'f' {
        Tok::Float
    } else if c == 's' || c == 'e' {
        Tok::Esc
    } else if c == 'r' {
        Tok::Raw
    } else if c == '%' {
        Tok::Pct
    } else {
        Tok::Unk(c)
    }
}

/// The tokens of `s` from position `i` on: a maximal run of text without `%`
/// is one literal, `%` and the character after it one specifier, and a `%`
/// that ends the pattern a literal `%`.
pub open spec fn fmt_from(s: Seq<char>, i: int) -> Seq<Tok>
    decreases s.len() - i,
{
    if i < 0 || i >= s.len() {
        Seq::empty()
    } else if s[i] != '%' {
        proof {
            lemma_next_of(s, i, '%', '%');
        }
        let j = next_of(s, i, '%', '%');
        seq![Tok::Lit(s.subrange(i, j))] + fmt_from(s, j)
    } else if i + 1 >= s.len() {
        seq![Tok::Lit(seq!['%'])]
    } else {
        seq![spec_kind(s[i + 1])] + fmt_from(s, i + 2)
    }
}

pub open spec fn fmt_tokens(s: Seq<char>) -> Seq<Tok> {
    fmt_from(s, 0)
}

fn spec_of(c: char) -> (f: FormatSpec)
    ensures
        tok_of(f) == spec_kind(c),
{
    if c == 'd' || c == 'i' {
        FormatSpec::Int
    } else if c == 'f' {
        FormatSpec::Float
    } else if c == 's' || c == 'e' {
        FormatSpec::EscapedStr
    } else if c == 'r' {
        FormatSpec::RawStr
    } else if c == '%' {
        FormatSpec::Percent
    } else {
        FormatSpec::Unknown(c)
    }
}

/// Splits a pattern into its tokens.
pub fn parse_format(fmt: &str) -> (r: Vec<FormatSpec>)
    ensures
        toks_of(r@) == fmt_tokens(fmt@),
{
    let v = chars_of(fmt);
    let n = v.len();
    let mut out: Vec<FormatSpec> = Vec::new();
    let mut i: usize = 0;
    while i < n
        invariant
            n == v@.len(),
            v@ == fmt@,
            i <= n,
            toks_of(out@) + fmt_from(v@, i as int) == fmt_from(v@, 0),
        decreases n - i,
    {
        let ghost before = toks_of(out@);
        if v[i] != '%' {
            proof {
                lemma_next_of(v@, i as int, '%', '%');
            }
            let mut j = i;
            while j < n && v[j] != '%'
                invariant
                    i <= j <= n == v@.len(),
                    next_of(v@, j as int, '%', '%') == next_of(v@, i as int, '%', '%'),
                decreases n - j,
            {
                j = j + 1;
            }
            let lit = string_of(&slice_chars(&v, i, j));
            out.push(FormatSpec::Literal(lit));
            proof {
                assert(toks_of(out@) =~= before.push(Tok::Lit(v@.subrange(i as int, j as int))));
                assert(before + fmt_from(v@, i as int) =~= toks_of(out@) + fmt_from(v@, j as int));
            }
            i = j;
        } else if i + 1 >= n {
            let lit = string_of(&slice_chars(&v, i, n));
            proof {
                assert(v@.subrange(i as int, n as int) =~= seq!['%']);
            }
            out.push(FormatSpec::Literal(lit));
            proof {
                assert(toks_of(out@) =~= before.push(Tok::Lit(seq!['%'])));
                assert(toks_of(out@) + fmt_from(v@, n as int) =~= before + fmt_from(v@, i as int));
            }
            i = n;
        } else {
            out.push(spec_of(v[i + 1]));
            proof {
                assert(toks_of(out@) =~= before.push(spec_kind(v@[i + 1])));
                assert(toks_of(out@) + fmt_from(v@, i + 2) =~= before + fmt_from(v@, i as int));
            }
            i = i + 2;
        }
    }
    out
}

/// A value, as contracts see it.
pub enum Val {
    Int(i32),
    Float(Seq<char>),
    Str(Seq<char>),
}

pub open spec fn val_of(v: FormatValue) -> Val {
    match v {
        FormatValue::Int(i) => Val::Int(i),
        FormatValue::Float(s) => Val::Float(s@),
        FormatValue::Str(s) => Val::Str(s@),
    }
}

pub open spec fn vals_of(vals: Seq<FormatValue>) -> Seq<Val> {
    vals.map_values(|v: FormatValue| val_of(v))
}

/// Whether a token takes a value.
pub open spec fn takes_value(t: Tok) -> bool {
    t is Int || t is Float || t is Esc || t is Raw
}

/// What a value-taking token writes for value `v`.
pub open spec fn write_value(t: Tok, v: Val, mode: EscapeMode) -> Seq<char> {
    match (t, v) {
        (Tok::Int, Val::Int(i)) => int_text(i as int),
        (Tok::Float, Val::Float(s)) => s,
        (Tok::Esc, Val::Str(s)) => escape_spec(s, mode),
        (Tok::Raw, Val::Str(s)) => s,
        _ => Seq::empty(),
    }
}

/// The text written for tokens `i..` with values `j..` still to take.
pub open spec fn render_from(
    toks: Seq<Tok>,
    i: int,
    vals: Seq<Val>,
    j: int,
    mode: EscapeMode,
) -> Seq<char>
    decreases toks.len() - i,
{
    if i < 0 || i >= toks.len() {
        Seq::empty()
    } else {
        let t = toks[i];
        match t {
            Tok::Lit(s) => s + render_from(toks, i + 1, vals, j, mode),
            Tok::Pct => seq!['%'] + render_from(toks, i + 1, vals, j, mode),
            Tok::Unk(c) => seq!['%', c] + render_from(toks, i + 1, vals, j, mode),
            _ => if 0 <= j < vals.len() {
                write_value(t, vals[j], mode) + render_from(toks, i + 1, vals, j + 1, mode)
            } else {
                render_from(toks, i + 1, vals, j, mode)
            },
        }
    }
}

/// Number of unknown specifiers among tokens `i..`.
pub open spec fn unknown_from(toks: Seq<Tok>, i: int) -> nat
    decreases toks.len() - i,
{
    if i < 0 || i >= toks.len() {
        0
    } else {
        (if toks[i] is Unk {
            1nat
        } else {
            0nat
        }) + unknown_from(toks, i + 1)
    }
}

proof fn lemma_unknown_bound(toks: Seq<Tok>, i: int)
    requires
        0 <= i <= toks.len(),
    ensures
        unknown_from(toks, i) <= toks.len() - i,
    decreases toks.len() - i,
{
    if i < toks.len() {
        lemma_unknown_bound(toks, i + 1);
    }
}

fn append_chars(out: &mut String, s: &str)
    ensures
        final(out)@ == old(out)@ + s@,
{
    out.append(s);
}

/// Writes the tokens with their values: literals as they are, `%%` as `%`,
/// an unknown `%x` as written, and each value-taking token with the next
/// value (nothing when it does not fit the token or none is left).
pub fn render_format(specs: &Vec<FormatSpec>, values: &Vec<FormatValue>, mode: EscapeMode) -> (r:
    FormatResult)
    ensures
        r.output@ == render_from(toks_of(specs@), 0, vals_of(values@), 0, mode),
        r.unknown_specs == unknown_from(toks_of(specs@), 0),
{
    let ghost toks = toks_of(specs@);
    let ghost vals = vals_of(values@);
    let mut output = String::new();
    let mut unknown: usize = 0;
    let mut j: usize = 0;
    let mut i: usize = 0;
    proof {
        lemma_unknown_bound(toks, 0);
    }
    while i < specs.len()
        invariant
            toks == toks_of(specs@),
            vals == vals_of(values@),
            i <= specs@.len(),
            j <= values@.len(),
            output@ + render_from(toks, i as int, vals, j as int, mode) == render_from(
                toks,
                0,
                vals,
                0,
                mode,
            ),
            unknown + unknown_from(toks, i as int) == unknown_from(toks, 0),
            unknown <= i,
        decreases specs@.len() - i,
    {
        let ghost before = output@;
        proof {
            assert(toks[i as int] == tok_of(specs@[i as int]));
        }
        match &specs[i] {
            FormatSpec::Literal(text) => {
                append_chars(&mut output, text.as_str());
            },
            FormatSpec::Percent => {
                push_char(&mut output, '%');
            },
            FormatSpec::Unknown(c) => {
                push_char(&mut output, '%');
                push_char(&mut output, *c);
                unknown = unknown + 1;
            },
            spec => {
                if j < values.len() {
                    proof {
                        assert(vals[j as int] == val_of(values@[j as int]));
                    }
                    match (spec, &values[j]) {
                        (FormatSpec::Int, FormatValue::Int(v)) => {
                            let t = i32_text(*v);
                            append_chars(&mut output, t.as_str());
                        },
                        (FormatSpec::Float, FormatValue::Float(t)) => {
                            append_chars(&mut output, t.as_str());
                        },
                        (FormatSpec::EscapedStr, FormatValue::Str(s)) => {
                            let e = escape_string(s.as_str(), mode);
                            append_chars(&mut output, e.as_str());
                        },
                        (FormatSpec::RawStr, FormatValue::Str(s)) => {
                            append_chars(&mut output, s.as_str());
                        },
                        _ => {},
                    }
                    j = j + 1;
                }
            },
        }
        proof {
            assert(before + render_from(toks, i as int, vals, j as int, mode) =~= before
                + render_from(toks, i as int, vals, j as int, mode));
        }
        i = i + 1;
    }
    FormatResult { output, unknown_specs: unknown }
}

/// The kind of argument each value-taking token reads, in order.
pub open spec fn arg_kinds_from(toks: Seq<Tok>, i: int) -> Seq<ArgKind>
    decreases toks.len() - i,
{
    if i < 0 || i >= toks.len() {
        Seq::empty()
    } else {
        let rest = arg_kinds_from(toks, i + 1);
        match toks[i] {
            Tok::Int => seq![ArgKind::Int] + rest,
            Tok::Float => seq![ArgKind::Float] + rest,
            Tok::Esc => seq![ArgKind::Str] + rest,
            Tok::Raw => seq![ArgKind::Str] + rest,
            _ => rest,
        }
    }
}

/// The arguments a pattern reads, one per value-taking specifier: the `k`-th
/// entry is the kind of the `k`-th argument after the pattern.
pub fn format_arg_kinds(specs: &Vec<FormatSpec>) -> (r: Vec<ArgKind>)
    ensures
        r@ == arg_kinds_from(toks_of(specs@), 0),
{
    let ghost toks = toks_of(specs@);
    let mut out: Vec<ArgKind> = Vec::new();
    let mut i: usize = 0;
    while i < specs.len()
        invariant
            toks == toks_of(specs@),
            i <= specs@.len(),
            out@ + arg_kinds_from(toks, i as int) == arg_kinds_from(toks, 0),
        decreases specs@.len() - i,
    {
        let ghost before = out@;
        proof {
            assert(toks[i as int] == tok_of(specs@[i as int]));
        }
        match &specs[i] {
            FormatSpec::Int => out.push(ArgKind::Int),
            FormatSpec::Float => out.push(ArgKind::Float),
            FormatSpec::EscapedStr => out.push(ArgKind::Str),
            FormatSpec::RawStr => out.push(ArgKind::Str),
            _ => {},
        }
        proof {
            assert(out@ + arg_kinds_from(toks, i + 1) =~= before + arg_kinds_from(toks, i as int));
        }
        i = i + 1;
    }
    proof {
        assert(out@ + arg_kinds_from(toks, i as int) =~= out@);
    }
    out
}

/// The argument a callback format character reads: `d`/`i` an integer, `f`
/// a float, `s` a string; any other character reads none.
pub open spec fn callback_kind(c: char) -> Option<ArgKind> {
    if c == 'd' || c == 'i' {
        Some(ArgKind::Int)
    } else if c == 'f' {
        Some(ArgKind::Float)
    } else if c == 's' {
        Some(ArgKind::Str)
    } else {
        None
    }
}

/// The recognised characters of a callback format, as argument kinds.
pub open spec fn callback_kinds(f: Seq<char>) -> Seq<ArgKind>
    decreases f.len(),
{
    if f.len() == 0 {
        Seq::empty()
    } else {
        match callback_kind(f[0]) {
            Some(k) => seq![k] + callback_kinds(f.drop_first()),
            None => callback_kinds(f.drop_first()),
        }
    }
}

/// The characters of a callback format that name no argument kind.
pub open spec fn callback_unknown(f: Seq<char>) -> nat
    decreases f.len(),
{
    if f.len() == 0 {
        0
    } else {
        (if callback_kind(f[0]) is None {
            1nat
        } else {
            0nat
        }) + callback_unknown(f.drop_first())
    }
}

/// The arguments a callback format reads, in order, and how many of its
/// characters were not recognised.
pub fn callback_arg_kinds(format: &str) -> (r: (Vec<ArgKind>, usize))
    ensures
        r.0@ == callback_kinds(format@),
        r.1 == callback_unknown(format@),
{
    let v = chars_of(format);
    let n = v.len();
    let mut out: Vec<ArgKind> = Vec::new();
    let mut unknown: usize = 0;
    let mut i: usize = n;
    proof {
        assert(v@.subrange(n as int, n as int) =~= Seq::<char>::empty());
    }
    while i > 0
        invariant
            n == v@.len(),
            v@ == format@,
            i <= n,
            out@ == callback_kinds(v@.subrange(i as int, n as int)),
            unknown == callback_unknown(v@.subrange(i as int, n as int)),
            unknown <= n - i,
        decreases i,
    {
        let c = v[i - 1];
        let ghost rest = v@.subrange(i as int, n as int);
        proof {
            assert(v@.subrange(i - 1, n as int).drop_first() =~= rest);
            assert(v@.subrange(i - 1, n as int)[0] == c);
        }
        if c == 'd' || c == 'i' {
            out.insert(0, ArgKind::Int);
        } else if c == 'f' {
            out.insert(0, ArgKind::Float);
        } else if c == 's' {
            out.insert(0, ArgKind::Str);
        } else {
            unknown = unknown + 1;
        }
        proof {
            if callback_kind(c) is Some {
                assert(out@ =~= seq![callback_kind(c)->0] + callback_kinds(rest));
            }
        }
        i = i - 1;
    }
    proof {
        assert(v@.subrange(0, n as int) =~= v@);
    }
    (out, unknown)
}


/// `k` is the longest prefix of `s` whose UTF-8 bytes fit in `cap`.
pub open spec fn longest_fit(s: Seq<char>, cap: int, k: int) -> bool {
    &&& 0 <= k <= s.len()
    &&& utf8_len(s.take(k)) <= cap
    &&& k < s.len() ==> utf8_len(s.take(k + 1)) > cap
}

/// Cuts `s` to fit a script buffer of `max_len` cells, one of which holds
/// the terminating NUL, without splitting a character. The flag says whether
/// anything was cut.
pub fn truncate_to_buffer(s: &str, max_len: usize) -> (r: (&str, bool))
    ensures
        max_len == 0 ==> r.0@.len() == 0 && r.1 == (s@.len() > 0),
        max_len > 0 && utf8_len(s@) <= max_len - 1 ==> r.0@ == s@ && !r.1,
        max_len > 0 && utf8_len(s@) > max_len - 1 ==> r.1 && r.0@ == s@.take(r.0@.len() as int)
            && longest_fit(s@, max_len - 1, r.0@.len() as int),
{
    if max_len == 0 {
        return (s.substring_char(0, 0), !s.is_empty());
    }
    let cap = max_len - 1;
    let v = chars_of(s);
    let n = v.len();
    let mut k: usize = 0;
    let mut used: usize = 0;
    proof {
        assert(v@.take(0) =~= Seq::<char>::empty());
        assert(encode_utf8(Seq::<char>::empty()).len() == 0);
    }
    while k < n
        invariant
            n == v@.len(),
            v@ == s@,
            cap == max_len - 1,
            k <= n,
            used == utf8_len(v@.take(k as int)),
            used <= cap,
        decreases n - k,
    {
        let w = char_len_utf8(v[k]);
        proof {
            lemma_utf8_len_push(v@.take(k as int), v@[k as int]);
            assert(v@.take(k + 1) =~= v@.take(k as int).push(v@[k as int]));
        }
        if w > cap - used {
            proof {
                lemma_utf8_len_concat(v@.take(k + 1), v@.skip(k + 1));
                assert(v@.take(k + 1) + v@.skip(k + 1) =~= v@);
            }
            return (s.substring_char(0, k), true);
        }
        used = used + w;
        k = k + 1;
    }
    proof {
        assert(v@.take(n as int) =~= v@);
    }
    (s, false)
}

} // verus!
