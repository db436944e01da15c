//! The ORM: a table row mirrored by script variables.
//!
//! Each instance binds script variables to columns. The variables themselves
//! live in the script's memory; their current values are read by the caller
//! and handed in, one per binding, and what a result row writes back is
//! returned as a list of writes for the caller to carry out.
use vstd::prelude::*;

use crate::cache::{first_ci_match, CacheEntry, CacheEntryView, ResultSetView};
use crate::connection::{escape_spec, escape_string, without_char, EscapeMode};
use crate::idmap::{advance_handle, next_handle, without_owner, IdMap, Owned, Owner};
use crate::num::{i32_text, int_text, parse_i32, parse_i32_spec};
use crate::text::{join_strings, join_with, str_eq};
use vstd::string::StrSliceExecFns;
use vstd::utf8::encode_utf8;

verus! {

broadcast use vstd::string::group_string_axioms;

/// ORM error codes exposed to scripts.
#[derive(Debug, Clone, Copy, PartialEq, Eq, Structural)]
pub enum OrmError {
    NoError,
    NoData,
}

impl OrmError {
    /// The number a script sees.
    pub fn code(self) -> (c: i32)
        ensures
            c == (match self {
                OrmError::NoError => 0i32,
                OrmError::NoData => 1i32,
            }),
    {
        match self {
            OrmError::NoError => 0,
            OrmError::NoData => 1,
        }
    }
}

/// A script variable bound to a column. `amx_addr` is the variable's address
/// in the script's memory.
#[derive(Debug, Clone)]
pub enum OrmVarBinding {
    Int { amx_addr: i32, column: String },
    Float { amx_addr: i32, column: String },
    String { amx_addr: i32, max_len: i32, column: String },
}

pub open spec fn col_of(b: OrmVarBinding) -> Seq<char> {
    match b {
        OrmVarBinding::Int { column, .. } => column@,
        OrmVarBinding::Float { column, .. } => column@,
        OrmVarBinding::String { column, .. } => column@,
    }
}

impl OrmVarBinding {
    pub fn column_name(&self) -> (s: &str)
        ensures
            s@ == col_of(*self),
    {
        match self {
            OrmVarBinding::Int { column, .. } => column.as_str(),
            OrmVarBinding::Float { column, .. } => column.as_str(),
            OrmVarBinding::String { column, .. } => column.as_str(),
        }
    }
}

/// The current value of a bound variable, as read from the script. A float
/// comes written out as decimal text, with whether it is zero.
pub enum VarValue {
    Int(i32),
    Float { text: String, zero: bool },
    Str(String),
}

/// The SQL text of a value: an integer in decimal, a float as written, a
/// string quoted and escaped for the connection.
pub open spec fn sql_of(v: VarValue, mode: EscapeMode) -> Seq<char> {
    match v {
        VarValue::Int(i) => int_text(i as int),
        VarValue::Float { text, .. } => text@,
        VarValue::Str(s) => "'"@ + escape_spec(s@, mode) + "'"@,
    }
}

/// A backtick-quoted identifier, with any backtick inside removed.
pub open spec fn quoted(s: Seq<char>) -> Seq<char> {
    "`"@ + without_char(s, '`') + "`"@
}

/// Index of the first binding for column `key`, or the number of bindings.
pub open spec fn key_index(vars: Seq<OrmVarBinding>, key: Seq<char>, i: int) -> int
    decreases vars.len() - i,
{
    if i < 0 || i >= vars.len() {
        vars.len() as int
    } else if col_of(vars[i]) == key {
        i
    } else {
        key_index(vars, key, i + 1)
    }
}

pub proof fn lemma_key_index(vars: Seq<OrmVarBinding>, key: Seq<char>, i: int)
    requires
        0 <= i <= vars.len(),
    ensures
        i <= key_index(vars, key, i) <= vars.len(),
        key_index(vars, key, i) < vars.len() ==> col_of(vars[key_index(vars, key, i)]) == key,
    decreases vars.len() - i,
{
    if i < vars.len() && col_of(vars[i]) != key {
        lemma_key_index(vars, key, i + 1);
    }
}

pub open spec fn columns_of(vars: Seq<OrmVarBinding>) -> Seq<Seq<char>> {
    vars.map_values(|b: OrmVarBinding| quoted(col_of(b)))
}

pub open spec fn values_of(vals: Seq<VarValue>, mode: EscapeMode) -> Seq<Seq<char>> {
    vals.map_values(|v: VarValue| sql_of(v, mode))
}

pub open spec fn assignments_of(vars: Seq<OrmVarBinding>, vals: Seq<VarValue>, mode: EscapeMode) -> Seq<
    Seq<char>,
> {
    Seq::new(vars.len(), |i: int| quoted(col_of(vars[i])) + " = "@ + sql_of(vals[i], mode))
}

/// What a result cell writes into a bound variable.
pub enum CacheWrite {
    Int { amx_addr: i32, value: i32 },
    /// The text is parsed as a float by the caller.
    Float { amx_addr: i32, text: String },
    /// These bytes, then a terminating zero cell.
    Str { amx_addr: i32, bytes: Vec<u8> },
}

/// A write, as contracts see it.
pub enum WriteView {
    Int(i32, i32),
    Float(i32, Seq<char>),
    Str(i32, Seq<u8>),
}

pub open spec fn write_view(w: CacheWrite) -> WriteView {
    match w {
        CacheWrite::Int { amx_addr, value } => WriteView::Int(amx_addr, value),
        CacheWrite::Float { amx_addr, text } => WriteView::Float(amx_addr, text@),
        CacheWrite::Str { amx_addr, bytes } => WriteView::Str(amx_addr, bytes@),
    }
}

/// Ceiling on the cells written into a string variable, whatever length it
/// was bound with.
pub const MAX_STRING_WRITE: i32 = 4096;

/// `max_len` kept within `0..=MAX_STRING_WRITE`.
pub open spec fn clamp_len(max_len: i32) -> int {
    if max_len < 0 {
        0
    } else if max_len > MAX_STRING_WRITE {
        MAX_STRING_WRITE as int
    } else {
        max_len as int
    }
}

/// The write for binding `b` of the cell text `v`: an integer that does not
/// parse becomes 0; a string is cut to leave room for the terminator, and a
/// string variable with no room gets nothing.
pub open spec fn write_for(b: OrmVarBinding, v: Seq<char>) -> Option<WriteView> {
    match b {
        OrmVarBinding::Int { amx_addr, .. } => Some(
            WriteView::Int(
                amx_addr,
                match parse_i32_spec(v) {
                    Some(i) => i,
                    None => 0,
                },
            ),
        ),
        OrmVarBinding::Float { amx_addr, .. } => Some(WriteView::Float(amx_addr, v)),
        OrmVarBinding::String { amx_addr, max_len, .. } => {
            let room = clamp_len(max_len);
            if room == 0 {
                None
            } else {
                let bytes = encode_utf8(v);
                let n = if bytes.len() < room - 1 {
                    bytes.len() as int
                } else {
                    room - 1
                };
                Some(WriteView::Str(amx_addr, bytes.take(n)))
            }
        },
    }
}

/// The non-NULL cell of row `row` in the first column named `name` (ASCII
/// case ignored), if there is one.
pub open spec fn cell_named(set: ResultSetView, row: int, name: Seq<char>) -> Option<Seq<char>> {
    match first_ci_match(set.field_names, name) {
        Some(c) => if 0 <= row < set.rows.len() && 0 <= c < set.rows[row].len() {
            set.rows[row][c]
        } else {
            None
        },
        None => None,
    }
}

/// The writes for bindings `i..`, in binding order.
pub open spec fn writes_from(vars: Seq<OrmVarBinding>, i: int, set: ResultSetView, row: int) -> Seq<
    WriteView,
>
    decreases vars.len() - i,
{
    if i < 0 || i >= vars.len() {
        Seq::empty()
    } else {
        let rest = writes_from(vars, i + 1, set, row);
        match cell_named(set, row, col_of(vars[i])) {
            Some(v) => match write_for(vars[i], v) {
                Some(w) => seq![w] + rest,
                None => rest,
            },
            None => rest,
        }
    }
}

/// `vars` without the bindings of column `column`.
pub open spec fn without_column(vars: Seq<OrmVarBinding>, column: Seq<char>) -> Seq<OrmVarBinding>
    decreases vars.len(),
{
    if vars.len() == 0 {
        Seq::empty()
    } else {
        let rest = without_column(vars.drop_last(), column);
        if col_of(vars.last()) == column {
            rest
        } else {
            rest.push(vars.last())
        }
    }
}

proof fn lemma_without_column_len(vars: Seq<OrmVarBinding>, column: Seq<char>)
    ensures
        without_column(vars, column).len() <= vars.len(),
        (forall|i: int| 0 <= i < vars.len() ==> col_of(#[trigger] vars[i]) != column) ==> without_column(vars, column).len() == vars.len(),
        (exists|i: int| 0 <= i < vars.len() && col_of(#[trigger] vars[i]) == column) ==> without_column(vars, column).len() < vars.len(),
    decreases vars.len(),
{
    if vars.len() > 0 {
        let d = vars.drop_last();
        lemma_without_column_len(d, column);
        assert forall|i: int| 0 <= i < d.len() implies d[i] == vars[i] by {}
        if exists|i: int| 0 <= i < vars.len() && col_of(#[trigger] vars[i]) == column {
            let i = choose|i: int| 0 <= i < vars.len() && col_of(#[trigger] vars[i]) == column;
            if i < vars.len() - 1 {
                assert(col_of(d[i]) == column);
            }
        }
    }
}


/// The text of an optional string.
pub open spec fn text_opt(o: Option<String>) -> Option<Seq<char>> {
    match o {
        Some(s) => Some(s@),
        None => None,
    }
}

/// The `SELECT` of `inst`; see `OrmInstance::build_select`.
pub open spec fn select_query(inst: OrmInstance, vals: Seq<VarValue>, mode: EscapeMode) -> Option<Seq<char>> {
    let vars = inst.variables@;
    match inst.key_column {
        None => None,
        Some(key) => {
            let k = key_index(vars, key@, 0);
            if vars.len() == 0 || k >= vars.len() {
                None
            } else {
                Some(
                    "SELECT "@ + join_with(columns_of(vars), ", "@) + " FROM "@ + quoted(inst.table@)
                        + " WHERE "@ + quoted(key@) + " = "@ + sql_of(vals[k], mode),
                )
            }
        },
    }
}

/// The `INSERT` of `inst`; see `OrmInstance::build_insert`.
pub open spec fn insert_query(inst: OrmInstance, vals: Seq<VarValue>, mode: EscapeMode) -> Option<Seq<char>> {
    if inst.variables@.len() == 0 {
        None
    } else {
        Some(
            "INSERT INTO "@ + quoted(inst.table@) + " ("@ + join_with(columns_of(inst.variables@), ", "@)
                + ") VALUES ("@ + join_with(values_of(vals, mode), ", "@) + ")"@,
        )
    }
}

/// The `UPDATE` of `inst`; see `OrmInstance::build_update`.
pub open spec fn update_query(inst: OrmInstance, vals: Seq<VarValue>, mode: EscapeMode) -> Option<Seq<char>> {
    let vars = inst.variables@;
    match inst.key_column {
        None => None,
        Some(key) => {
            let k = key_index(vars, key@, 0);
            if vars.len() == 0 || k >= vars.len() {
                None
            } else {
                Some(
                    "UPDATE "@ + quoted(inst.table@) + " SET "@ + join_with(assignments_of(vars, vals, mode), ", "@)
                        + " WHERE "@ + quoted(key@) + " = "@ + sql_of(vals[k], mode),
                )
            }
        },
    }
}

/// The `DELETE` of `inst`; see `OrmInstance::build_delete`.
pub open spec fn delete_query(inst: OrmInstance, vals: Seq<VarValue>, mode: EscapeMode) -> Option<Seq<char>> {
    let vars = inst.variables@;
    match inst.key_column {
        None => None,
        Some(key) => {
            let k = key_index(vars, key@, 0);
            if k >= vars.len() {
                None
            } else {
                Some(
                    "DELETE FROM "@ + quoted(inst.table@) + " WHERE "@ + quoted(key@) + " = "@
                        + sql_of(vals[k], mode),
                )
            }
        },
    }
}

/// Whether the key of `inst` is unset; see `OrmInstance::is_key_empty`.
pub open spec fn key_is_empty(inst: OrmInstance, vals: Seq<VarValue>) -> bool {
    let vars = inst.variables@;
    match inst.key_column {
        None => true,
        Some(key) => {
            let k = key_index(vars, key@, 0);
            if k >= vars.len() {
                true
            } else {
                match vals[k] {
                    VarValue::Int(i) => i == 0,
                    VarValue::Float { zero, .. } => zero,
                    VarValue::Str(s) => s@.len() == 0,
                }
            }
        },
    }
}

/// The query operation `op` builds for `inst`.
pub open spec fn op_query(op: OrmOp, inst: OrmInstance, vals: Seq<VarValue>, mode: EscapeMode) -> Option<Seq<char>> {
    match op {
        OrmOp::Select => select_query(inst, vals, mode),
        OrmOp::Update => update_query(inst, vals, mode),
        OrmOp::Insert => insert_query(inst, vals, mode),
        OrmOp::Delete => delete_query(inst, vals, mode),
        OrmOp::Save => if key_is_empty(inst, vals) {
            insert_query(inst, vals, mode)
        } else {
            update_query(inst, vals, mode)
        },
    }
}

/// One table row mirrored by script variables.
pub struct OrmInstance {
    pub table: String,
    pub conn_id: i32,
    pub key_column: Option<String>,
    pub variables: Vec<OrmVarBinding>,
    pub errno: OrmError,
    /// The script that created the instance.
    pub amx_ident: usize,
}

fn sql_value(v: &VarValue, mode: EscapeMode) -> (s: String)
    ensures
        s@ == sql_of(*v, mode),
{
    match v {
        VarValue::Int(i) => i32_text(*i),
        VarValue::Float { text, .. } => String::from_str(text.as_str()),
        VarValue::Str(s) => {
            let mut out = String::from_str("'");
            let e = escape_string(s.as_str(), mode);
            out.append(e.as_str());
            out.append("'");
            out
        },
    }
}

fn quote_ident(s: &str) -> (q: String)
    ensures
        q@ == quoted(s@),
{
    let mut out = String::from_str("`");
    let e = crate::connection::escape_identifier(s);
    out.append(e.as_str());
    out.append("`");
    out
}

impl Owned for OrmInstance {
    open spec fn owned_by(&self, o: Owner) -> bool {
        match o {
            Owner::Conn(c) => self.conn_id == c,
            Owner::Amx(a) => self.amx_ident == a,
        }
    }

    fn is_owned_by(&self, o: Owner) -> (b: bool) {
        match o {
            Owner::Conn(c) => self.conn_id == c,
            Owner::Amx(a) => self.amx_ident == a,
        }
    }
}

fn write_of(var: &OrmVarBinding, v: &str) -> (r: Option<CacheWrite>)
    ensures
        match r {
            Some(w) => write_for(*var, v@) == Some(write_view(w)),
            None => write_for(*var, v@) is None,
        },
{
    match var {
        OrmVarBinding::Int { amx_addr, .. } => {
            let value = match parse_i32(v) {
                Some(n) => n,
                None => 0,
            };
            Some(CacheWrite::Int { amx_addr: *amx_addr, value })
        },
        OrmVarBinding::Float { amx_addr, .. } => Some(
            CacheWrite::Float { amx_addr: *amx_addr, text: String::from_str(v) },
        ),
        OrmVarBinding::String { amx_addr, max_len, .. } => {
            let room: i32 = if *max_len < 0 {
                0
            } else if *max_len > MAX_STRING_WRITE {
                MAX_STRING_WRITE
            } else {
                *max_len
            };
            if room == 0 {
                None
            } else {
                let mut bytes = v.as_bytes_vec();
                let cap = (room - 1) as usize;
                if bytes.len() > cap {
                    bytes.truncate(cap);
                }
                proof {
                    if bytes@.len() <= cap {
                        assert(bytes@ =~= encode_utf8(v@).take(bytes@.len() as int));
                    }
                }
                Some(CacheWrite::Str { amx_addr: *amx_addr, bytes })
            }
        },
    }
}

impl OrmInstance {
    /// An instance for `table` with no bindings and no key.
    pub fn new(table: String, conn_id: i32, amx_ident: usize) -> (o: Self)
        ensures
            o.table == table,
            o.conn_id == conn_id,
            o.amx_ident == amx_ident,
            o.key_column is None,
            o.variables@.len() == 0,
            o.errno == OrmError::NoError,
    {
        OrmInstance {
            table,
            conn_id,
            key_column: None,
            variables: Vec::new(),
            errno: OrmError::NoError,
            amx_ident,
        }
    }

    /// The binding of the key column, if the key is set and bound.
    fn key_var(&self) -> (r: Option<usize>)
        ensures
            match r {
                Some(i) => self.key_column is Some && i == key_index(
                    self.variables@,
                    self.key_column->0@,
                    0,
                ) && i < self.variables@.len(),
                None => self.key_column is None || key_index(
                    self.variables@,
                    self.key_column->0@,
                    0,
                ) >= self.variables@.len(),
            },
    {
        let key = match &self.key_column {
            Some(k) => k,
            None => return None,
        };
        proof {
            lemma_key_index(self.variables@, key@, 0);
        }
        let mut i: usize = 0;
        while i < self.variables.len()
            invariant
                i <= self.variables@.len(),
                self.key_column == Some(*key),
                key_index(self.variables@, key@, i as int) == key_index(self.variables@, key@, 0),
            decreases self.variables@.len() - i,
        {
            if str_eq(self.variables[i].column_name(), key.as_str()) {
                return Some(i);
            }
            i = i + 1;
        }
        None
    }

    fn column_list(&self) -> (r: Vec<String>)
        ensures
            r@.map_values(|s: String| s@) == columns_of(self.variables@),
    {
        let mut out: Vec<String> = Vec::new();
        let mut i: usize = 0;
        while i < self.variables.len()
            invariant
                i <= self.variables@.len(),
                out@.map_values(|s: String| s@) == columns_of(self.variables@.take(i as int)),
            decreases self.variables@.len() - i,
        {
            let ghost before = out@.map_values(|s: String| s@);
            let s = quote_ident(self.variables[i].column_name());
            out.push(s);
            proof {
                assert(out@.map_values(|s: String| s@) =~= before.push(s@));
                assert(self.variables@.take(i + 1) =~= self.variables@.take(i as int).push(
                    self.variables@[i as int],
                ));
                assert(columns_of(self.variables@.take(i + 1)) =~= columns_of(
                    self.variables@.take(i as int),
                ).push(quoted(col_of(self.variables@[i as int]))));
            }
            i = i + 1;
        }
        proof {
            assert(self.variables@.take(i as int) =~= self.variables@);
        }
        out
    }

    fn value_list(&self, values: &Vec<VarValue>, mode: EscapeMode) -> (r: Vec<String>)
        ensures
            r@.map_values(|s: String| s@) == values_of(values@, mode),
    {
        let mut out: Vec<String> = Vec::new();
        let mut i: usize = 0;
        while i < values.len()
            invariant
                i <= values@.len(),
                out@.map_values(|s: String| s@) == values_of(values@.take(i as int), mode),
            decreases values@.len() - i,
        {
            let ghost before = out@.map_values(|s: String| s@);
            let s = sql_value(&values[i], mode);
            out.push(s);
            proof {
                assert(out@.map_values(|s: String| s@) =~= before.push(s@));
                assert(values@.take(i + 1) =~= values@.take(i as int).push(values@[i as int]));
                assert(values_of(values@.take(i + 1), mode) =~= values_of(
                    values@.take(i as int),
                    mode,
                ).push(sql_of(values@[i as int], mode)));
            }
            i = i + 1;
        }
        proof {
            assert(values@.take(i as int) =~= values@);
        }
        out
    }

    /// `SELECT` of every bound column for the row whose key column holds the
    /// key variable's value. `None` without a key, without bindings, or when
    /// the key column has no binding. `values` holds the current value of
    /// each binding, in order.
    pub fn build_select(&self, values: &Vec<VarValue>, mode: EscapeMode) -> (r: Option<String>)
        requires
            values@.len() == self.variables@.len(),
        ensures
            text_opt(r) == select_query(*self, values@, mode),
    {
        let k = match self.key_var() {
            Some(k) => k,
            None => return None,
        };
        let key = match &self.key_column {
            Some(key) => key,
            None => return None,
        };
        let cols = self.column_list();
        let mut q = String::from_str("SELECT ");
        let c = join_strings(&cols, ", ");
        q.append(c.as_str());
        q.append(" FROM ");
        let t = quote_ident(self.table.as_str());
        q.append(t.as_str());
        q.append(" WHERE ");
        let kq = quote_ident(key.as_str());
        q.append(kq.as_str());
        q.append(" = ");
        let v = sql_value(&values[k], mode);
        q.append(v.as_str());
        Some(q)
    }

    /// `INSERT` of every binding's value into its column; `None` without
    /// bindings.
    pub fn build_insert(&self, values: &Vec<VarValue>, mode: EscapeMode) -> (r: Option<String>)
        requires
            values@.len() == self.variables@.len(),
        ensures
            text_opt(r) == insert_query(*self, values@, mode),
    {
        if self.variables.len() == 0 {
            return None;
        }
        let cols = self.column_list();
        let vals = self.value_list(values, mode);
        let mut q = String::from_str("INSERT INTO ");
        let t = quote_ident(self.table.as_str());
        q.append(t.as_str());
        q.append(" (");
        let c = join_strings(&cols, ", ");
        q.append(c.as_str());
        q.append(") VALUES (");
        let v = join_strings(&vals, ", ");
        q.append(v.as_str());
        q.append(")");
        Some(q)
    }

    /// `UPDATE` setting every bound column to its binding's value, for the
    /// row whose key column holds the key variable's value. `None` without a
    /// key, without bindings, or when the key column has no binding.
    pub fn build_update(&self, values: &Vec<VarValue>, mode: EscapeMode) -> (r: Option<String>)
        requires
            values@.len() == self.variables@.len(),
        ensures
            text_opt(r) == update_query(*self, values@, mode),
    {
        let k = match self.key_var() {
            Some(k) => k,
            None => return None,
        };
        let key = match &self.key_column {
            Some(key) => key,
            None => return None,
        };
        let mut sets: Vec<String> = Vec::new();
        let mut i: usize = 0;
        while i < self.variables.len()
            invariant
                i <= self.variables@.len(),
                values@.len() == self.variables@.len(),
                sets@.map_values(|s: String| s@) == assignments_of(
                    self.variables@.take(i as int),
                    values@.take(i as int),
                    mode,
                ),
            decreases self.variables@.len() - i,
        {
            let ghost before = sets@.map_values(|s: String| s@);
            let mut a = quote_ident(self.variables[i].column_name());
            a.append(" = ");
            let v = sql_value(&values[i], mode);
            a.append(v.as_str());
            sets.push(a);
            proof {
                assert(sets@.map_values(|s: String| s@) =~= before.push(a@));
                assert(sets@.map_values(|s: String| s@) =~= assignments_of(
                    self.variables@.take(i + 1),
                    values@.take(i + 1),
                    mode,
                ));
            }
            i = i + 1;
        }
        proof {
            assert(self.variables@.take(i as int) =~= self.variables@);
            assert(values@.take(i as int) =~= values@);
        }
        let mut q = String::from_str("UPDATE ");
        let t = quote_ident(self.table.as_str());
        q.append(t.as_str());
        q.append(" SET ");
        let s = join_strings(&sets, ", ");
        q.append(s.as_str());
        q.append(" WHERE ");
        let kq = quote_ident(key.as_str());
        q.append(kq.as_str());
        q.append(" = ");
        let v = sql_value(&values[k], mode);
        q.append(v.as_str());
        Some(q)
    }

    /// `DELETE` of the row whose key column holds the key variable's value.
    /// `None` without a key or when the key column has no binding.
    pub fn build_delete(&self, values: &Vec<VarValue>, mode: EscapeMode) -> (r: Option<String>)
        requires
            values@.len() == self.variables@.len(),
        ensures
            text_opt(r) == delete_query(*self, values@, mode),
    {
        let k = match self.key_var() {
            Some(k) => k,
            None => return None,
        };
        let key = match &self.key_column {
            Some(key) => key,
            None => return None,
        };
        let mut q = String::from_str("DELETE FROM ");
        let t = quote_ident(self.table.as_str());
        q.append(t.as_str());
        q.append(" WHERE ");
        let kq = quote_ident(key.as_str());
        q.append(kq.as_str());
        q.append(" = ");
        let v = sql_value(&values[k], mode);
        q.append(v.as_str());
        Some(q)
    }

    /// Whether the key is unset: no key column, no binding for it, or a key
    /// variable holding 0, 0.0 or an empty string. `orm_save` inserts then,
    /// and updates otherwise.
    pub fn is_key_empty(&self, values: &Vec<VarValue>) -> (b: bool)
        requires
            values@.len() == self.variables@.len(),
        ensures
            b == key_is_empty(*self, values@),
    {
        let k = match self.key_var() {
            Some(k) => k,
            None => return true,
        };
        match &values[k] {
            VarValue::Int(i) => *i == 0,
            VarValue::Float { zero, .. } => *zero,
            VarValue::Str(s) => s.as_str().unicode_len() == 0,
        }
    }

    /// What row `row` of the active result set of `cache` writes into the
    /// bound variables: for each binding whose column the set has and whose
    /// cell is not NULL, in binding order.
    pub fn cache_writes(&self, cache: &CacheEntry, row: usize) -> (r: Vec<CacheWrite>)
        ensures
            r@.map_values(|w: CacheWrite| write_view(w)) == writes_from(
                self.variables@,
                0,
                cache@.active_set(),
                row as int,
            ),
    {
        let ghost set = cache@.active_set();
        let mut out: Vec<CacheWrite> = Vec::new();
        let mut i: usize = self.variables.len();
        proof {
            assert(out@.map_values(|w: CacheWrite| write_view(w)) =~= Seq::<WriteView>::empty());
        }
        while i > 0
            invariant
                i <= self.variables@.len(),
                set == cache@.active_set(),
                out@.map_values(|w: CacheWrite| write_view(w)) == writes_from(
                    self.variables@,
                    i as int,
                    set,
                    row as int,
                ),
            decreases i,
        {
            let var = &self.variables[i - 1];
            let ghost rest = out@.map_values(|w: CacheWrite| write_view(w));
            let cell = match cache.field_index(var.column_name()) {
                Some(col) => match cache.get_value(row, col) {
                    Some(Some(v)) => Some(v),
                    _ => None,
                },
                None => None,
            };
            proof {
                match cell {
                    Some(v) => assert(cell_named(set, row as int, col_of(*var)) == Some(v@)),
                    None => assert(cell_named(set, row as int, col_of(*var)) is None),
                }
            }
            if let Some(v) = cell {
                let w = write_of(var, v.as_str());
                match w {
                    Some(w) => {
                        out.insert(0, w);
                        proof {
                            assert(out@.map_values(|w: CacheWrite| write_view(w)) =~= seq![
                                write_view(w),
                            ] + rest);
                        }
                    },
                    None => {},
                }
            }
            i = i - 1;
        }
        out
    }

    /// Binds one more variable.
    pub fn add_var(&mut self, binding: OrmVarBinding)
        ensures
            final(self).variables@ == old(self).variables@.push(binding),
            final(self).table == old(self).table,
            final(self).conn_id == old(self).conn_id,
            final(self).key_column == old(self).key_column,
            final(self).errno == old(self).errno,
            final(self).amx_ident == old(self).amx_ident,
    {
        self.variables.push(binding);
    }

    /// Unbinds every variable of `column` (exact match); `true` when there
    /// was one.
    pub fn del_var(&mut self, column: &str) -> (removed: bool)
        ensures
            final(self).variables@ == without_column(old(self).variables@, column@),
            removed == (exists|i: int|
                0 <= i < old(self).variables@.len() && col_of(#[trigger] old(self).variables@[i])
                    == column@),
            final(self).table == old(self).table,
            final(self).conn_id == old(self).conn_id,
            final(self).key_column == old(self).key_column,
            final(self).errno == old(self).errno,
            final(self).amx_ident == old(self).amx_ident,
    {
        let ghost vars = self.variables@;
        let before = self.variables.len();
        let mut rest: Vec<OrmVarBinding> = Vec::new();
        std::mem::swap(&mut rest, &mut self.variables);
        let mut kept: Vec<OrmVarBinding> = Vec::new();
        proof {
            assert(vars.take(0) =~= Seq::<OrmVarBinding>::empty());
            assert(vars.skip(0) =~= vars);
        }
        while rest.len() > 0
            invariant
                rest@.len() <= vars.len(),
                rest@ == vars.skip(vars.len() - rest@.len()),
                kept@ == without_column(vars.take(vars.len() - rest@.len()), column@),
            decreases rest@.len(),
        {
            let ghost i = vars.len() - rest@.len();
            let v = rest.remove(0);
            proof {
                assert(v == vars[i]);
                assert(vars.take(i + 1).drop_last() =~= vars.take(i));
                assert(vars.take(i + 1).last() == vars[i]);
                assert(rest@ =~= vars.skip(i + 1));
            }
            if !str_eq(v.column_name(), column) {
                kept.push(v);
            }
        }
        proof {
            assert(vars.take(vars.len() as int) =~= vars);
            lemma_without_column_len(vars, column@);
        }
        self.variables = kept;
        self.variables.len() < before
    }

    /// Unbinds every variable.
    pub fn clear_vars(&mut self)
        ensures
            final(self).variables@.len() == 0,
            final(self).table == old(self).table,
            final(self).conn_id == old(self).conn_id,
            final(self).key_column == old(self).key_column,
            final(self).errno == old(self).errno,
            final(self).amx_ident == old(self).amx_ident,
    {
        self.variables.clear();
    }

    /// Makes `column` the key column.
    pub fn set_key(&mut self, column: String)
        ensures
            final(self).key_column == Some(column),
            final(self).variables == old(self).variables,
            final(self).table == old(self).table,
            final(self).conn_id == old(self).conn_id,
            final(self).errno == old(self).errno,
            final(self).amx_ident == old(self).amx_ident,
    {
        self.key_column = Some(column);
    }
}


/// The ORM instances by handle.
pub struct OrmManager {
    instances: IdMap<OrmInstance>,
    /// The handle the next `create` hands out.
    pub next_id: i32,
}

impl OrmManager {
    pub closed spec fn instances(&self) -> Map<i32, OrmInstance> {
        self.instances@
    }

    pub closed spec fn next(&self) -> i32 {
        self.next_id
    }

    /// Handles are positive.
    pub closed spec fn wf(&self) -> bool {
        self.instances.wf() && self.next_id >= 1
    }

    pub fn new() -> (m: Self)
        ensures
            m.wf(),
            m.instances() == Map::<i32, OrmInstance>::empty(),
            m.next() == 1,
    {
        OrmManager { instances: IdMap::new(), next_id: 1 }
    }

    /// A new instance for `table` on `conn_id`; returns its handle.
    pub fn create(&mut self, table: String, conn_id: i32, amx_ident: usize) -> (id: i32)
        requires
            old(self).wf(),
        ensures
            final(self).wf(),
            id == old(self).next(),
            id >= 1,
            final(self).next() == next_handle(old(self).next()),
            final(self).instances().dom() == old(self).instances().dom().insert(id),
            forall|k: i32| #[trigger] final(self).instances().contains_key(k) && k != id
                ==> final(self).instances()[k] == old(self).instances()[k],
            final(self).instances()[id].table == table,
            final(self).instances()[id].conn_id == conn_id,
            final(self).instances()[id].amx_ident == amx_ident,
            final(self).instances()[id].key_column is None,
            final(self).instances()[id].variables@.len() == 0,
            final(self).instances()[id].errno == OrmError::NoError,
    {
        let id = self.next_id;
        self.next_id = advance_handle(self.next_id);
        self.instances.insert(id, OrmInstance::new(table, conn_id, amx_ident));
        id
    }

    /// Forgets an instance; `false` when the handle is unknown.
    pub fn destroy(&mut self, id: i32) -> (ok: bool)
        requires
            old(self).wf(),
        ensures
            final(self).wf(),
            final(self).next() == old(self).next(),
            ok == old(self).instances().contains_key(id),
            final(self).instances() == old(self).instances().remove(id),
    {
        self.instances.remove(id).is_some()
    }

    pub fn get(&self, id: i32) -> (r: Option<&OrmInstance>)
        requires
            self.wf(),
        ensures
            match r {
                Some(o) => self.instances().contains_key(id) && *o == self.instances()[id],
                None => !self.instances().contains_key(id),
            },
    {
        self.instances.get(id)
    }

    /// The instance of `id`, to change; what is written through it becomes
    /// that instance.
    pub fn get_mut(&mut self, id: i32) -> (r: Option<&mut OrmInstance>)
        requires
            old(self).wf(),
        ensures
            match r {
                Some(o) => {
                    &&& old(self).instances().contains_key(id)
                    &&& *o == old(self).instances()[id]
                    &&& final(self).wf()
                    &&& final(self).next() == old(self).next()
                    &&& final(self).instances() == old(self).instances().insert(id, *final(o))
                },
                None => !old(self).instances().contains_key(id) && *final(self) == *old(self),
            },
    {
        self.instances.get_mut(id)
    }

    /// Drops every instance created by the unloaded script `ident`.
    pub fn destroy_by_amx(&mut self, ident: usize)
        requires
            old(self).wf(),
        ensures
            final(self).wf(),
            final(self).next() == old(self).next(),
            final(self).instances() == without_owner(old(self).instances(), Owner::Amx(ident)),
    {
        self.instances.remove_owned(Owner::Amx(ident));
    }
}


/// One of the five threaded CRUD operations.
#[derive(Clone, Copy, Debug, PartialEq, Eq, Structural)]
pub enum OrmOp {
    Select,
    Update,
    Insert,
    Delete,
    /// `Insert` when the key is empty, `Update` otherwise.
    Save,
}

pub open spec fn op_name(op: OrmOp) -> Seq<char> {
    match op {
        OrmOp::Select => "select"@,
        OrmOp::Update => "update"@,
        OrmOp::Insert => "insert"@,
        OrmOp::Delete => "delete"@,
        OrmOp::Save => "save"@,
    }
}

pub open spec fn op_detail(op: OrmOp) -> Seq<char> {
    match op {
        OrmOp::Select => "key column not set or no variables bound"@,
        OrmOp::Update => "key column not set or no variables bound"@,
        OrmOp::Insert => "no variables bound"@,
        OrmOp::Delete => "key column not set"@,
        OrmOp::Save => "cannot build query"@,
    }
}

impl OrmOp {
    /// The name used in messages.
    pub fn name(self) -> (s: &'static str)
        ensures
            s@ == op_name(self),
    {
        match self {
            OrmOp::Select => "select",
            OrmOp::Update => "update",
            OrmOp::Insert => "insert",
            OrmOp::Delete => "delete",
            OrmOp::Save => "save",
        }
    }

    /// The error recorded when no query can be built.
    pub fn build_error_code(self) -> (e: crate::error::MysqlError)
        ensures
            e == (match self {
                OrmOp::Select | OrmOp::Update | OrmOp::Delete => crate::error::MysqlError::OrmKeyNotSet,
                OrmOp::Insert | OrmOp::Save => crate::error::MysqlError::InvalidOrm,
            }),
    {
        match self {
            OrmOp::Select | OrmOp::Update | OrmOp::Delete => crate::error::MysqlError::OrmKeyNotSet,
            OrmOp::Insert | OrmOp::Save => crate::error::MysqlError::InvalidOrm,
        }
    }

    /// The cause named when no query can be built.
    pub fn build_error_detail(self) -> (s: &'static str)
        ensures
            s@ == op_detail(self),
    {
        match self {
            OrmOp::Select | OrmOp::Update => "key column not set or no variables bound",
            OrmOp::Insert => "no variables bound",
            OrmOp::Delete => "key column not set",
            OrmOp::Save => "cannot build query",
        }
    }

    /// The query for `inst` with the current `values` of its bindings.
    pub fn build(self, inst: &OrmInstance, values: &Vec<VarValue>, mode: EscapeMode) -> (r: Option<
        String,
    >)
        requires
            values@.len() == inst.variables@.len(),
        ensures
            text_opt(r) == op_query(self, *inst, values@, mode),
    {
        match self {
            OrmOp::Select => inst.build_select(values, mode),
            OrmOp::Update => inst.build_update(values, mode),
            OrmOp::Insert => inst.build_insert(values, mode),
            OrmOp::Delete => inst.build_delete(values, mode),
            OrmOp::Save => {
                if inst.is_key_empty(values) {
                    inst.build_insert(values, mode)
                } else {
                    inst.build_update(values, mode)
                }
            },
        }
    }
}


/// `i` is the first binding of `vars` bound to column `key`.
pub open spec fn first_binding_of(vars: Seq<OrmVarBinding>, key: Seq<char>, i: int) -> bool {
    &&& 0 <= i < vars.len()
    &&& col_of(vars[i]) == key
    &&& forall|j: int| 0 <= j < i ==> col_of(#[trigger] vars[j]) != key
}

proof fn lemma_key_index_is_first(vars: Seq<OrmVarBinding>, key: Seq<char>, i: int)
    requires
        0 <= i <= vars.len(),
    ensures
        forall|j: int| i <= j < key_index(vars, key, i) ==> col_of(#[trigger] vars[j]) != key,
    decreases vars.len() - i,
{
    if i < vars.len() && col_of(vars[i]) != key {
        lemma_key_index_is_first(vars, key, i + 1);
    }
}

/// The first binding to a column is unique, and it is where `key_index`
/// stops.
proof fn lemma_first_binding(vars: Seq<OrmVarBinding>, key: Seq<char>, i: int)
    requires
        first_binding_of(vars, key, i),
    ensures
        key_index(vars, key, 0) == i,
{
    lemma_key_index(vars, key, 0);
    lemma_key_index_is_first(vars, key, 0);
    let k = key_index(vars, key, 0);
    if k < i {
        assert(col_of(vars[k]) != key);
    } else if k > i {
        assert(col_of(vars[i]) != key);
    }
}

/// The row a keyed query addresses is the one whose key column holds the
/// value of the key variable: for `DELETE`, `SELECT` and `UPDATE`, the
/// `WHERE` clause compares the key column with the SQL text of the value of
/// the first binding to that column, wherever it stands among the bindings.
/// Without a key column, or with no binding to it, no keyed query is built.
pub proof fn lemma_where_uses_the_key_variable(inst: OrmInstance, vals: Seq<VarValue>, mode: EscapeMode)
    ensures
        (delete_query(inst, vals, mode) is Some) <==> (inst.key_column is Some && exists|i: int|
            first_binding_of(inst.variables@, inst.key_column->0@, i)),
        (select_query(inst, vals, mode) is Some) <==> (delete_query(inst, vals, mode) is Some),
        (update_query(inst, vals, mode) is Some) <==> (delete_query(inst, vals, mode) is Some),
        forall|i: int|
            inst.key_column is Some && #[trigger] first_binding_of(inst.variables@, inst.key_column->0@, i) ==> {
                let key = inst.key_column->0@;
                let clause = " WHERE "@ + quoted(key) + " = "@ + sql_of(vals[i], mode);
                &&& delete_query(inst, vals, mode) == Some("DELETE FROM "@ + quoted(inst.table@) + clause)
                &&& select_query(inst, vals, mode) matches Some(t) && t.len() >= clause.len() && t.subrange(
                    t.len() - clause.len(),
                    t.len() as int,
                ) == clause
                &&& update_query(inst, vals, mode) matches Some(t) && t.len() >= clause.len() && t.subrange(
                    t.len() - clause.len(),
                    t.len() as int,
                ) == clause
            },
{
    let vars = inst.variables@;
    match inst.key_column {
        None => {},
        Some(key) => {
            lemma_key_index(vars, key@, 0);
            lemma_key_index_is_first(vars, key@, 0);
            let k = key_index(vars, key@, 0);
            if k < vars.len() {
                assert(first_binding_of(vars, key@, k));
            } else {
                assert forall|i: int| !first_binding_of(vars, key@, i) by {
                    if first_binding_of(vars, key@, i) {
                        lemma_first_binding(vars, key@, i);
                    }
                }
            }
            assert forall|i: int| #[trigger] first_binding_of(vars, key@, i) implies {
                let clause = " WHERE "@ + quoted(key@) + " = "@ + sql_of(vals[i], mode);
                &&& delete_query(inst, vals, mode) == Some("DELETE FROM "@ + quoted(inst.table@) + clause)
                &&& select_query(inst, vals, mode) matches Some(t) && t.len() >= clause.len() && t.subrange(
                    t.len() - clause.len(),
                    t.len() as int,
                ) == clause
                &&& update_query(inst, vals, mode) matches Some(t) && t.len() >= clause.len() && t.subrange(
                    t.len() - clause.len(),
                    t.len() as int,
                ) == clause
            } by {
                lemma_first_binding(vars, key@, i);
                let clause = " WHERE "@ + quoted(key@) + " = "@ + sql_of(vals[i], mode);
                let d = "DELETE FROM "@ + quoted(inst.table@) + " WHERE "@ + quoted(key@) + " = "@ + sql_of(vals[i], mode);
                assert(d =~= "DELETE FROM "@ + quoted(inst.table@) + clause);
                let sp = "SELECT "@ + join_with(columns_of(vars), ", "@) + " FROM "@ + quoted(inst.table@);
                let s = sp + " WHERE "@ + quoted(key@) + " = "@ + sql_of(vals[i], mode);
                assert(s =~= sp + clause);
                assert((sp + clause).subrange(sp.len() as int, (sp + clause).len() as int) =~= clause);
                let up = "UPDATE "@ + quoted(inst.table@) + " SET "@ + join_with(assignments_of(vars, vals, mode), ", "@);
                let u = up + " WHERE "@ + quoted(key@) + " = "@ + sql_of(vals[i], mode);
                assert(u =~= up + clause);
                assert((up + clause).subrange(up.len() as int, (up + clause).len() as int) =~= clause);
            }
        },
    }
}

/// Whether the key is unset, which decides between `INSERT` and `UPDATE` for
/// `orm_save`, is read from the first binding to the key column: an integer
/// key is unset when 0, a float key when zero, a string key exactly when its
/// text is empty. A set key makes `orm_save` build the `UPDATE` (so a row
/// whose string key holds text is updated, not inserted again); an unset one
/// the `INSERT`. No key column, or no binding to it, counts as unset.
pub proof fn lemma_save_follows_the_key_variable(inst: OrmInstance, vals: Seq<VarValue>, mode: EscapeMode)
    ensures
        inst.key_column is None ==> key_is_empty(inst, vals),
        inst.key_column is Some && (forall|i: int| !first_binding_of(inst.variables@, inst.key_column->0@, i))
            ==> key_is_empty(inst, vals),
        forall|i: int|
            inst.key_column is Some && #[trigger] first_binding_of(inst.variables@, inst.key_column->0@, i)
                ==> key_is_empty(inst, vals) == match vals[i] {
                VarValue::Int(n) => n == 0,
                VarValue::Float { zero, .. } => zero,
                VarValue::Str(s) => s@.len() == 0,
            },
        key_is_empty(inst, vals) ==> op_query(OrmOp::Save, inst, vals, mode) == insert_query(inst, vals, mode),
        !key_is_empty(inst, vals) ==> op_query(OrmOp::Save, inst, vals, mode) == update_query(inst, vals, mode),
{
    let vars = inst.variables@;
    match inst.key_column {
        None => {},
        Some(key) => {
            lemma_key_index(vars, key@, 0);
            lemma_key_index_is_first(vars, key@, 0);
            let k = key_index(vars, key@, 0);
            if k < vars.len() {
                assert(first_binding_of(vars, key@, k));
            }
            assert forall|i: int| #[trigger] first_binding_of(vars, key@, i) implies key_is_empty(inst, vals)
                == match vals[i] {
                VarValue::Int(n) => n == 0,
                VarValue::Float { zero, .. } => zero,
                VarValue::Str(s) => s@.len() == 0,
            } by {
                lemma_first_binding(vars, key@, i);
            }
        },
    }
}

} // verus!
