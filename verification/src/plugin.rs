//! The plugin's state and what each script-facing function decides.
//!
//! The host reads a native's arguments out of the script, calls the method of
//! the same name here, and carries out what comes back (writing a string into
//! the script, starting a query on a worker). Everything in between, which
//! handle is valid, which error is recorded, which query is built, is here.
use vstd::prelude::*;

use crate::cache::{active_of, replace_active, CacheEntryView, CacheManager, CacheManagerView, ResultSetView};
use crate::num::{parse_i32, parse_i32_spec};
use crate::password::{password_len_ok, MAX_PASSWORD_LEN};
use crate::query::{CallbackInfo, CallbackParam};
use crate::text::{chars_of, utf8_len};
use crate::connection::{is_ok_state, status_keys, status_parts, ConnView, ConnectionManager};
use crate::text::join_with;
use crate::error::{error_code, ErrorState, MysqlError};
use crate::idmap::{without_owner, Owner};
use crate::limits::{self, limit_of_id, Limit, Limits};
use crate::options::{
    is_default_options, option_kind_of, same_options, set_int_spec, set_str_spec, MysqlOptionKind,
    MysqlOptions, OptionsManager,
};
use crate::orm::{
    cell_named, col_of, op_detail, op_name, op_query, writes_from, CacheWrite, OrmError, OrmInstance, OrmManager,
    OrmOp, OrmVarBinding, VarValue, write_view, without_column,
};
use crate::connection::EscapeMode;
use crate::num::{nat_text, u64_text};
use crate::sql::placeholder_count;
use crate::stmt::{Statement, StmtManager};
use crate::transaction::{Transaction, TransactionManager, TxStep, MAX_TX_STEPS};

verus! {

broadcast use vstd::string::group_string_axioms;

/// Everything the plugin keeps between calls.
pub struct PluginCore {
    pub connections: ConnectionManager,
    pub options: OptionsManager,
    pub cache: CacheManager,
    pub orm: OrmManager,
    pub stmts: StmtManager,
    pub transactions: TransactionManager,
    pub limits: Limits,
    /// The loaded scripts, in load order.
    pub amx_list: Vec<usize>,
}

/// `e` is the error `code` with message `msg`.
pub open spec fn is_error(e: ErrorState, code: MysqlError, msg: Seq<char>) -> bool {
    e.code == code && e.message@ == msg
}

/// `v` with every occurrence of `x` removed.
pub open spec fn without_ident(v: Seq<usize>, x: usize) -> Seq<usize>
    decreases v.len(),
{
    if v.len() == 0 {
        Seq::empty()
    } else {
        let rest = without_ident(v.drop_last(), x);
        if v.last() == x {
            rest
        } else {
            rest.push(v.last())
        }
    }
}

/// `after` is `before` with error `code`/`msg` recorded on connection `id`
/// (nothing changes when there is no such connection).
pub open spec fn error_recorded(
    before: ConnectionManager,
    after: ConnectionManager,
    id: i32,
    code: MysqlError,
    msg: Seq<char>,
) -> bool {
    &&& after.global() == before.global()
    &&& after.next() == before.next()
    &&& after.conns().dom() == before.conns().dom()
    &&& forall|k: i32| #[trigger] after.conns().contains_key(k) && k != id ==> after.conns()[k] == before.conns()[k]
    &&& before.conns().contains_key(id) ==> {
        &&& is_error(after.conns()[id].last_error, code, msg)
        &&& after.conns()[id].auto_reconnect == before.conns()[id].auto_reconnect
        &&& after.conns()[id].escape_mode == before.conns()[id].escape_mode
    }
}

impl PluginCore {
    pub open spec fn wf(&self) -> bool {
        &&& self.connections.wf()
        &&& self.options.wf()
        &&& self.cache.wf()
        &&& self.orm.wf()
        &&& self.stmts.wf()
        &&& self.transactions.wf()
        &&& self.limits.wf()
    }

    /// Fresh state: no handle of any kind, every cap at its default.
    pub fn new() -> (p: Self)
        ensures
            p.wf(),
            p.connections.conns() == Map::<i32, ConnView>::empty(),
            is_ok_state(p.connections.global()),
            p.connections.next() == 1,
            p.options.options() == Map::<i32, MysqlOptions>::empty(),
            p.options.next() == 1,
            p.cache@.stack == Seq::<CacheEntryView>::empty(),
            p.cache@.saved == Map::<i32, CacheEntryView>::empty(),
            p.cache@.next_saved_id == 1,
            p.cache@.manual is None,
            p.orm.instances() == Map::<i32, OrmInstance>::empty(),
            p.orm.next() == 1,
            p.stmts.statements() == Map::<i32, Statement>::empty(),
            p.stmts.next() == 1,
            p.transactions.transactions() == Map::<i32, Transaction>::empty(),
            p.transactions.next() == 1,
            p.limits.cap(Limit::SavedCaches) == limits::DEFAULT_SAVED_CACHES,
            p.limits.cap(Limit::ResultRows) == limits::DEFAULT_RESULT_ROWS,
            p.limits.cap(Limit::OrmStringLen) == limits::DEFAULT_ORM_STRING_LEN,
            p.amx_list@.len() == 0,
    {
        PluginCore {
            connections: ConnectionManager::new(),
            options: OptionsManager::new(),
            cache: CacheManager::new(),
            orm: OrmManager::new(),
            stmts: StmtManager::new(),
            transactions: TransactionManager::new(),
            limits: Limits::new(),
            amx_list: Vec::new(),
        }
    }

    /// A script was loaded.
    pub fn on_amx_load(&mut self, ident: usize)
        ensures
            final(self).amx_list@ == old(self).amx_list@.push(ident),
    {
        self.amx_list.push(ident);
    }

    /// A script was unloaded: it leaves the list, and every ORM instance,
    /// statement and transaction it created is dropped, so that restarting a
    /// gamemode does not leak its handles.
    pub fn on_amx_unload(&mut self, ident: usize)
        requires
            old(self).wf(),
        ensures
            final(self).wf(),
            final(self).amx_list@ == without_ident(old(self).amx_list@, ident),
            final(self).orm.instances() == without_owner(old(self).orm.instances(), Owner::Amx(ident)),
            final(self).stmts.statements() == without_owner(
                old(self).stmts.statements(),
                Owner::Amx(ident),
            ),
            final(self).transactions.transactions() == without_owner(
                old(self).transactions.transactions(),
                Owner::Amx(ident),
            ),
            final(self).connections == old(self).connections,
    {
        let mut kept: Vec<usize> = Vec::new();
        let mut i: usize = 0;
        while i < self.amx_list.len()
            invariant
                i <= self.amx_list@.len(),
                kept@ == without_ident(self.amx_list@.take(i as int), ident),
            decreases self.amx_list@.len() - i,
        {
            proof {
                assert(self.amx_list@.take(i + 1).drop_last() =~= self.amx_list@.take(i as int));
            }
            if self.amx_list[i] != ident {
                kept.push(self.amx_list[i]);
            }
            i = i + 1;
        }
        proof {
            assert(self.amx_list@.take(i as int) =~= self.amx_list@);
        }
        self.amx_list = kept;
        self.orm.destroy_by_amx(ident);
        self.stmts.destroy_by_amx(ident);
        self.transactions.destroy_by_amx(ident);
    }

    /// The options `mysql_connect` uses: the defaults for handle 0, a copy of
    /// the handle's options otherwise. An unknown handle records
    /// `InvalidOptions` and gives `None` (the connect then fails with 0).
    pub fn mysql_connect_options(&mut self, options_id: i32) -> (r: Option<MysqlOptions>)
        requires
            old(self).wf(),
        ensures
            final(self).wf(),
            options_id == 0 ==> (r matches Some(o) && is_default_options(o)),
            options_id != 0 && old(self).options.options().contains_key(options_id) ==> (r matches Some(o)
                && same_options(o, old(self).options.options()[options_id])),
            options_id != 0 && !old(self).options.options().contains_key(options_id) ==> r is None
                && is_error(final(self).connections.global(), MysqlError::InvalidOptions, "Invalid options handle."@)
                && final(self).connections.conns() == old(self).connections.conns()
                && final(self).connections.next() == old(self).connections.next(),
            r is Some ==> final(self).connections == old(self).connections,
            final(self).options == old(self).options,
            final(self).stmts == old(self).stmts,
            final(self).transactions == old(self).transactions,
    {
        if options_id == 0 {
            return Some(MysqlOptions::default());
        }
        match self.options.get(options_id) {
            Some(o) => Some(o.duplicate()),
            None => {
                self.connections.set_global_error(
                    ErrorState::new(MysqlError::InvalidOptions, "Invalid options handle."),
                );
                None
            },
        }
    }

    /// `mysql_close`: closes the connection and drops the statements and
    /// transactions bound to it, which could never run again.
    pub fn mysql_close(&mut self, conn_id: i32) -> (ok: bool)
        requires
            old(self).wf(),
        ensures
            final(self).wf(),
            ok == old(self).connections.conns().contains_key(conn_id),
            final(self).connections.conns() == old(self).connections.conns().remove(conn_id),
            ok ==> final(self).stmts.statements() == without_owner(
                old(self).stmts.statements(),
                Owner::Conn(conn_id),
            ),
            ok ==> final(self).transactions.transactions() == without_owner(
                old(self).transactions.transactions(),
                Owner::Conn(conn_id),
            ),
            !ok ==> final(self).stmts == old(self).stmts,
            !ok ==> final(self).transactions == old(self).transactions,
    {
        if self.connections.disconnect(conn_id) {
            self.stmts.destroy_by_conn(conn_id);
            self.transactions.destroy_by_conn(conn_id);
            true
        } else {
            false
        }
    }

    /// `mysql_status` once the server was asked: the status line when the
    /// rows came back; otherwise `PingFailed` is recorded on the connection.
    pub fn mysql_status(&mut self, conn_id: i32, rows: Option<Vec<(String, String)>>) -> (r: Option<String>)
        requires
            old(self).wf(),
        ensures
            final(self).wf(),
            rows is Some ==> (r matches Some(s) && s@ == join_with(
                status_parts(rows->0@, status_keys()),
                "  "@,
            )),
            rows is Some ==> final(self).connections == old(self).connections,
            rows is None ==> r is None && error_recorded(
                old(self).connections,
                final(self).connections,
                conn_id,
                MysqlError::PingFailed,
                "Failed to retrieve server status."@,
            ),
    {
        match rows {
            Some(rows) => Some(crate::connection::format_status(&rows)),
            None => {
                self.connections.set_error(
                    conn_id,
                    ErrorState::new(MysqlError::PingFailed, "Failed to retrieve server status."),
                );
                proof {
                    assert(self.connections.conns().dom() =~= old(self).connections.conns().dom());
                }
                None
            },
        }
    }

    /// `mysql_errno`: the code of the connection's last error (the global one
    /// for handle 0 and unknown handles).
    pub fn mysql_errno(&self, conn_id: i32) -> (c: i32)
        requires
            self.wf(),
        ensures
            c == error_code(
                if conn_id != 0 && self.connections.conns().contains_key(conn_id) {
                    self.connections.conns()[conn_id].last_error
                } else {
                    self.connections.global()
                }.code,
            ),
    {
        self.connections.get_error(conn_id).code.code()
    }

    /// `mysql_error`: the message of that same error.
    pub fn mysql_error(&self, conn_id: i32) -> (m: &str)
        requires
            self.wf(),
        ensures
            m@ == (if conn_id != 0 && self.connections.conns().contains_key(conn_id) {
                self.connections.conns()[conn_id].last_error
            } else {
                self.connections.global()
            }).message@,
    {
        self.connections.get_error(conn_id).message.as_str()
    }

    /// `mysql_limit_set`: an unknown limit is refused; so are zero and
    /// negative values.
    pub fn mysql_limit_set(&mut self, limit: i32, value: i32) -> (ok: bool)
        requires
            old(self).wf(),
        ensures
            final(self).wf(),
            ok == (limit_of_id(limit) is Some && value > 0),
            ok ==> final(self).limits.cap(limit_of_id(limit)->0) == value as usize,
            forall|other: Limit|
                (!ok || Some(other) != limit_of_id(limit)) ==> #[trigger] final(self).limits.cap(other)
                    == old(self).limits.cap(other),
    {
        match Limit::from_id(limit) {
            Some(l) => limits::set(&mut self.limits, l, value),
            None => false,
        }
    }

    /// `mysql_limit_get`: the cap, saturated to `i32`; 0 for an unknown
    /// limit.
    pub fn mysql_limit_get(&self, limit: i32) -> (v: i32)
        ensures
            v == (match limit_of_id(limit) {
                Some(l) => if self.limits.cap(l) > i32::MAX {
                    i32::MAX as int
                } else {
                    self.limits.cap(l) as int
                },
                None => 0,
            }),
    {
        match Limit::from_id(limit) {
            Some(l) => {
                let v = limits::get(&self.limits, l);
                if v > i32::MAX as usize {
                    i32::MAX
                } else {
                    v as i32
                }
            },
            None => 0,
        }
    }

    /// `mysql_options_set_int`: an unknown option number is refused.
    pub fn mysql_options_set_int(&mut self, handle: i32, option: i32, value: i32) -> (ok: bool)
        requires
            old(self).wf(),
        ensures
            final(self).wf(),
            ok == (option_kind_of(option) is Some && old(self).options.options().contains_key(handle)
                && set_int_spec(old(self).options.options()[handle], option_kind_of(option)->0, value) is Some),
            ok ==> final(self).options.options() == old(self).options.options().insert(
                handle,
                set_int_spec(old(self).options.options()[handle], option_kind_of(option)->0, value)->0,
            ),
            !ok ==> final(self).options.options() == old(self).options.options(),
    {
        match MysqlOptionKind::from_i32(option) {
            Some(kind) => self.options.set_int(handle, kind, value),
            None => false,
        }
    }

    /// `mysql_options_set_str`: an unknown option number is refused.
    pub fn mysql_options_set_str(&mut self, handle: i32, option: i32, value: String) -> (ok: bool)
        requires
            old(self).wf(),
        ensures
            final(self).wf(),
            ok == (option_kind_of(option) is Some && old(self).options.options().contains_key(handle)
                && set_str_spec(old(self).options.options()[handle], option_kind_of(option)->0, value) is Some),
            ok ==> final(self).options.options() == old(self).options.options().insert(
                handle,
                set_str_spec(old(self).options.options()[handle], option_kind_of(option)->0, value)->0,
            ),
            !ok ==> final(self).options.options() == old(self).options.options(),
    {
        match MysqlOptionKind::from_i32(option) {
            Some(kind) => self.options.set_str(handle, kind, value),
            None => false,
        }
    }
}

/// `mysql_unprocessed_queries`: a count saturated to `i32`.
pub fn saturate_i32(n: u64) -> (v: i32)
    ensures
        v == (if n > i32::MAX {
            i32::MAX as int
        } else {
            n as int
        }),
{
    if n > i32::MAX as u64 {
        i32::MAX
    } else {
        n as i32
    }
}


/// A prepared statement ready to run on a worker.
pub struct PreparedRun {
    pub query: String,
    pub params: Vec<mysql::Value>,
    pub conn_id: i32,
    pub pool: mysql::Pool,
    pub auto_reconnect: bool,
}

/// A transaction ready to run on a worker.
pub struct TransactionRun {
    pub steps: Vec<TxStep>,
    pub conn_id: i32,
    pub pool: mysql::Pool,
}

/// The message for a statement whose bound values do not match its
/// placeholders.
pub open spec fn arity_message(prefix: Seq<char>, expected: nat, bound: nat) -> Seq<char> {
    prefix + " failed: statement has "@ + nat_text(expected) + " placeholder(s) but "@ + nat_text(
        bound,
    ) + " value(s) were bound."@
}

fn arity_text(prefix: &str, expected: usize, bound: usize) -> (m: String)
    ensures
        m@ == arity_message(prefix@, expected as nat, bound as nat),
{
    let mut m = String::from_str(prefix);
    m.append(" failed: statement has ");
    let e = u64_text(expected as u64);
    m.append(e.as_str());
    m.append(" placeholder(s) but ");
    let b = u64_text(bound as u64);
    m.append(b.as_str());
    m.append(" value(s) were bound.");
    m
}

impl PluginCore {
    /// `mysql_stmt_new`: a statement on an open connection, or 0 with
    /// `InvalidConnection` recorded.
    pub fn mysql_stmt_new(&mut self, conn_id: i32, amx_ident: usize, query: String) -> (id: i32)
        requires
            old(self).wf(),
        ensures
            final(self).wf(),
            old(self).connections.conns().contains_key(conn_id) ==> {
                &&& id == old(self).stmts.next()
                &&& final(self).stmts.statements().dom() == old(self).stmts.statements().dom().insert(id)
                &&& final(self).stmts.statements()[id].conn_id == conn_id
                &&& final(self).stmts.statements()[id].amx_ident == amx_ident
                &&& final(self).stmts.statements()[id].query == query
                &&& final(self).stmts.statements()[id].params@.len() == 0
                &&& final(self).connections == old(self).connections
            },
            !old(self).connections.conns().contains_key(conn_id) ==> {
                &&& id == 0
                &&& final(self).stmts == old(self).stmts
                &&& final(self).connections.conns() == old(self).connections.conns()
                &&& is_error(
                    final(self).connections.global(),
                    MysqlError::InvalidConnection,
                    "mysql_stmt_new failed: invalid connection ID."@,
                )
            },
    {
        if !self.connections.is_open(conn_id) {
            self.connections.set_global_error(
                ErrorState::new(
                    MysqlError::InvalidConnection,
                    "mysql_stmt_new failed: invalid connection ID.",
                ),
            );
            return 0;
        }
        self.stmts.create(conn_id, amx_ident, query)
    }

    /// `mysql_stmt_execute`, up to handing the run to a worker. Refused when
    /// the statement is unknown; when the number of bound values differs from
    /// the number of placeholders (recorded as `QueryFailed`, naming both); or
    /// when its connection is gone (recorded as `InvalidConnection`).
    pub fn mysql_stmt_execute(&mut self, stmt_id: i32) -> (r: Option<PreparedRun>)
        requires
            old(self).wf(),
        ensures
            final(self).wf(),
            final(self).stmts == old(self).stmts,
            final(self).connections.conns() == old(self).connections.conns(),
            !old(self).stmts.statements().contains_key(stmt_id) ==> r is None && final(self).connections
                == old(self).connections,
            old(self).stmts.statements().contains_key(stmt_id) ==> {
                let s = old(self).stmts.statements()[stmt_id];
                let expected = placeholder_count(s.query@);
                if s.params@.len() != expected {
                    r is None && is_error(
                        final(self).connections.global(),
                        MysqlError::QueryFailed,
                        arity_message("mysql_stmt_execute"@, expected as nat, s.params@.len()),
                    )
                } else if !old(self).connections.conns().contains_key(s.conn_id) {
                    r is None && is_error(
                        final(self).connections.global(),
                        MysqlError::InvalidConnection,
                        "mysql_stmt_execute failed: invalid connection ID."@,
                    )
                } else {
                    &&& r is Some
                    &&& r->0.query@ == s.query@
                    &&& r->0.params@ == s.params@
                    &&& r->0.conn_id == s.conn_id
                    &&& r->0.pool == old(self).connections.conns()[s.conn_id].pool
                    &&& r->0.auto_reconnect == old(self).connections.conns()[s.conn_id].auto_reconnect
                    &&& final(self).connections == old(self).connections
                }
            },
    {
        let stmt = match self.stmts.get(stmt_id) {
            Some(s) => s,
            None => return None,
        };
        let expected = stmt.placeholder_count();
        if stmt.params.len() != expected {
            let msg = arity_text("mysql_stmt_execute", expected, stmt.params.len());
            self.connections.set_global_error(ErrorState::new(MysqlError::QueryFailed, msg));
            return None;
        }
        let query = String::from_str(stmt.query.as_str());
        let params = crate::stmt::clone_values(&stmt.params);
        let conn_id = stmt.conn_id;
        let pool = match self.connections.get_pool(conn_id) {
            Some(p) => p,
            None => {
                self.connections.set_global_error(
                    ErrorState::new(
                        MysqlError::InvalidConnection,
                        "mysql_stmt_execute failed: invalid connection ID.",
                    ),
                );
                return None;
            },
        };
        let auto_reconnect = self.connections.get_auto_reconnect(conn_id);
        Some(PreparedRun { query, params, conn_id, pool, auto_reconnect })
    }

    /// `mysql_transaction_new`: a batch on an open connection, or 0 with
    /// `InvalidConnection` recorded.
    pub fn mysql_transaction_new(&mut self, conn_id: i32, amx_ident: usize) -> (id: i32)
        requires
            old(self).wf(),
        ensures
            final(self).wf(),
            old(self).connections.conns().contains_key(conn_id) ==> {
                &&& id == old(self).transactions.next()
                &&& final(self).transactions.transactions().dom() == old(self).transactions.transactions().dom().insert(id)
                &&& final(self).transactions.transactions()[id].conn_id == conn_id
                &&& final(self).transactions.transactions()[id].amx_ident == amx_ident
                &&& final(self).transactions.transactions()[id].steps@.len() == 0
                &&& final(self).connections == old(self).connections
            },
            !old(self).connections.conns().contains_key(conn_id) ==> {
                &&& id == 0
                &&& final(self).transactions == old(self).transactions
                &&& final(self).connections.conns() == old(self).connections.conns()
                &&& is_error(
                    final(self).connections.global(),
                    MysqlError::InvalidConnection,
                    "mysql_transaction_new failed: invalid connection ID."@,
                )
            },
    {
        if !self.connections.is_open(conn_id) {
            self.connections.set_global_error(
                ErrorState::new(
                    MysqlError::InvalidConnection,
                    "mysql_transaction_new failed: invalid connection ID.",
                ),
            );
            return 0;
        }
        self.transactions.create(conn_id, amx_ident)
    }

    /// `mysql_transaction_add`: appends a plain SQL step.
    pub fn mysql_transaction_add(&mut self, tx_id: i32, query: String) -> (ok: bool)
        requires
            old(self).wf(),
        ensures
            final(self).wf(),
            ok == (old(self).transactions.transactions().contains_key(tx_id)
                && old(self).transactions.transactions()[tx_id].steps@.len() < MAX_TX_STEPS),
            ok ==> final(self).transactions.transactions()[tx_id].steps@.last().query == query,
            ok ==> final(self).transactions.transactions()[tx_id].steps@.last().params@.len() == 0,
            !ok ==> final(self).transactions == old(self).transactions,
    {
        self.transactions.add_step(tx_id, TxStep { query, params: Vec::new() })
    }

    /// `mysql_transaction_add_stmt`: appends a copy of a statement's query
    /// and bound values; the statement itself is untouched. Refused for an
    /// unknown statement and for one whose values do not match its
    /// placeholders.
    pub fn mysql_transaction_add_stmt(&mut self, tx_id: i32, stmt_id: i32) -> (ok: bool)
        requires
            old(self).wf(),
        ensures
            final(self).wf(),
            final(self).stmts == old(self).stmts,
            ok == (old(self).stmts.statements().contains_key(stmt_id)
                && old(self).stmts.statements()[stmt_id].params@.len() == placeholder_count(
                old(self).stmts.statements()[stmt_id].query@,
            ) && old(self).transactions.transactions().contains_key(tx_id)
                && old(self).transactions.transactions()[tx_id].steps@.len() < MAX_TX_STEPS),
            ok ==> final(self).transactions.transactions()[tx_id].steps@.last().query@ == old(
                self,
            ).stmts.statements()[stmt_id].query@,
            ok ==> final(self).transactions.transactions()[tx_id].steps@.last().params@ == old(
                self,
            ).stmts.statements()[stmt_id].params@,
            !ok ==> final(self).transactions == old(self).transactions,
    {
        let stmt = match self.stmts.get(stmt_id) {
            Some(s) => s,
            None => return false,
        };
        let expected = stmt.placeholder_count();
        if stmt.params.len() != expected {
            return false;
        }
        let step = TxStep { query: String::from_str(stmt.query.as_str()), params: crate::stmt::clone_values(&stmt.params) };
        self.transactions.add_step(tx_id, step)
    }

    /// `mysql_transaction_execute`, up to handing the batch to a worker. The
    /// batch is taken out, so it cannot be run twice. Refused, leaving it in
    /// place, when it is unknown or empty, or (recorded as
    /// `InvalidConnection`) when its connection is gone.
    pub fn mysql_transaction_execute(&mut self, tx_id: i32) -> (r: Option<TransactionRun>)
        requires
            old(self).wf(),
        ensures
            final(self).wf(),
            final(self).connections.conns() == old(self).connections.conns(),
            ({
                let txs = old(self).transactions.transactions();
                if !txs.contains_key(tx_id) || txs[tx_id].steps@.len() == 0 {
                    r is None && final(self).transactions == old(self).transactions
                        && final(self).connections == old(self).connections
                } else if !old(self).connections.conns().contains_key(txs[tx_id].conn_id) {
                    r is None && final(self).transactions == old(self).transactions && is_error(
                        final(self).connections.global(),
                        MysqlError::InvalidConnection,
                        "mysql_transaction_execute failed: invalid connection ID."@,
                    )
                } else {
                    &&& r is Some
                    &&& r->0.steps == txs[tx_id].steps
                    &&& r->0.conn_id == txs[tx_id].conn_id
                    &&& r->0.pool == old(self).connections.conns()[txs[tx_id].conn_id].pool
                    &&& final(self).transactions.transactions() == txs.remove(tx_id)
                    &&& final(self).connections == old(self).connections
                }
            }),
    {
        let tx = match self.transactions.get(tx_id) {
            Some(t) => t,
            None => return None,
        };
        if tx.steps.len() == 0 {
            return None;
        }
        let conn_id = tx.conn_id;
        let pool = match self.connections.get_pool(conn_id) {
            Some(p) => p,
            None => {
                self.connections.set_global_error(
                    ErrorState::new(
                        MysqlError::InvalidConnection,
                        "mysql_transaction_execute failed: invalid connection ID.",
                    ),
                );
                return None;
            },
        };
        match self.transactions.take(tx_id) {
            Some(t) => Some(TransactionRun { steps: t.steps, conn_id, pool }),
            None => None,
        }
    }

    /// Where `mysql_query` and `mysql_pquery` send a query: the connection's
    /// pool and whether it retries after a dropped connection. An unknown
    /// connection records `InvalidConnection`.
    pub fn query_target(&mut self, conn_id: i32) -> (r: Option<(mysql::Pool, bool)>)
        requires
            old(self).wf(),
        ensures
            final(self).wf(),
            final(self).connections.conns() == old(self).connections.conns(),
            old(self).connections.conns().contains_key(conn_id) ==> r is Some && {
                let (pool, retry) = r->0;
                &&& pool == old(self).connections.conns()[conn_id].pool
                &&& retry == old(self).connections.conns()[conn_id].auto_reconnect
            } && final(self).connections == old(self).connections,
            !old(self).connections.conns().contains_key(conn_id) ==> r is None && is_error(
                final(self).connections.global(),
                MysqlError::InvalidConnection,
                "Query failed: invalid connection ID."@,
            ),
    {
        match self.connections.get_pool(conn_id) {
            Some(pool) => Some((pool, self.connections.get_auto_reconnect(conn_id))),
            None => {
                self.connections.set_global_error(
                    ErrorState::new(MysqlError::InvalidConnection, "Query failed: invalid connection ID."),
                );
                None
            },
        }
    }

    /// A finished query failed: its message becomes the connection's error,
    /// as `QueryFailed`.
    pub fn query_failed(&mut self, conn_id: i32, message: &str)
        requires
            old(self).wf(),
        ensures
            final(self).wf(),
            error_recorded(old(self).connections, final(self).connections, conn_id, MysqlError::QueryFailed, message@),
    {
        self.connections.set_error(
            conn_id,
            ErrorState::new(MysqlError::QueryFailed, String::from_str(message)),
        );
        proof {
            assert(self.connections.conns().dom() =~= old(self).connections.conns().dom());
        }
    }
}


/// An ORM query ready to run on a worker, in submission order.
pub struct OrmRun {
    pub query: String,
    pub conn_id: i32,
    pub pool: mysql::Pool,
    pub auto_reconnect: bool,
}

/// `"ORM " + name + " failed: " + cause + "."`.
pub open spec fn orm_failure(name: Seq<char>, cause: Seq<char>) -> Seq<char> {
    "ORM "@ + name + " failed: "@ + cause + "."@
}

fn orm_failure_text(name: &str, cause: &str) -> (m: String)
    ensures
        m@ == orm_failure(name@, cause@),
{
    let mut m = String::from_str("ORM ");
    m.append(name);
    m.append(" failed: ");
    m.append(cause);
    m.append(".");
    m
}

impl PluginCore {
    /// `orm_create`: an instance for `table` on an open connection, or 0
    /// with `InvalidConnection` recorded.
    pub fn orm_create(&mut self, table: String, conn_id: i32, amx_ident: usize) -> (id: i32)
        requires
            old(self).wf(),
        ensures
            final(self).wf(),
            old(self).connections.conns().contains_key(conn_id) ==> {
                &&& id == old(self).orm.next()
                &&& final(self).orm.instances().dom() == old(self).orm.instances().dom().insert(id)
                &&& final(self).orm.instances()[id].table == table
                &&& final(self).orm.instances()[id].conn_id == conn_id
                &&& final(self).orm.instances()[id].amx_ident == amx_ident
                &&& final(self).connections == old(self).connections
            },
            !old(self).connections.conns().contains_key(conn_id) ==> {
                &&& id == 0
                &&& final(self).orm == old(self).orm
                &&& final(self).connections.conns() == old(self).connections.conns()
                &&& is_error(
                    final(self).connections.global(),
                    MysqlError::InvalidConnection,
                    "ORM create failed: invalid connection ID."@,
                )
            },
    {
        if !self.connections.is_open(conn_id) {
            self.connections.set_global_error(
                ErrorState::new(
                    MysqlError::InvalidConnection,
                    "ORM create failed: invalid connection ID.",
                ),
            );
            return 0;
        }
        self.orm.create(table, conn_id, amx_ident)
    }

    /// `orm_errno`: the instance's last ORM error, or -1 for an unknown
    /// handle.
    pub fn orm_errno(&self, orm_id: i32) -> (c: i32)
        requires
            self.wf(),
        ensures
            c == (if self.orm.instances().contains_key(orm_id) {
                match self.orm.instances()[orm_id].errno {
                    OrmError::NoError => 0i32,
                    OrmError::NoData => 1i32,
                }
            } else {
                -1i32
            }),
    {
        match self.orm.get(orm_id) {
            Some(inst) => inst.errno.code(),
            None => -1,
        }
    }

    /// `orm_select`, `orm_update`, `orm_insert`, `orm_delete` and `orm_save`,
    /// up to handing the query to a worker. `values` holds the current value
    /// of each binding of the instance, in order. An unknown instance records
    /// `InvalidOrm`; a query that cannot be built records the operation's
    /// error; a connection that is gone refuses without recording.
    pub fn run_orm_op(&mut self, op: OrmOp, orm_id: i32, values: &Vec<VarValue>) -> (r: Option<OrmRun>)
        requires
            old(self).wf(),
            old(self).orm.instances().contains_key(orm_id) ==> values@.len()
                == old(self).orm.instances()[orm_id].variables@.len(),
        ensures
            final(self).wf(),
            final(self).orm == old(self).orm,
            final(self).connections.conns() == old(self).connections.conns(),
            !old(self).orm.instances().contains_key(orm_id) ==> r is None && is_error(
                final(self).connections.global(),
                MysqlError::InvalidOrm,
                orm_failure(op_name(op), "invalid ORM ID"@),
            ),
            old(self).orm.instances().contains_key(orm_id) ==> {
                let inst = old(self).orm.instances()[orm_id];
                let mode = if old(self).connections.conns().contains_key(inst.conn_id) {
                    old(self).connections.conns()[inst.conn_id].escape_mode
                } else {
                    EscapeMode::Backslash
                };
                let q = op_query(op, inst, values@, mode);
                if q is None {
                    r is None && is_error(
                        final(self).connections.global(),
                        match op {
                            OrmOp::Select | OrmOp::Update | OrmOp::Delete => MysqlError::OrmKeyNotSet,
                            OrmOp::Insert | OrmOp::Save => MysqlError::InvalidOrm,
                        },
                        orm_failure(op_name(op), op_detail(op)),
                    )
                } else if !old(self).connections.conns().contains_key(inst.conn_id) {
                    r is None && final(self).connections == old(self).connections
                } else {
                    &&& r is Some
                    &&& r->0.query@ == q->0
                    &&& r->0.conn_id == inst.conn_id
                    &&& r->0.pool == old(self).connections.conns()[inst.conn_id].pool
                    &&& r->0.auto_reconnect == old(self).connections.conns()[inst.conn_id].auto_reconnect
                    &&& final(self).connections == old(self).connections
                }
            },
    {
        let name = op.name();
        let inst = match self.orm.get(orm_id) {
            Some(i) => i,
            None => {
                let msg = orm_failure_text(name, "invalid ORM ID");
                self.connections.set_global_error(ErrorState::new(MysqlError::InvalidOrm, msg));
                return None;
            },
        };
        let conn_id = inst.conn_id;
        let mode = self.connections.escape_mode(conn_id);
        let query = match op.build(inst, values, mode) {
            Some(q) => q,
            None => {
                let msg = orm_failure_text(name, op.build_error_detail());
                self.connections.set_global_error(ErrorState::new(op.build_error_code(), msg));
                return None;
            },
        };
        let pool = match self.connections.get_pool(conn_id) {
            Some(p) => p,
            None => return None,
        };
        let auto_reconnect = self.connections.get_auto_reconnect(conn_id);
        Some(OrmRun { query, conn_id, pool, auto_reconnect })
    }

    /// `orm_apply_cache`: what row `row` of the active cache writes into the
    /// instance's variables. Without an active cache `NoCacheActive` is
    /// recorded, for an unknown instance `InvalidOrm`; a row that does not
    /// exist sets the instance's error to `NoData`. On success the instance's
    /// error is cleared.
    pub fn orm_apply_cache(&mut self, orm_id: i32, row: i32) -> (r: Option<Vec<CacheWrite>>)
        requires
            old(self).wf(),
        ensures
            final(self).wf(),
            final(self).cache == old(self).cache,
            final(self).connections.conns() == old(self).connections.conns(),
            active_of(old(self).cache@) is None ==> r is None && final(self).orm == old(self).orm
                && is_error(
                final(self).connections.global(),
                MysqlError::NoCacheActive,
                "ORM apply_cache failed: no active cache."@,
            ),
            active_of(old(self).cache@) is Some && !old(self).orm.instances().contains_key(orm_id)
                ==> r is None && final(self).orm == old(self).orm && is_error(
                final(self).connections.global(),
                MysqlError::InvalidOrm,
                "ORM apply_cache failed: invalid ORM ID."@,
            ),
            active_of(old(self).cache@) is Some && old(self).orm.instances().contains_key(orm_id) ==> {
                let set = active_of(old(self).cache@)->0.active_set();
                let inst = old(self).orm.instances()[orm_id];
                let ok = 0 <= row < set.rows.len();
                &&& final(self).connections == old(self).connections
                &&& final(self).orm.instances() == old(self).orm.instances().insert(
                    orm_id,
                    OrmInstance {
                        errno: if ok {
                            OrmError::NoError
                        } else {
                            OrmError::NoData
                        },
                        ..inst
                    },
                )
                &&& ok ==> (r matches Some(w) && w@.map_values(|x: CacheWrite| write_view(x))
                    == writes_from(inst.variables@, 0, set, row as int))
                &&& !ok ==> r is None
            },
    {
        let cache = match self.cache.get_active() {
            Some(c) => c,
            None => {
                self.connections.set_global_error(
                    ErrorState::new(
                        MysqlError::NoCacheActive,
                        "ORM apply_cache failed: no active cache.",
                    ),
                );
                return None;
            },
        };
        let inst = match self.orm.get_mut(orm_id) {
            Some(i) => i,
            None => {
                self.connections.set_global_error(
                    ErrorState::new(MysqlError::InvalidOrm, "ORM apply_cache failed: invalid ORM ID."),
                );
                return None;
            },
        };
        if row < 0 || row as usize >= cache.row_count() {
            inst.errno = OrmError::NoData;
            return None;
        }
        let writes = inst.cache_writes(cache, row as usize);
        inst.errno = OrmError::NoError;
        Some(writes)
    }

    /// `orm_addvar_int` and `orm_addvar_float`: binds one more variable;
    /// `false` for an unknown instance.
    pub fn orm_addvar(&mut self, orm_id: i32, binding: OrmVarBinding) -> (ok: bool)
        requires
            old(self).wf(),
        ensures
            final(self).wf(),
            ok == old(self).orm.instances().contains_key(orm_id),
            ok ==> final(self).orm.instances() == old(self).orm.instances().insert(
                orm_id,
                OrmInstance {
                    variables: final(self).orm.instances()[orm_id].variables,
                    ..old(self).orm.instances()[orm_id]
                },
            ),
            ok ==> final(self).orm.instances()[orm_id].variables@ == old(self).orm.instances()[orm_id].variables@.push(
                binding,
            ),
            !ok ==> final(self).orm == old(self).orm,
    {
        match self.orm.get_mut(orm_id) {
            Some(inst) => {
                inst.add_var(binding);
                true
            },
            None => false,
        }
    }

    /// `orm_addvar_string`: like `orm_addvar`, but the buffer length must lie
    /// in `1..=` the ORM string cap.
    pub fn orm_addvar_string(&mut self, orm_id: i32, amx_addr: i32, max_len: i32, column: String) -> (ok: bool)
        requires
            old(self).wf(),
        ensures
            final(self).wf(),
            ({
                let cap = old(self).limits.cap(Limit::OrmStringLen);
                let fits = max_len > 0 && (max_len as int) <= (if cap > i32::MAX {
                    i32::MAX as int
                } else {
                    cap as int
                });
                &&& ok == (fits && old(self).orm.instances().contains_key(orm_id))
                &&& ok ==> final(self).orm.instances()[orm_id].variables@ == old(self).orm.instances()[orm_id].variables@.push(
                    OrmVarBinding::String { amx_addr, max_len, column },
                )
                &&& ok ==> final(self).orm.instances().dom() == old(self).orm.instances().dom()
                &&& !ok ==> final(self).orm == old(self).orm
            }),
    {
        let cap = limits::orm_string_len_i32(&self.limits);
        if max_len <= 0 || max_len > cap {
            return false;
        }
        let r = self.orm_addvar(orm_id, OrmVarBinding::String { amx_addr, max_len, column });
        proof {
            if r {
                assert(self.orm.instances().dom() =~= old(self).orm.instances().dom());
            }
        }
        r
    }

    /// `orm_delvar`: unbinds the variables of `column`; `true` when one was
    /// bound.
    pub fn orm_delvar(&mut self, orm_id: i32, column: &str) -> (removed: bool)
        requires
            old(self).wf(),
        ensures
            final(self).wf(),
            old(self).orm.instances().contains_key(orm_id) ==> {
                let inst = old(self).orm.instances()[orm_id];
                &&& final(self).orm.instances() == old(self).orm.instances().insert(
                    orm_id,
                    OrmInstance { variables: final(self).orm.instances()[orm_id].variables, ..inst },
                )
                &&& final(self).orm.instances()[orm_id].variables@ == without_column(inst.variables@, column@)
                &&& removed == exists|i: int|
                    0 <= i < inst.variables@.len() && col_of(#[trigger] inst.variables@[i]) == column@
            },
            !old(self).orm.instances().contains_key(orm_id) ==> !removed && final(self).orm == old(self).orm,
    {
        match self.orm.get_mut(orm_id) {
            Some(inst) => inst.del_var(column),
            None => false,
        }
    }

    /// `orm_clear_vars`: unbinds every variable; `false` for an unknown
    /// instance.
    pub fn orm_clear_vars(&mut self, orm_id: i32) -> (ok: bool)
        requires
            old(self).wf(),
        ensures
            final(self).wf(),
            ok == old(self).orm.instances().contains_key(orm_id),
            ok ==> final(self).orm.instances() == old(self).orm.instances().insert(
                orm_id,
                OrmInstance {
                    variables: final(self).orm.instances()[orm_id].variables,
                    ..old(self).orm.instances()[orm_id]
                },
            ),
            ok ==> final(self).orm.instances()[orm_id].variables@.len() == 0,
            !ok ==> final(self).orm == old(self).orm,
    {
        match self.orm.get_mut(orm_id) {
            Some(inst) => {
                inst.clear_vars();
                true
            },
            None => false,
        }
    }

    /// `orm_setkey`: makes `column` the key column; `false` for an unknown
    /// instance.
    pub fn orm_setkey(&mut self, orm_id: i32, column: String) -> (ok: bool)
        requires
            old(self).wf(),
        ensures
            final(self).wf(),
            ok == old(self).orm.instances().contains_key(orm_id),
            ok ==> final(self).orm.instances() == old(self).orm.instances().insert(
                orm_id,
                OrmInstance { key_column: Some(column), ..old(self).orm.instances()[orm_id] },
            ),
            !ok ==> final(self).orm == old(self).orm,
    {
        match self.orm.get_mut(orm_id) {
            Some(inst) => {
                inst.set_key(column);
                true
            },
            None => false,
        }
    }
}


/// `n`, saturated to `i32`.
pub open spec fn sat_i32(n: int) -> int {
    if n > i32::MAX {
        i32::MAX as int
    } else {
        n
    }
}

fn sat_usize(n: usize) -> (v: i32)
    ensures
        v == sat_i32(n as int),
{
    if n > i32::MAX as usize {
        i32::MAX
    } else {
        n as i32
    }
}

fn sat_u128(n: u128) -> (v: i32)
    ensures
        v == sat_i32(n as int),
{
    if n > i32::MAX as u128 {
        i32::MAX
    } else {
        n as i32
    }
}

/// The cell at `row`, `col` of `set`: `None` outside the set, `Some(None)`
/// for SQL NULL.
pub open spec fn cell_at(set: ResultSetView, row: int, col: int) -> Option<Option<Seq<char>>> {
    if 0 <= row < set.rows.len() && 0 <= col < set.rows[row].len() {
        Some(set.rows[row][col])
    } else {
        None
    }
}

/// The text of a non-NULL cell, `None` otherwise.
pub open spec fn text_of(c: Option<Option<Seq<char>>>) -> Option<Seq<char>> {
    match c {
        Some(Some(v)) => Some(v),
        _ => None,
    }
}

/// The integer a cell reads as: its text parsed, 0 when that fails or there
/// is no text.
pub open spec fn int_of(t: Option<Seq<char>>) -> i32 {
    match t {
        Some(v) => match parse_i32_spec(v) {
            Some(i) => i,
            None => 0,
        },
        None => 0,
    }
}

impl PluginCore {
    /// `cache_get_row_count`: rows of the active result set; -1 without an
    /// active cache.
    pub fn cache_get_row_count(&self) -> (n: i32)
        requires
            self.wf(),
        ensures
            n == (match active_of(self.cache@) {
                Some(e) => sat_i32(e.active_set().rows.len() as int),
                None => -1,
            }),
    {
        match self.cache.get_active() {
            Some(e) => sat_usize(e.row_count()),
            None => -1,
        }
    }

    /// `cache_get_field_count`: columns of the active result set; -1 without
    /// an active cache.
    pub fn cache_get_field_count(&self) -> (n: i32)
        requires
            self.wf(),
        ensures
            n == (match active_of(self.cache@) {
                Some(e) => sat_i32(e.active_set().field_names.len() as int),
                None => -1,
            }),
    {
        match self.cache.get_active() {
            Some(e) => sat_usize(e.field_count()),
            None => -1,
        }
    }

    /// `cache_get_field_name`: the name of column `idx`.
    pub fn cache_get_field_name(&self, idx: i32) -> (r: Option<&str>)
        requires
            self.wf(),
        ensures
            match r {
                Some(s) => idx >= 0 && active_of(self.cache@) is Some && idx < active_of(
                    self.cache@,
                )->0.active_set().field_names.len() && s@ == active_of(
                    self.cache@,
                )->0.active_set().field_names[idx as int],
                None => idx < 0 || active_of(self.cache@) is None || idx >= active_of(
                    self.cache@,
                )->0.active_set().field_names.len(),
            },
    {
        if idx < 0 {
            return None;
        }
        match self.cache.get_active() {
            Some(e) => e.field_name(idx as usize),
            None => None,
        }
    }

    /// `cache_get_value_index`: the text of the cell at `row`, `col`; `None`
    /// for NULL, a cell that does not exist, or no active cache.
    pub fn cache_get_value_index(&self, row: i32, col: i32) -> (r: Option<&str>)
        requires
            self.wf(),
        ensures
            text_opt_str(r) == (match active_of(self.cache@) {
                Some(e) => text_of(cell_at(e.active_set(), row as int, col as int)),
                None => None,
            }),
    {
        if row < 0 || col < 0 {
            return None;
        }
        let e = match self.cache.get_active() {
            Some(e) => e,
            None => return None,
        };
        match e.get_value(row as usize, col as usize) {
            Some(Some(v)) => Some(v.as_str()),
            _ => None,
        }
    }

    /// `cache_get_value_index_int`: that cell read as an integer, 0 when it
    /// is missing or does not parse.
    pub fn cache_get_value_index_int(&self, row: i32, col: i32) -> (n: i32)
        requires
            self.wf(),
        ensures
            n == int_of(
                match active_of(self.cache@) {
                    Some(e) => text_of(cell_at(e.active_set(), row as int, col as int)),
                    None => None,
                },
            ),
    {
        match self.cache_get_value_index(row, col) {
            Some(v) => match parse_i32(v) {
                Some(n) => n,
                None => 0,
            },
            None => 0,
        }
    }

    /// `cache_is_value_index_null`: whether the cell is NULL or missing.
    pub fn cache_is_value_index_null(&self, row: i32, col: i32) -> (b: bool)
        requires
            self.wf(),
        ensures
            b == (match active_of(self.cache@) {
                Some(e) => text_of(cell_at(e.active_set(), row as int, col as int)) is None,
                None => true,
            }),
    {
        self.cache_get_value_index(row, col).is_none()
    }

    /// `cache_get_value_name`: the text of the cell of `row` in the first
    /// column named `name` (ASCII case ignored).
    pub fn cache_get_value_name(&self, row: i32, name: &str) -> (r: Option<&str>)
        requires
            self.wf(),
        ensures
            text_opt_str(r) == (match active_of(self.cache@) {
                Some(e) => if row < 0 {
                    None
                } else {
                    cell_named(e.active_set(), row as int, name@)
                },
                None => None,
            }),
    {
        if row < 0 {
            return None;
        }
        let e = match self.cache.get_active() {
            Some(e) => e,
            None => return None,
        };
        let col = match e.field_index(name) {
            Some(c) => c,
            None => return None,
        };
        match e.get_value(row as usize, col) {
            Some(Some(v)) => Some(v.as_str()),
            _ => None,
        }
    }

    /// `cache_get_value_name_int`: that cell read as an integer.
    pub fn cache_get_value_name_int(&self, row: i32, name: &str) -> (n: i32)
        requires
            self.wf(),
        ensures
            n == int_of(
                match active_of(self.cache@) {
                    Some(e) => if row < 0 {
                        None
                    } else {
                        cell_named(e.active_set(), row as int, name@)
                    },
                    None => None,
                },
            ),
    {
        match self.cache_get_value_name(row, name) {
            Some(v) => match parse_i32(v) {
                Some(n) => n,
                None => 0,
            },
            None => 0,
        }
    }

    /// `cache_is_value_name_null`: whether that cell is NULL or missing.
    pub fn cache_is_value_name_null(&self, row: i32, name: &str) -> (b: bool)
        requires
            self.wf(),
        ensures
            b == (match active_of(self.cache@) {
                Some(e) => row < 0 || cell_named(e.active_set(), row as int, name@) is None,
                None => true,
            }),
    {
        self.cache_get_value_name(row, name).is_none()
    }

    /// `cache_affected_rows`, saturated to `i32`; -1 without an active cache.
    pub fn cache_affected_rows(&self) -> (n: i32)
        requires
            self.wf(),
        ensures
            n == (match active_of(self.cache@) {
                Some(e) => sat_i32(e.affected_rows as int),
                None => -1,
            }),
    {
        match self.cache.get_active() {
            Some(e) => sat_u128(e.affected_rows() as u128),
            None => -1,
        }
    }

    /// `cache_insert_id`, saturated to `i32`; -1 without an active cache.
    pub fn cache_insert_id(&self) -> (n: i32)
        requires
            self.wf(),
        ensures
            n == (match active_of(self.cache@) {
                Some(e) => sat_i32(e.insert_id as int),
                None => -1,
            }),
    {
        match self.cache.get_active() {
            Some(e) => sat_u128(e.insert_id() as u128),
            None => -1,
        }
    }

    /// `cache_get_query_exec_time`: whole milliseconds, saturated to `i32`;
    /// -1 without an active cache.
    pub fn cache_get_query_exec_time(&self) -> (n: i32)
        requires
            self.wf(),
        ensures
            n == (match active_of(self.cache@) {
                Some(e) => sat_i32((e.exec_time_us / 1000) as int),
                None => -1,
            }),
    {
        match self.cache.get_active() {
            Some(e) => sat_u128(e.exec_time_ms()),
            None => -1,
        }
    }

    /// `cache_get_query_string`: the query text of the active cache.
    pub fn cache_get_query_string(&self) -> (r: Option<&str>)
        requires
            self.wf(),
        ensures
            text_opt_str(r) == (match active_of(self.cache@) {
                Some(e) => Some(e.query_string),
                None => None,
            }),
    {
        match self.cache.get_active() {
            Some(e) => Some(e.query_string()),
            None => None,
        }
    }

    /// `cache_get_result_count`: result sets of the active cache; 0 without
    /// one.
    pub fn cache_get_result_count(&self) -> (n: i32)
        requires
            self.wf(),
        ensures
            n == (match active_of(self.cache@) {
                Some(e) => sat_i32(e.results.len() as int),
                None => 0,
            }),
    {
        match self.cache.get_active() {
            Some(e) => sat_usize(e.result_count()),
            None => 0,
        }
    }

    /// `cache_set_result`: selects the result set the readers report on;
    /// refused for a negative or too large index and without an active cache.
    pub fn cache_set_result(&mut self, index: i32) -> (ok: bool)
        requires
            old(self).wf(),
        ensures
            final(self).wf(),
            ok == (index >= 0 && active_of(old(self).cache@) is Some && index < active_of(
                old(self).cache@,
            )->0.results.len()),
            ok ==> final(self).cache@ == replace_active(
                old(self).cache@,
                active_of(old(self).cache@)->0.with_active(index as int),
            ),
            !ok ==> final(self).cache@ == old(self).cache@,
            final(self).connections == old(self).connections,
    {
        if index < 0 {
            return false;
        }
        let ghost v = self.cache@;
        match self.cache.get_active_mut() {
            Some(e) => {
                let ok = e.set_result(index as usize);
                proof {
                    if !ok {
                        match v.manual {
                            Some(id) => {
                                assert(v.saved.insert(id, v.saved[id]) =~= v.saved);
                            },
                            None => {
                                assert(v.stack.update(v.stack.len() - 1, v.stack.last()) =~= v.stack);
                            },
                        }
                    }
                }
                ok
            },
            None => false,
        }
    }

    /// `cache_warning_count`; -1 without an active cache.
    pub fn cache_warning_count(&self) -> (n: i32)
        requires
            self.wf(),
        ensures
            n == (match active_of(self.cache@) {
                Some(e) => e.warning_count as int,
                None => -1,
            }),
    {
        match self.cache.get_active() {
            Some(e) => e.warning_count() as i32,
            None => -1,
        }
    }

    /// `cache_get_field_type`: the type code of column `idx`; -1 when there
    /// is no such column or no active cache.
    pub fn cache_get_field_type(&self, idx: i32) -> (n: i32)
        requires
            self.wf(),
        ensures
            n == (match active_of(self.cache@) {
                Some(e) => if 0 <= idx < e.active_set().field_types.len() {
                    e.active_set().field_types[idx as int] as int
                } else {
                    -1
                },
                None => -1,
            }),
    {
        if idx < 0 {
            return -1;
        }
        match self.cache.get_active() {
            Some(e) => match e.field_type(idx as usize) {
                Some(t) => t as i32,
                None => -1,
            },
            None => -1,
        }
    }
}

/// The text of an optional string slice.
pub open spec fn text_opt_str(o: Option<&str>) -> Option<Seq<char>> {
    match o {
        Some(s) => Some(s@),
        None => None,
    }
}

/// The callback of `mysql_hash_password` (`first` = `s`) or
/// `mysql_verify_password` (`first` = `d`): its format gets the result's
/// specifier in front. Refused when no callback is named (the result has
/// nowhere to go) or the password is longer than `MAX_PASSWORD_LEN` bytes.
pub fn password_callback(
    callback: String,
    password: &str,
    format: &str,
    params: Vec<CallbackParam>,
    first: char,
) -> (r: Option<CallbackInfo>)
    ensures
        r is Some == (callback@.len() > 0 && utf8_len(password@) <= MAX_PASSWORD_LEN),
        r matches Some(info) ==> info.name == callback && info.format@ == seq![first] + format@
            && info.params == params,
{
    if callback.as_str().is_empty() {
        return None;
    }
    if !password_len_ok(password) {
        return None;
    }
    let mut f = String::new();
    crate::text::push_char(&mut f, first);
    f.append(format);
    Some(CallbackInfo { name: callback, format: f, params })
}

} // verus!
