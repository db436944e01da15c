//! Prepared statements: a query text plus the values bound to it, which
//! travel to the server separately from the SQL so that no value is ever
//! parsed as syntax.
use vstd::prelude::*;

use crate::idmap::{advance_handle, next_handle, without_owner, IdMap, Owned, Owner};
use crate::sql::placeholder_count as placeholder_count_spec;

pub use crate::sql::count_placeholders;

verus! {

/// A value bound to a statement, as the driver sends it. The statements only
/// carry these values; what is inside one is the driver's business.
#[verifier::external_type_specification]
#[verifier::external_body]
pub struct ExValue(mysql::Value);

/// `Vec::<mysql::Value>::clone`: a copy of the bound values, in order.
/// `mysql::Value` derives `Clone` over plain data (integers, floats, bytes,
/// dates), so each copy is the same value as its original.
#[verifier::external_body]
pub(crate) fn clone_values(values: &Vec<mysql::Value>) -> (r: Vec<mysql::Value>)
    ensures
        r@ == values@,
{
    values.clone()
}

/// Ceiling on the values bound to one statement, against a runaway loop in a
/// script (MySQL's own limit is far higher).
pub const MAX_STMT_PARAMS: usize = 4096;

pub struct Statement {
    pub conn_id: i32,
    /// The script that created the statement, so that unloading it reclaims
    /// the handle.
    pub amx_ident: usize,
    pub query: String,
    pub params: Vec<mysql::Value>,
}

impl Statement {
    /// Number of `?` placeholders in code position of the statement's text.
    pub fn placeholder_count(&self) -> (n: usize)
        ensures
            n == placeholder_count_spec(self.query@),
    {
        count_placeholders(self.query.as_str())
    }
}

impl Owned for Statement {
    open spec fn owned_by(&self, o: Owner) -> bool {
        match o {
            Owner::Conn(c) => self.conn_id == c,
            Owner::Amx(a) => self.amx_ident == a,
        }
    }

    fn is_owned_by(&self, o: Owner) -> (b: bool) {
        match o {
            Owner::Conn(c) => self.conn_id == c,
            Owner::Amx(a) => self.amx_ident == a,
        }
    }
}

pub struct StmtManager {
    statements: IdMap<Statement>,
    next_id: i32,
}

impl StmtManager {
    /// The live statements by handle.
    pub closed spec fn statements(&self) -> Map<i32, Statement> {
        self.statements@
    }

    /// The handle the next `create` hands out.
    pub closed spec fn next(&self) -> i32 {
        self.next_id
    }

    /// Handles are positive, and no statement holds more than
    /// `MAX_STMT_PARAMS` values.
    pub closed spec fn wf(&self) -> bool {
        &&& self.statements.wf()
        &&& self.next_id >= 1
        &&& forall|k: i32| #[trigger] self.statements@.contains_key(k) ==> self.statements@[k].params@.len() <= MAX_STMT_PARAMS
    }

    /// However many values a script binds, no statement holds more than
    /// `MAX_STMT_PARAMS`.
    pub proof fn lemma_params_within_ceiling(&self, id: i32)
        requires
            self.wf(),
            self.statements().contains_key(id),
        ensures
            self.statements()[id].params@.len() <= MAX_STMT_PARAMS,
    {
    }

    pub fn new() -> (m: Self)
        ensures
            m.wf(),
            m.statements() == Map::<i32, Statement>::empty(),
            m.next() == 1,
    {
        StmtManager { statements: IdMap::new(), next_id: 1 }
    }

    /// Registers a statement with no values bound and returns its handle.
    pub fn create(&mut self, conn_id: i32, amx_ident: usize, query: String) -> (id: i32)
        requires
            old(self).wf(),
        ensures
            final(self).wf(),
            id == old(self).next(),
            id >= 1,
            final(self).next() == next_handle(old(self).next()),
            final(self).statements().dom() == old(self).statements().dom().insert(id),
            forall|k: i32| #[trigger] final(self).statements().contains_key(k) && k != id
                ==> final(self).statements()[k] == old(self).statements()[k],
            final(self).statements()[id].conn_id == conn_id,
            final(self).statements()[id].amx_ident == amx_ident,
            final(self).statements()[id].query == query,
            final(self).statements()[id].params@.len() == 0,
    {
        let id = self.next_id;
        self.next_id = advance_handle(self.next_id);
        let stmt = Statement { conn_id, amx_ident, query, params: Vec::new() };
        self.statements.insert(id, stmt);
        id
    }

    /// Drops every statement created by the unloaded script `ident`.
    pub fn destroy_by_amx(&mut self, ident: usize)
        requires
            old(self).wf(),
        ensures
            final(self).wf(),
            final(self).next() == old(self).next(),
            final(self).statements() == without_owner(old(self).statements(), Owner::Amx(ident)),
    {
        self.statements.remove_owned(Owner::Amx(ident));
    }

    /// Drops every statement bound to the closed connection `conn_id`.
    pub fn destroy_by_conn(&mut self, conn_id: i32)
        requires
            old(self).wf(),
        ensures
            final(self).wf(),
            final(self).next() == old(self).next(),
            final(self).statements() == without_owner(old(self).statements(), Owner::Conn(conn_id)),
    {
        self.statements.remove_owned(Owner::Conn(conn_id));
    }

    pub fn get(&self, id: i32) -> (r: Option<&Statement>)
        requires
            self.wf(),
        ensures
            match r {
                Some(s) => self.statements().contains_key(id) && *s == self.statements()[id],
                None => !self.statements().contains_key(id),
            },
    {
        self.statements.get(id)
    }

    /// Forgets a statement; `false` when the handle is unknown.
    pub fn destroy(&mut self, id: i32) -> (ok: bool)
        requires
            old(self).wf(),
        ensures
            final(self).wf(),
            final(self).next() == old(self).next(),
            ok == old(self).statements().contains_key(id),
            final(self).statements() == old(self).statements().remove(id),
    {
        self.statements.remove(id).is_some()
    }

    /// Binds one more value. Fails, changing nothing, when the handle is
    /// unknown or `MAX_STMT_PARAMS` values are already bound.
    pub fn bind(&mut self, id: i32, value: mysql::Value) -> (ok: bool)
        requires
            old(self).wf(),
        ensures
            final(self).wf(),
            final(self).next() == old(self).next(),
            ok == (old(self).statements().contains_key(id)
                && old(self).statements()[id].params@.len() < MAX_STMT_PARAMS),
            ok ==> final(self).statements().dom() == old(self).statements().dom(),
            ok ==> forall|k: i32| #[trigger] final(self).statements().contains_key(k) && k != id
                ==> final(self).statements()[k] == old(self).statements()[k],
            ok ==> final(self).statements()[id].params@ == old(self).statements()[id].params@.push(
                value,
            ),
            ok ==> final(self).statements()[id].query == old(self).statements()[id].query,
            ok ==> final(self).statements()[id].conn_id == old(self).statements()[id].conn_id,
            ok ==> final(self).statements()[id].amx_ident == old(self).statements()[id].amx_ident,
            !ok ==> *final(self) == *old(self),
    {
        match self.statements.get(id) {
            Some(stmt) => {
                if stmt.params.len() >= MAX_STMT_PARAMS {
                    return false;
                }
            },
            None => return false,
        }
        match self.statements.get_mut(id) {
            Some(stmt) => {
                stmt.params.push(value);
                true
            },
            None => false,
        }
    }

    /// Drops the bound values and keeps the statement; `false` when the
    /// handle is unknown.
    pub fn reset(&mut self, id: i32) -> (ok: bool)
        requires
            old(self).wf(),
        ensures
            final(self).wf(),
            final(self).next() == old(self).next(),
            ok == old(self).statements().contains_key(id),
            ok ==> final(self).statements().dom() == old(self).statements().dom(),
            ok ==> forall|k: i32| #[trigger] final(self).statements().contains_key(k) && k != id
                ==> final(self).statements()[k] == old(self).statements()[k],
            ok ==> final(self).statements()[id].params@.len() == 0,
            ok ==> final(self).statements()[id].query == old(self).statements()[id].query,
            ok ==> final(self).statements()[id].conn_id == old(self).statements()[id].conn_id,
            ok ==> final(self).statements()[id].amx_ident == old(self).statements()[id].amx_ident,
            !ok ==> *final(self) == *old(self),
    {
        match self.statements.get_mut(id) {
            Some(stmt) => {
                stmt.params.clear();
                true
            },
            None => false,
        }
    }
}

} // verus!
