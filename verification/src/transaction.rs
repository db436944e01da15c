//! Transactions as all-or-nothing batches: the steps are collected first and
//! then run together on one connection, so nothing is held open between
//! server ticks.
use vstd::prelude::*;

use crate::cache::{empty_set_view, CacheEntry, CacheEntryView};
use crate::connection::QueryError;
use crate::idmap::{advance_handle, next_handle, without_owner, IdMap, Owned, Owner};

verus! {

/// Ceiling on the steps of one transaction, against a runaway loop in a
/// script.
pub const MAX_TX_STEPS: usize = 1024;

/// One statement of a transaction; `params` is empty for plain SQL and holds
/// the bound values when the step came from a prepared statement.
pub struct TxStep {
    pub query: String,
    pub params: Vec<mysql::Value>,
}

pub struct Transaction {
    pub conn_id: i32,
    /// The script that created the batch.
    pub amx_ident: usize,
    pub steps: Vec<TxStep>,
}

impl Owned for Transaction {
    open spec fn owned_by(&self, o: Owner) -> bool {
        match o {
            Owner::Conn(c) => self.conn_id == c,
            Owner::Amx(a) => self.amx_ident == a,
        }
    }

    fn is_owned_by(&self, o: Owner) -> (b: bool) {
        match o {
            Owner::Conn(c) => self.conn_id == c,
            Owner::Amx(a) => self.amx_ident == a,
        }
    }
}

pub struct TransactionManager {
    transactions: IdMap<Transaction>,
    next_id: i32,
}

impl TransactionManager {
    /// The open batches by handle.
    pub closed spec fn transactions(&self) -> Map<i32, Transaction> {
        self.transactions@
    }

    /// The handle the next `create` hands out.
    pub closed spec fn next(&self) -> i32 {
        self.next_id
    }

    /// Handles are positive, and no batch holds more than `MAX_TX_STEPS`
    /// steps.
    pub closed spec fn wf(&self) -> bool {
        &&& self.transactions.wf()
        &&& self.next_id >= 1
        &&& forall|k: i32| #[trigger] self.transactions@.contains_key(k) ==> self.transactions@[k].steps@.len() <= MAX_TX_STEPS
    }

    /// However many steps a script adds, no batch holds more than
    /// `MAX_TX_STEPS`.
    pub proof fn lemma_steps_within_ceiling(&self, id: i32)
        requires
            self.wf(),
            self.transactions().contains_key(id),
        ensures
            self.transactions()[id].steps@.len() <= MAX_TX_STEPS,
    {
    }

    pub fn new() -> (m: Self)
        ensures
            m.wf(),
            m.transactions() == Map::<i32, Transaction>::empty(),
            m.next() == 1,
    {
        TransactionManager { transactions: IdMap::new(), next_id: 1 }
    }

    /// Opens an empty batch on `conn_id` and returns its handle.
    pub fn create(&mut self, conn_id: i32, amx_ident: usize) -> (id: i32)
        requires
            old(self).wf(),
        ensures
            final(self).wf(),
            id == old(self).next(),
            id >= 1,
            final(self).next() == next_handle(old(self).next()),
            final(self).transactions().dom() == old(self).transactions().dom().insert(id),
            forall|k: i32| #[trigger] final(self).transactions().contains_key(k) && k != id
                ==> final(self).transactions()[k] == old(self).transactions()[k],
            final(self).transactions()[id].conn_id == conn_id,
            final(self).transactions()[id].amx_ident == amx_ident,
            final(self).transactions()[id].steps@.len() == 0,
    {
        let id = self.next_id;
        self.next_id = advance_handle(self.next_id);
        self.transactions.insert(id, Transaction { conn_id, amx_ident, steps: Vec::new() });
        id
    }

    /// Drops every batch created by the unloaded script `ident`.
    pub fn destroy_by_amx(&mut self, ident: usize)
        requires
            old(self).wf(),
        ensures
            final(self).wf(),
            final(self).next() == old(self).next(),
            final(self).transactions() == without_owner(old(self).transactions(), Owner::Amx(ident)),
    {
        self.transactions.remove_owned(Owner::Amx(ident));
    }

    /// Drops every batch bound to the closed connection `conn_id`.
    pub fn destroy_by_conn(&mut self, conn_id: i32)
        requires
            old(self).wf(),
        ensures
            final(self).wf(),
            final(self).next() == old(self).next(),
            final(self).transactions() == without_owner(
                old(self).transactions(),
                Owner::Conn(conn_id),
            ),
    {
        self.transactions.remove_owned(Owner::Conn(conn_id));
    }

    pub fn get(&self, id: i32) -> (r: Option<&Transaction>)
        requires
            self.wf(),
        ensures
            match r {
                Some(t) => self.transactions().contains_key(id) && *t == self.transactions()[id],
                None => !self.transactions().contains_key(id),
            },
    {
        self.transactions.get(id)
    }

    /// Forgets a batch; `false` when the handle is unknown.
    pub fn destroy(&mut self, id: i32) -> (ok: bool)
        requires
            old(self).wf(),
        ensures
            final(self).wf(),
            final(self).next() == old(self).next(),
            ok == old(self).transactions().contains_key(id),
            final(self).transactions() == old(self).transactions().remove(id),
    {
        self.transactions.remove(id).is_some()
    }

    /// Removes a batch and hands it over for execution, so that the same batch
    /// cannot be submitted twice.
    pub fn take(&mut self, id: i32) -> (r: Option<Transaction>)
        requires
            old(self).wf(),
        ensures
            final(self).wf(),
            final(self).next() == old(self).next(),
            final(self).transactions() == old(self).transactions().remove(id),
            match r {
                Some(t) => old(self).transactions().contains_key(id) && t == old(
                    self,
                ).transactions()[id],
                None => !old(self).transactions().contains_key(id),
            },
    {
        self.transactions.remove(id)
    }

    /// Appends a step. Fails, changing nothing, when the handle is unknown or
    /// the batch already holds `MAX_TX_STEPS` steps.
    pub fn add_step(&mut self, id: i32, step: TxStep) -> (ok: bool)
        requires
            old(self).wf(),
        ensures
            final(self).wf(),
            final(self).next() == old(self).next(),
            ok == (old(self).transactions().contains_key(id)
                && old(self).transactions()[id].steps@.len() < MAX_TX_STEPS),
            ok ==> final(self).transactions().dom() == old(self).transactions().dom(),
            ok ==> forall|k: i32| #[trigger] final(self).transactions().contains_key(k) && k != id
                ==> final(self).transactions()[k] == old(self).transactions()[k],
            ok ==> final(self).transactions()[id].steps@ == old(
                self,
            ).transactions()[id].steps@.push(step),
            ok ==> final(self).transactions()[id].conn_id == old(self).transactions()[id].conn_id,
            ok ==> final(self).transactions()[id].amx_ident == old(
                self,
            ).transactions()[id].amx_ident,
            !ok ==> *final(self) == *old(self),
    {
        match self.transactions.get(id) {
            Some(tx) => {
                if tx.steps.len() >= MAX_TX_STEPS {
                    return false;
                }
            },
            None => return false,
        }
        match self.transactions.get_mut(id) {
            Some(tx) => {
                tx.steps.push(step);
                true
            },
            None => false,
        }
    }
}


/// A statement the transaction driver sends.
#[derive(Clone, Copy, Debug, PartialEq, Eq, Structural)]
pub enum TxSend {
    /// `START TRANSACTION`.
    Begin,
    /// The step with this index.
    Step(usize),
    /// `COMMIT`.
    Commit,
    /// `ROLLBACK`.
    Rollback,
}

impl TxSend {
    /// The SQL of a control statement; a step's SQL is the step's own.
    pub fn control_sql(self) -> (s: Option<&'static str>)
        ensures
            match self {
                TxSend::Begin => s matches Some(q) && q@ == "START TRANSACTION"@,
                TxSend::Commit => s matches Some(q) && q@ == "COMMIT"@,
                TxSend::Rollback => s matches Some(q) && q@ == "ROLLBACK"@,
                TxSend::Step(_) => s is None,
            },
    {
        match self {
            TxSend::Begin => Some("START TRANSACTION"),
            TxSend::Commit => Some("COMMIT"),
            TxSend::Rollback => Some("ROLLBACK"),
            TxSend::Step(_) => None,
        }
    }
}

/// The statement that follows a successful `Begin` or step `i - 1` in a
/// batch of `n` steps: the steps in order, then `Commit`.
pub open spec fn after_success(i: int, n: int) -> TxSend {
    if i < n {
        TxSend::Step(i as usize)
    } else {
        TxSend::Commit
    }
}

/// `sent` and `ok` are a history the driver can produce for `n` steps:
/// `Begin`, then the steps in order while each succeeds, then `Commit`; a
/// failed step is followed by `Rollback` and nothing else, a failed `Begin`
/// or `Commit` by nothing.
pub open spec fn tx_history(sent: Seq<TxSend>, ok: Seq<bool>, n: int) -> bool {
    &&& sent.len() == ok.len()
    &&& sent.len() > 0 ==> sent[0] == TxSend::Begin
    &&& forall|j: int|
        #![trigger sent[j]]
        1 <= j < sent.len() ==> (if ok[j - 1] {
            sent[j] == after_success(j - 1, n) && sent[j - 1] != TxSend::Commit
        } else {
            sent[j] == TxSend::Rollback && sent[j - 1] is Step && j == sent.len() - 1
        })
}

proof fn lemma_commit_history(sent: Seq<TxSend>, ok: Seq<bool>, n: int, c: int)
    requires
        tx_history(sent, ok, n),
        n >= 0,
        0 <= c < sent.len(),
        sent[c] == TxSend::Commit,
    ensures
        c == n + 1,
        sent[0] == TxSend::Begin,
        forall|i: int| 1 <= i <= n ==> sent[i] == TxSend::Step((i - 1) as usize),
        forall|i: int| 0 <= i < c ==> ok[i],
{
    assert(c >= 1);
    assert forall|i: int| 0 <= i < c implies ok[i] by {
        let j = i + 1;
        assert(1 <= j < sent.len());
        let _ = sent[j];
        if !ok[j - 1] {
            assert(j == sent.len() - 1);
            assert(j == c);
        }
    }
    let _ = sent[c];
    assert(c - 1 >= n);
    if c - 1 > n {
        let _ = sent[c - 1];
        assert(sent[c - 1] == TxSend::Commit);
    }
    assert forall|i: int| 1 <= i <= n implies sent[i] == TxSend::Step((i - 1) as usize) by {
        let _ = sent[i];
        assert(ok[i - 1]);
    }
}

/// What a statement's result carries: its cache, or its error's code and
/// message.
pub open spec fn result_view(r: Result<CacheEntry, QueryError>) -> Result<CacheEntryView, (u16, Seq<char>)> {
    match r {
        Ok(c) => Ok(c@),
        Err(e) => Err((e.code, e.message@)),
    }
}

/// The error of the first statement that failed, if any did.
pub open spec fn first_error(rs: Seq<Result<CacheEntryView, (u16, Seq<char>)>>) -> Option<(u16, Seq<char>)>
    decreases rs.len(),
{
    if rs.len() == 0 {
        None
    } else {
        match first_error(rs.drop_last()) {
            Some(e) => Some(e),
            None => match rs.last() {
                Err(e) => Some(e),
                Ok(_) => None,
            },
        }
    }
}

/// The cache of the last step that succeeded, if any did.
pub open spec fn last_step_cache(sent: Seq<TxSend>, rs: Seq<Result<CacheEntryView, (u16, Seq<char>)>>) -> Option<
    CacheEntryView,
>
    decreases rs.len(),
{
    if rs.len() == 0 || sent.len() == 0 {
        None
    } else if sent.last() is Step && rs.last() is Ok {
        Some(rs.last()->Ok_0)
    } else {
        last_step_cache(sent.drop_last(), rs.drop_last())
    }
}

/// The cache a batch without steps reports: empty, named after the
/// statement that opened it.
pub open spec fn begin_only_view() -> CacheEntryView {
    CacheEntryView {
        results: seq![empty_set_view()],
        active: 0,
        affected_rows: 0,
        insert_id: 0,
        warning_count: 0,
        exec_time_us: 0,
        query_string: "START TRANSACTION"@,
    }
}

/// Runs a batch on one connection: `Begin`, every step in order, `Commit`.
/// The first failure ends it: after a failed step only `Rollback` is sent,
/// and the batch reports that failure; a failed `Begin` or `Commit` is
/// reported as it is.
pub struct TxDriver {
    steps: usize,
    pending: Option<TxSend>,
    error: Option<QueryError>,
    last: Option<CacheEntry>,
    sent: Ghost<Seq<TxSend>>,
    ok: Ghost<Seq<bool>>,
    results: Ghost<Seq<Result<CacheEntryView, (u16, Seq<char>)>>>,
}

impl TxDriver {
    /// The statements sent so far.
    pub closed spec fn sent(&self) -> Seq<TxSend> {
        self.sent@
    }

    /// Whether each of them succeeded.
    pub closed spec fn outcomes(&self) -> Seq<bool> {
        self.ok@
    }

    /// The number of steps of the batch.
    pub closed spec fn step_count(&self) -> nat {
        self.steps as nat
    }

    /// The statement to send next, if any.
    pub closed spec fn pending(&self) -> Option<TxSend> {
        self.pending
    }

    /// What each of them gave back.
    pub closed spec fn results(&self) -> Seq<Result<CacheEntryView, (u16, Seq<char>)>> {
        self.results@
    }

    /// Whether some statement failed.
    pub closed spec fn failed(&self) -> bool {
        self.error is Some
    }

    pub closed spec fn wf(&self) -> bool {
        &&& tx_history(self.sent@, self.ok@, self.steps as int)
        &&& self.sent@.len() == 0 ==> self.pending == Some(TxSend::Begin) && self.error is None
        &&& self.sent@.len() > 0 ==> {
            let last = self.sent@.last();
            let good = self.ok@.last();
            &&& self.pending == (if good {
                if last == TxSend::Commit || last == TxSend::Rollback {
                    None
                } else {
                    Some(after_success(self.sent@.len() - 1, self.steps as int))
                }
            } else {
                if last is Step {
                    Some(TxSend::Rollback)
                } else {
                    None
                }
            })
            &&& (self.error is Some <==> exists|j: int| 0 <= j < self.ok@.len() && !#[trigger] self.ok@[j])
        }
        &&& self.pending matches Some(TxSend::Step(i)) ==> i < self.steps
        &&& self.results@.len() == self.ok@.len()
        &&& forall|j: int| 0 <= j < self.ok@.len() ==> #[trigger] self.ok@[j] == (self.results@[j] is Ok)
        &&& (match self.error {
            Some(e) => first_error(self.results@) == Some((e.code, e.message@)),
            None => first_error(self.results@) is None,
        })
        &&& (match self.last {
            Some(c) => last_step_cache(self.sent@, self.results@) == Some(c@),
            None => last_step_cache(self.sent@, self.results@) is None,
        })
    }

    /// A driver for a batch of `steps` steps, about to send `Begin`.
    pub fn new(steps: usize) -> (d: Self)
        ensures
            d.wf(),
            d.step_count() == steps,
            d.sent().len() == 0,
            d.results().len() == 0,
            d.pending() == Some(TxSend::Begin),
    {
        TxDriver {
            steps,
            pending: Some(TxSend::Begin),
            error: None,
            last: None,
            sent: Ghost(Seq::empty()),
            ok: Ghost(Seq::empty()),
            results: Ghost(Seq::empty()),
        }
    }

    /// The statement to send next; `None` once the batch is over.
    pub fn next(&self) -> (s: Option<TxSend>)
        ensures
            s == self.pending(),
    {
        self.pending
    }

    /// Records the result of the statement just sent (the pending one).
    pub fn record(&mut self, result: Result<CacheEntry, QueryError>)
        requires
            old(self).wf(),
            old(self).pending() is Some,
        ensures
            final(self).wf(),
            final(self).step_count() == old(self).step_count(),
            final(self).sent() == old(self).sent().push(old(self).pending()->0),
            final(self).outcomes() == old(self).outcomes().push(result is Ok),
            final(self).results() == old(self).results().push(result_view(result)),
    {
        let cur = match self.pending {
            Some(c) => c,
            None => return,
        };
        let ghost n = self.steps as int;
        let good = result.is_ok();
        let ghost old_ok = self.ok@;
        let ghost old_sent = self.sent@;
        let ghost old_results = self.results@;
        let ghost rv = result_view(result);
        proof {
            self.sent@ = self.sent@.push(cur);
            self.ok@ = self.ok@.push(good);
            self.results@ = self.results@.push(rv);
            assert(self.sent@.drop_last() =~= old_sent);
            assert(self.results@.drop_last() =~= old_results);
        }
        match result {
            Ok(cache) => {
                match cur {
                    TxSend::Begin => {
                        self.pending = Some(if self.steps > 0 {
                            TxSend::Step(0)
                        } else {
                            TxSend::Commit
                        });
                    },
                    TxSend::Step(i) => {
                        self.last = Some(cache);
                        self.pending = Some(if i + 1 < self.steps {
                            TxSend::Step(i + 1)
                        } else {
                            TxSend::Commit
                        });
                    },
                    TxSend::Commit => {
                        self.pending = None;
                    },
                    TxSend::Rollback => {
                        self.pending = None;
                    },
                }
            },
            Err(e) => {
                match cur {
                    TxSend::Step(_) => {
                        self.pending = Some(TxSend::Rollback);
                    },
                    _ => {
                        self.pending = None;
                    },
                }
                if self.error.is_none() {
                    self.error = Some(e);
                }
            },
        }
        proof {
            let s = self.sent@;
            let o = self.ok@;
            assert(o.last() == good);
            assert forall|j: int| 0 <= j < o.len() - 1 implies o[j] == old_ok[j] by {}
            if good {
                assert((exists|j: int| 0 <= j < o.len() && !#[trigger] o[j]) == (exists|j: int|
                    0 <= j < old_ok.len() && !#[trigger] old_ok[j]));
            } else {
                assert(!o[o.len() - 1]);
            }
        }
    }

    /// The outcome of the batch: the first failure, or the cache of the last
    /// step (an empty one named `START TRANSACTION` for a batch without
    /// steps).
    pub fn finish(self) -> (r: Result<CacheEntry, QueryError>)
        requires
            self.wf(),
        ensures
            r is Err == self.failed(),
            r matches Err(e) ==> first_error(self.results()) == Some((e.code, e.message@)),
            r matches Ok(c) ==> c@ == (match last_step_cache(self.sent(), self.results()) {
                Some(v) => v,
                None => begin_only_view(),
            }),
    {
        match self.error {
            Some(e) => Err(e),
            None => match self.last {
                Some(c) => Ok(c),
                None => Ok(CacheEntry::empty(String::from_str("START TRANSACTION"))),
            },
        }
    }

    /// `COMMIT` is only ever sent as the last statement after `Begin` and
    /// every step, in order, each of which succeeded.
    pub proof fn lemma_commit_only_after_every_step(&self, c: int)
        requires
            self.wf(),
            0 <= c < self.sent().len(),
            self.sent()[c] == TxSend::Commit,
        ensures
            c == self.step_count() + 1,
            self.sent()[0] == TxSend::Begin,
            forall|i: int| 1 <= i <= self.step_count() ==> self.sent()[i] == TxSend::Step((i - 1) as usize),
            forall|i: int| 0 <= i < c ==> self.outcomes()[i],
    {
        lemma_commit_history(self.sent@, self.ok@, self.steps as int, c);
    }

    /// A failed step is followed by `ROLLBACK` and by nothing else, and
    /// `COMMIT` is never sent in that batch.
    pub proof fn lemma_failed_step_rolls_back(&self, k: int)
        requires
            self.wf(),
            0 <= k < self.sent().len(),
            self.sent()[k] is Step,
            !self.outcomes()[k],
        ensures
            self.sent().len() <= k + 2,
            self.sent().len() == k + 2 ==> self.sent()[k + 1] == TxSend::Rollback,
            self.sent().len() == k + 1 ==> self.pending() == Some(TxSend::Rollback),
            forall|i: int| 0 <= i < self.sent().len() ==> self.sent()[i] != TxSend::Commit,
    {
        let sent = self.sent@;
        let ok = self.ok@;
        if k + 1 < sent.len() {
            let _ = sent[k + 1];
        }
        assert forall|i: int| 0 <= i < sent.len() implies sent[i] != TxSend::Commit by {
            if sent[i] == TxSend::Commit {
                lemma_commit_history(sent, ok, self.steps as int, i);
                if i < k {
                    let _ = sent[i + 1];
                    if !ok[i] {
                        assert(i + 1 == sent.len() - 1);
                    }
                }
            }
        }
    }

    /// The batch reports a failure exactly when some statement failed.
    pub proof fn lemma_failed_iff_some_statement_failed(&self)
        requires
            self.wf(),
        ensures
            self.failed() <==> exists|j: int| 0 <= j < self.outcomes().len() && !#[trigger] self.outcomes()[j],
    {
        if self.error is Some {
            let j = choose|j: int| 0 <= j < self.ok@.len() && !#[trigger] self.ok@[j];
            assert(!self.outcomes()[j]);
        }
        if exists|j: int| 0 <= j < self.outcomes().len() && !#[trigger] self.outcomes()[j] {
            let j = choose|j: int| 0 <= j < self.outcomes().len() && !#[trigger] self.outcomes()[j];
            assert(!self.ok@[j]);
        }
    }
}

} // verus!
