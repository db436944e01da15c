//! Runtime caps on what the plugin holds in memory.
//!
//! The defaults suit an ordinary game server; a job that needs more can raise
//! a cap and a stricter deployment can lower one. A cap is never zero or
//! negative: such a value would either refuse everything or mean "unlimited",
//! which is the state the caps exist to prevent.
use vstd::prelude::*;

verus! {

/// Saved caches held by `cache_save` at once.
pub const DEFAULT_SAVED_CACHES: usize = 1024;

/// Rows a single result set may carry.
pub const DEFAULT_RESULT_ROWS: usize = 100_000;

/// Bytes an ORM string variable may bind.
pub const DEFAULT_ORM_STRING_LEN: usize = 4096;

/// Which cap a `mysql_limit_*` native addresses. The numbering is the Pawn
/// enum and part of the API.
#[derive(Clone, Copy, PartialEq, Eq, Debug, Structural)]
pub enum Limit {
    SavedCaches,
    ResultRows,
    OrmStringLen,
}

pub open spec fn limit_of_id(id: i32) -> Option<Limit> {
    if id == 0 {
        Some(Limit::SavedCaches)
    } else if id == 1 {
        Some(Limit::ResultRows)
    } else if id == 2 {
        Some(Limit::OrmStringLen)
    } else {
        None
    }
}

impl Limit {
    /// The Pawn constant, or `None` when the script passed something else.
    pub fn from_id(id: i32) -> (r: Option<Self>)
        ensures
            r == limit_of_id(id),
    {
        match id {
            0 => Some(Limit::SavedCaches),
            1 => Some(Limit::ResultRows),
            2 => Some(Limit::OrmStringLen),
            _ => None,
        }
    }

    /// The Pawn name of the cap, for messages.
    pub fn name(self) -> (s: &'static str)
        ensures
            s@ == (match self {
                Limit::SavedCaches => "MYSQL_LIMIT_SAVED_CACHES"@,
                Limit::ResultRows => "MYSQL_LIMIT_RESULT_ROWS"@,
                Limit::OrmStringLen => "MYSQL_LIMIT_ORM_STRING_LEN"@,
            }),
    {
        match self {
            Limit::SavedCaches => "MYSQL_LIMIT_SAVED_CACHES",
            Limit::ResultRows => "MYSQL_LIMIT_RESULT_ROWS",
            Limit::OrmStringLen => "MYSQL_LIMIT_ORM_STRING_LEN",
        }
    }
}

/// The current value of every cap.
pub struct Limits {
    saved_caches: usize,
    result_rows: usize,
    orm_string_len: usize,
}

impl Limits {
    /// The value of one cap.
    pub closed spec fn cap(&self, limit: Limit) -> usize {
        match limit {
            Limit::SavedCaches => self.saved_caches,
            Limit::ResultRows => self.result_rows,
            Limit::OrmStringLen => self.orm_string_len,
        }
    }

    /// Every cap lies in `1..=i32::MAX`: a cap is set from a positive script
    /// cell.
    pub closed spec fn wf(&self) -> bool {
        &&& 1 <= self.saved_caches <= i32::MAX
        &&& 1 <= self.result_rows <= i32::MAX
        &&& 1 <= self.orm_string_len <= i32::MAX
    }

    /// Every cap of valid limits is positive and fits in a script cell.
    pub proof fn lemma_caps_fit(&self, limit: Limit)
        requires
            self.wf(),
        ensures
            1 <= self.cap(limit) <= i32::MAX,
    {
    }

    /// Every cap at its documented default.
    pub fn new() -> (l: Self)
        ensures
            l.wf(),
            l.cap(Limit::SavedCaches) == DEFAULT_SAVED_CACHES,
            l.cap(Limit::ResultRows) == DEFAULT_RESULT_ROWS,
            l.cap(Limit::OrmStringLen) == DEFAULT_ORM_STRING_LEN,
    {
        Limits {
            saved_caches: DEFAULT_SAVED_CACHES,
            result_rows: DEFAULT_RESULT_ROWS,
            orm_string_len: DEFAULT_ORM_STRING_LEN,
        }
    }
}

/// Current value of a cap.
pub fn get(limits: &Limits, limit: Limit) -> (v: usize)
    ensures
        v == limits.cap(limit),
{
    match limit {
        Limit::SavedCaches => limits.saved_caches,
        Limit::ResultRows => limits.result_rows,
        Limit::OrmStringLen => limits.orm_string_len,
    }
}

/// Sets a cap, refusing zero and negatives. Lowering a cap below what is
/// already held keeps what is there and refuses the next one.
pub fn set(limits: &mut Limits, limit: Limit, value: i32) -> (ok: bool)
    requires
        old(limits).wf(),
    ensures
        final(limits).wf(),
        ok == (value > 0),
        ok ==> final(limits).cap(limit) == value as usize,
        forall|other: Limit| (!ok || other != limit) ==> #[trigger] final(limits).cap(other) == old(limits).cap(other),
{
    if value <= 0 {
        return false;
    }
    let v = value as usize;
    match limit {
        Limit::SavedCaches => limits.saved_caches = v,
        Limit::ResultRows => limits.result_rows = v,
        Limit::OrmStringLen => limits.orm_string_len = v,
    }
    true
}

/// Saved caches held at once.
pub fn saved_caches(limits: &Limits) -> (v: usize)
    ensures
        v == limits.cap(Limit::SavedCaches),
{
    get(limits, Limit::SavedCaches)
}

/// Rows a single result set may carry.
pub fn result_rows(limits: &Limits) -> (v: usize)
    ensures
        v == limits.cap(Limit::ResultRows),
{
    get(limits, Limit::ResultRows)
}

/// Bytes an ORM string variable may bind.
pub fn orm_string_len(limits: &Limits) -> (v: usize)
    ensures
        v == limits.cap(Limit::OrmStringLen),
{
    get(limits, Limit::OrmStringLen)
}

/// The ORM string cap as a Pawn cell, saturated at `i32::MAX`.
pub fn orm_string_len_i32(limits: &Limits) -> (v: i32)
    ensures
        v == (if limits.cap(Limit::OrmStringLen) <= i32::MAX {
            limits.cap(Limit::OrmStringLen) as i32
        } else {
            i32::MAX
        }),
        limits.wf() ==> v >= 1 && v as int == limits.cap(Limit::OrmStringLen) as int,
{
    let n = orm_string_len(limits);
    if n <= i32::MAX as usize {
        n as i32
    } else {
        i32::MAX
    }
}

/// A cap that was set reads back as set, and setting one cap leaves the
/// others alone; a refused value changes nothing.
pub proof fn lemma_set_then_get(before: Limits, after: Limits, limit: Limit, value: i32, other: Limit)
    requires
        before.wf(),
        after.wf(),
        value > 0 ==> after.cap(limit) == value as usize,
        forall|o: Limit| (value <= 0 || o != limit) ==> #[trigger] after.cap(o) == before.cap(o),
    ensures
        value > 0 ==> after.cap(limit) == value,
        value <= 0 ==> after.cap(limit) == before.cap(limit),
        other != limit ==> after.cap(other) == before.cap(other),
        after.cap(other) >= 1,
{
}

} // verus!
