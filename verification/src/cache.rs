//! Query results as the plugin keeps them: an active stack, pushed while a
//! callback runs, and saved caches addressed by id.
use vstd::prelude::*;

use crate::idmap::{advance_handle, next_handle, IdMap};
use crate::limits::{self, Limit, Limits};
use crate::text::{ascii_ci_eq, eq_ignore_ascii_case};

verus! {

/// A single row: `None` is SQL NULL.
pub type CacheRow = Vec<Option<String>>;

/// Mathematical content of a result set.
pub struct ResultSetView {
    pub rows: Seq<Seq<Option<Seq<char>>>>,
    pub field_names: Seq<Seq<char>>,
    pub field_types: Seq<u8>,
}

/// One result set: rows plus the column metadata that describes them.
pub struct ResultSet {
    pub rows: Vec<CacheRow>,
    pub field_names: Vec<String>,
    pub field_types: Vec<u8>,
}

impl View for ResultSet {
    type V = ResultSetView;

    open spec fn view(&self) -> ResultSetView {
        ResultSetView {
            rows: self.rows.deep_view(),
            field_names: self.field_names.deep_view(),
            field_types: self.field_types@,
        }
    }
}

pub open spec fn empty_set_view() -> ResultSetView {
    ResultSetView {
        rows: Seq::empty(),
        field_names: Seq::empty(),
        field_types: Seq::empty(),
    }
}

impl Default for ResultSet {
    fn default() -> (r: Self)
        ensures
            r@ == empty_set_view(),
    {
        let r = ResultSet { rows: Vec::new(), field_names: Vec::new(), field_types: Vec::new() };
        assert(r@.rows =~= Seq::<Seq<Option<Seq<char>>>>::empty());
        assert(r@.field_names =~= Seq::<Seq<char>>::empty());
        r
    }
}

fn copy_strings(v: &Vec<String>) -> (r: Vec<String>)
    ensures
        r.deep_view() == v.deep_view(),
{
    let mut out: Vec<String> = Vec::new();
    let mut i: usize = 0;
    while i < v.len()
        invariant
            i <= v@.len(),
            out@.len() == i,
            forall|j: int| 0 <= j < i ==> #[trigger] out@[j].deep_view() == v@[j].deep_view(),
        decreases v@.len() - i,
    {
        out.push(v[i].clone());
        i = i + 1;
    }
    assert(out.deep_view() =~= v.deep_view());
    out
}

fn copy_row(v: &CacheRow) -> (r: CacheRow)
    ensures
        r.deep_view() == v.deep_view(),
{
    let mut out: CacheRow = Vec::new();
    let mut i: usize = 0;
    while i < v.len()
        invariant
            i <= v@.len(),
            out@.len() == i,
            forall|j: int| 0 <= j < i ==> #[trigger] out@[j].deep_view() == v@[j].deep_view(),
        decreases v@.len() - i,
    {
        let cell: Option<String> = match &v[i] {
            Some(s) => Some(s.clone()),
            None => None,
        };
        out.push(cell);
        i = i + 1;
    }
    assert(out.deep_view() =~= v.deep_view());
    out
}

fn copy_rows(v: &Vec<CacheRow>) -> (r: Vec<CacheRow>)
    ensures
        r.deep_view() == v.deep_view(),
{
    let mut out: Vec<CacheRow> = Vec::new();
    let mut i: usize = 0;
    while i < v.len()
        invariant
            i <= v@.len(),
            out@.len() == i,
            forall|j: int| 0 <= j < i ==> #[trigger] out@[j].deep_view() == v@[j].deep_view(),
        decreases v@.len() - i,
    {
        let row = copy_row(&v[i]);
        out.push(row);
        i = i + 1;
    }
    assert(out.deep_view() =~= v.deep_view());
    out
}

fn copy_bytes(v: &Vec<u8>) -> (r: Vec<u8>)
    ensures
        r@ == v@,
{
    let mut out: Vec<u8> = Vec::new();
    let mut i: usize = 0;
    while i < v.len()
        invariant
            i <= v@.len(),
            out@ == v@.take(i as int),
        decreases v@.len() - i,
    {
        out.push(v[i]);
        proof {
            assert(out@ =~= v@.take(i + 1));
        }
        i = i + 1;
    }
    assert(v@.take(i as int) =~= v@);
    out
}

impl Clone for ResultSet {
    /// A deep copy: every row, name and type.
    fn clone(&self) -> (r: Self)
        ensures
            r@ == self@,
    {
        ResultSet {
            rows: copy_rows(&self.rows),
            field_names: copy_strings(&self.field_names),
            field_types: copy_bytes(&self.field_types),
        }
    }
}

/// Mathematical content of a cache entry.
pub struct CacheEntryView {
    pub results: Seq<ResultSetView>,
    pub active: int,
    pub affected_rows: u64,
    pub insert_id: u64,
    pub warning_count: u16,
    pub exec_time_us: u128,
    pub query_string: Seq<char>,
}

impl CacheEntryView {
    /// The result set the readers report on.
    pub open spec fn active_set(self) -> ResultSetView {
        self.results[self.active]
    }

    pub open spec fn with_active(self, index: int) -> CacheEntryView {
        CacheEntryView { active: index, ..self }
    }
}

/// `k` is the position of the first name equal to `name` up to ASCII case.
pub open spec fn is_first_ci_match(names: Seq<Seq<char>>, name: Seq<char>, k: int) -> bool {
    &&& 0 <= k < names.len()
    &&& ascii_ci_eq(names[k], name)
    &&& forall|j: int| 0 <= j < k ==> !ascii_ci_eq(#[trigger] names[j], name)
}

/// Position of the first name equal to `name` up to ASCII case.
pub open spec fn first_ci_match(names: Seq<Seq<char>>, name: Seq<char>) -> Option<int> {
    if exists|k: int| is_first_ci_match(names, name, k) {
        Some(choose|k: int| is_first_ci_match(names, name, k))
    } else {
        None
    }
}

/// The result of one query: every result set it produced plus the
/// connection's statistics. Readers report on the selected result set,
/// the first until `set_result` changes it.
pub struct CacheEntry {
    results: Vec<ResultSet>,
    active_result: usize,
    affected_rows: u64,
    insert_id: u64,
    warning_count: u16,
    exec_time_us: u128,
    query_string: String,
}

impl View for CacheEntry {
    type V = CacheEntryView;

    closed spec fn view(&self) -> CacheEntryView {
        CacheEntryView {
            results: self.results@.map_values(|r: ResultSet| r@),
            active: self.active_result as int,
            affected_rows: self.affected_rows,
            insert_id: self.insert_id,
            warning_count: self.warning_count,
            exec_time_us: self.exec_time_us,
            query_string: self.query_string@,
        }
    }
}

impl CacheEntry {
    /// There is always a result set, and the selection points at one.
    #[verifier::type_invariant]
    spec fn inv(self) -> bool {
        &&& self.results@.len() >= 1
        &&& self.active_result < self.results@.len()
    }

    pub fn with_results(
        results: Vec<ResultSet>,
        affected_rows: u64,
        insert_id: u64,
        warning_count: u16,
        exec_time_us: u128,
        query_string: String,
    ) -> (e: Self)
        ensures
            e@.results == (if results@.len() == 0 {
                seq![empty_set_view()]
            } else {
                results@.map_values(|r: ResultSet| r@)
            }),
            e@.active == 0,
            e@.affected_rows == affected_rows,
            e@.insert_id == insert_id,
            e@.warning_count == warning_count,
            e@.exec_time_us == exec_time_us,
            e@.query_string == query_string@,
    {
        let results = if results.len() == 0 {
            let mut v: Vec<ResultSet> = Vec::new();
            v.push(ResultSet::default());
            proof {
                assert(v@.map_values(|r: ResultSet| r@) =~= seq![empty_set_view()]);
            }
            v
        } else {
            results
        };
        CacheEntry {
            results,
            active_result: 0,
            affected_rows,
            insert_id,
            warning_count,
            exec_time_us,
            query_string,
        }
    }

    pub fn empty(query_string: String) -> (e: Self)
        ensures
            e@.results == seq![empty_set_view()],
            e@.active == 0,
            e@.affected_rows == 0,
            e@.insert_id == 0,
            e@.warning_count == 0,
            e@.exec_time_us == 0,
            e@.query_string == query_string@,
    {
        Self::with_results(Vec::new(), 0, 0, 0, 0, query_string)
    }

    /// Every entry holds a result set and selects one of them.
    pub fn result_count(&self) -> (n: usize)
        ensures
            n == self@.results.len(),
            n >= 1,
            0 <= self@.active < n,
    {
        proof { use_type_invariant(self); }
        self.results.len()
    }

    /// Selects the result set the readers report on; an index out of range
    /// is refused and leaves the entry unchanged.
    pub fn set_result(&mut self, index: usize) -> (ok: bool)
        ensures
            ok == (index < old(self)@.results.len()),
            final(self)@ == (if ok { old(self)@.with_active(index as int) } else { old(self)@ }),
    {
        if index >= self.results.len() {
            return false;
        }
        self.active_result = index;
        true
    }

    fn active(&self) -> (r: &ResultSet)
        ensures
            r@ == self@.active_set(),
    {
        proof { use_type_invariant(self); }
        &self.results[self.active_result]
    }

    /// A deep copy of every result set, keeping the selection.
    pub fn duplicate(&self) -> (e: Self)
        ensures
            e@ == self@,
    {
        proof { use_type_invariant(self); }
        let mut results: Vec<ResultSet> = Vec::new();
        let mut i: usize = 0;
        while i < self.results.len()
            invariant
                i <= self.results@.len(),
                results@.len() == i,
                forall|j: int| 0 <= j < i ==> #[trigger] results@[j]@ == self.results@[j]@,
            decreases self.results@.len() - i,
        {
            results.push(self.results[i].clone());
            i = i + 1;
        }
        let e = CacheEntry {
            results,
            active_result: self.active_result,
            affected_rows: self.affected_rows,
            insert_id: self.insert_id,
            warning_count: self.warning_count,
            exec_time_us: self.exec_time_us,
            query_string: self.query_string.clone(),
        };
        assert(e@.results =~= self@.results);
        e
    }

    pub fn row_count(&self) -> (n: usize)
        ensures
            n == self@.active_set().rows.len(),
    {
        self.active().rows.len()
    }

    pub fn field_count(&self) -> (n: usize)
        ensures
            n == self@.active_set().field_names.len(),
    {
        self.active().field_names.len()
    }

    pub fn field_name(&self, index: usize) -> (r: Option<&str>)
        ensures
            match r {
                Some(name) => index < self@.active_set().field_names.len()
                    && name@ == self@.active_set().field_names[index as int],
                None => index >= self@.active_set().field_names.len(),
            },
    {
        let set = self.active();
        if index < set.field_names.len() {
            Some(set.field_names[index].as_str())
        } else {
            None
        }
    }

    /// Column of the first field whose name matches `name` ignoring ASCII case.
    pub fn field_index(&self, name: &str) -> (r: Option<usize>)
        ensures
            r matches Some(i) ==> first_ci_match(self@.active_set().field_names, name@) == Some(i as int),
            r is None ==> first_ci_match(self@.active_set().field_names, name@) is None,
    {
        let set = self.active();
        let ghost names = self@.active_set().field_names;
        let mut i: usize = 0;
        while i < set.field_names.len()
            invariant
                names == set.field_names.deep_view(),
                names == self@.active_set().field_names,
                i <= names.len(),
                forall|j: int| 0 <= j < i ==> !ascii_ci_eq(#[trigger] names[j], name@),
            decreases names.len() - i,
        {
            if eq_ignore_ascii_case(set.field_names[i].as_str(), name) {
                proof {
                    assert(is_first_ci_match(names, name@, i as int));
                    let w = choose|k: int| is_first_ci_match(names, name@, k);
                    assert(is_first_ci_match(names, name@, w));
                    if w < i {
                        assert(!ascii_ci_eq(names[w], name@));
                    } else if w > i {
                        assert(!ascii_ci_eq(names[i as int], name@));
                    }
                }
                return Some(i);
            }
            i = i + 1;
        }
        proof {
            if exists|k: int| is_first_ci_match(names, name@, k) {
                let w = choose|k: int| is_first_ci_match(names, name@, k);
                assert(!ascii_ci_eq(names[w], name@));
            }
        }
        None
    }

    pub fn get_value(&self, row: usize, col: usize) -> (r: Option<&Option<String>>)
        ensures
            match r {
                Some(cell) => {
                    &&& row < self@.active_set().rows.len()
                    &&& col < self@.active_set().rows[row as int].len()
                    &&& cell.deep_view() == self@.active_set().rows[row as int][col as int]
                },
                None => row >= self@.active_set().rows.len() || col
                    >= self@.active_set().rows[row as int].len(),
            },
    {
        let set = self.active();
        if row < set.rows.len() && col < set.rows[row].len() {
            Some(&set.rows[row][col])
        } else {
            None
        }
    }

    pub fn affected_rows(&self) -> (n: u64)
        ensures
            n == self@.affected_rows,
    {
        self.affected_rows
    }

    pub fn insert_id(&self) -> (n: u64)
        ensures
            n == self@.insert_id,
    {
        self.insert_id
    }

    /// Execution time in whole milliseconds (truncated).
    pub fn exec_time_ms(&self) -> (n: u128)
        ensures
            n == self@.exec_time_us / 1000,
    {
        self.exec_time_us / 1000
    }

    pub fn query_string(&self) -> (s: &str)
        ensures
            s@ == self@.query_string,
    {
        self.query_string.as_str()
    }

    pub fn warning_count(&self) -> (n: u16)
        ensures
            n == self@.warning_count,
    {
        self.warning_count
    }

    pub fn field_type(&self, index: usize) -> (r: Option<u8>)
        ensures
            match r {
                Some(t) => index < self@.active_set().field_types.len()
                    && t == self@.active_set().field_types[index as int],
                None => index >= self@.active_set().field_types.len(),
            },
    {
        let set = self.active();
        if index < set.field_types.len() {
            Some(set.field_types[index])
        } else {
            None
        }
    }
}

proof fn lemma_map_values_insert(m: Map<i32, CacheEntry>, k: i32, e: CacheEntry)
    ensures
        m.insert(k, e).map_values(|x: CacheEntry| x@) == m.map_values(|x: CacheEntry| x@).insert(k, e@),
{
    assert(m.insert(k, e).map_values(|x: CacheEntry| x@) =~= m.map_values(|x: CacheEntry| x@).insert(k, e@));
}

proof fn lemma_seq_values_update(s: Seq<CacheEntry>, i: int, e: CacheEntry)
    requires
        0 <= i < s.len(),
    ensures
        s.update(i, e).map_values(|x: CacheEntry| x@) == s.map_values(|x: CacheEntry| x@).update(i, e@),
{
    assert(s.update(i, e).map_values(|x: CacheEntry| x@) =~= s.map_values(|x: CacheEntry| x@).update(i, e@));
}

/// Mathematical state of the cache manager.
pub struct CacheManagerView {
    pub stack: Seq<CacheEntryView>,
    pub saved: Map<i32, CacheEntryView>,
    pub next_saved_id: i32,
    pub manual: Option<i32>,
}

/// The cache the `cache_*` readers see: the manually activated saved cache
/// if there is one, else the top of the stack.
pub open spec fn active_of(v: CacheManagerView) -> Option<CacheEntryView> {
    match v.manual {
        Some(id) => if v.saved.contains_key(id) {
            Some(v.saved[id])
        } else {
            None
        },
        None => if v.stack.len() > 0 {
            Some(v.stack.last())
        } else {
            None
        },
    }
}

/// A manually activated cache is always a saved one; ids handed out are positive.
pub open spec fn manager_view_wf(v: CacheManagerView) -> bool {
    &&& v.manual matches Some(id) ==> v.saved.contains_key(id)
    &&& v.next_saved_id >= 1
    &&& v.saved.dom().finite()
}

pub open spec fn push_spec(v: CacheManagerView, e: CacheEntryView) -> CacheManagerView {
    CacheManagerView { stack: v.stack.push(e), ..v }
}

pub open spec fn pop_spec(v: CacheManagerView) -> (CacheManagerView, Option<CacheEntryView>) {
    if v.stack.len() == 0 {
        (v, None)
    } else {
        (CacheManagerView { stack: v.stack.drop_last(), ..v }, Some(v.stack.last()))
    }
}

/// `cache_save` under a cap of `cap` saved caches: copies the active cache
/// under the next id, or refuses (0).
pub open spec fn save_spec(v: CacheManagerView, cap: usize) -> (CacheManagerView, i32) {
    if v.saved.len() >= cap {
        (v, 0)
    } else {
        match active_of(v) {
            None => (v, 0),
            Some(e) => (
                CacheManagerView {
                    saved: v.saved.insert(v.next_saved_id, e),
                    next_saved_id: next_handle(v.next_saved_id),
                    ..v
                },
                v.next_saved_id,
            ),
        }
    }
}

pub open spec fn delete_spec(v: CacheManagerView, id: i32) -> (CacheManagerView, bool) {
    (
        CacheManagerView {
            saved: v.saved.remove(id),
            manual: if v.manual == Some(id) {
                None
            } else {
                v.manual
            },
            ..v
        },
        v.saved.contains_key(id),
    )
}

pub open spec fn set_active_spec(v: CacheManagerView, id: i32) -> (CacheManagerView, bool) {
    if v.saved.contains_key(id) {
        (CacheManagerView { manual: Some(id), ..v }, true)
    } else {
        (v, false)
    }
}

pub open spec fn unset_active_spec(v: CacheManagerView) -> (CacheManagerView, bool) {
    (CacheManagerView { manual: None, ..v }, v.manual is Some)
}

/// The state after the active cache was changed to `e` in place.
pub open spec fn replace_active(v: CacheManagerView, e: CacheEntryView) -> CacheManagerView {
    match v.manual {
        Some(id) => CacheManagerView { saved: v.saved.insert(id, e), ..v },
        None => CacheManagerView { stack: v.stack.update(v.stack.len() - 1, e), ..v },
    }
}

/// Manages the active cache stack and the saved caches.
///
/// Executing a query pushes its entry; the callback's return pops it. Saved
/// caches persist independently, and one of them can be activated by hand,
/// which overrides the stack.
pub struct CacheManager {
    active_stack: Vec<CacheEntry>,
    saved: IdMap<CacheEntry>,
    /// The id the next `save` hands out.
    pub next_saved_id: i32,
    manual_active: Option<i32>,
}

impl View for CacheManager {
    type V = CacheManagerView;

    closed spec fn view(&self) -> CacheManagerView {
        CacheManagerView {
            stack: self.active_stack@.map_values(|e: CacheEntry| e@),
            saved: self.saved@.map_values(|e: CacheEntry| e@),
            next_saved_id: self.next_saved_id,
            manual: self.manual_active,
        }
    }
}

impl CacheManager {
    pub closed spec fn wf(&self) -> bool {
        &&& self.saved.wf()
        &&& manager_view_wf(self@)
    }

    /// A valid manager has a valid view, so the laws below apply to it.
    pub proof fn lemma_view_wf(&self)
        requires
            self.wf(),
        ensures
            manager_view_wf(self@),
    {
    }

    pub fn new() -> (m: Self)
        ensures
            m.wf(),
            m@.stack == Seq::<CacheEntryView>::empty(),
            m@.saved == Map::<i32, CacheEntryView>::empty(),
            m@.next_saved_id == 1,
            m@.manual is None,
    {
        let m = CacheManager {
            active_stack: Vec::new(),
            saved: IdMap::new(),
            next_saved_id: 1,
            manual_active: None,
        };
        assert(m@.stack =~= Seq::<CacheEntryView>::empty());
        assert(m@.saved =~= Map::<i32, CacheEntryView>::empty());
        m
    }

    pub fn push_active(&mut self, entry: CacheEntry)
        requires
            old(self).wf(),
        ensures
            final(self).wf(),
            final(self)@ == push_spec(old(self)@, entry@),
    {
        self.active_stack.push(entry);
        assert(self@.stack =~= old(self)@.stack.push(entry@));
    }

    pub fn pop_active(&mut self) -> (r: Option<CacheEntry>)
        requires
            old(self).wf(),
        ensures
            final(self).wf(),
            final(self)@ == pop_spec(old(self)@).0,
            match r {
                Some(e) => pop_spec(old(self)@).1 == Some(e@),
                None => pop_spec(old(self)@).1 is None,
            },
    {
        let r = self.active_stack.pop();
        assert(self@.stack =~= pop_spec(old(self)@).0.stack);
        r
    }

    pub fn get_active(&self) -> (r: Option<&CacheEntry>)
        requires
            self.wf(),
        ensures
            match r {
                Some(e) => active_of(self@) == Some(e@),
                None => active_of(self@) is None,
            },
    {
        if let Some(id) = self.manual_active {
            return self.saved.get(id);
        }
        let n = self.active_stack.len();
        if n > 0 {
            Some(&self.active_stack[n - 1])
        } else {
            None
        }
    }

    /// Mutable access to the active cache (used to select a result set);
    /// what is written through it replaces the active cache in place.
    pub fn get_active_mut(&mut self) -> (r: Option<&mut CacheEntry>)
        requires
            old(self).wf(),
        ensures
            match r {
                Some(e) => {
                    &&& active_of(old(self)@) == Some(e@)
                    &&& final(self).wf()
                    &&& final(self)@ == replace_active(old(self)@, final(e)@)
                },
                None => active_of(old(self)@) is None && *final(self) == *old(self),
            },
    {
        let ghost pre_saved = self.saved@;
        let ghost pre_stack = self.active_stack@;
        if let Some(id) = self.manual_active {
            match self.saved.get_mut(id) {
                Some(e) => {
                    proof {
                        lemma_map_values_insert(pre_saved, id, *final(e));
                    }
                    return Some(e);
                },
                None => {
                    return None;
                },
            }
        }
        let n = self.active_stack.len();
        if n > 0 {
            let r = &mut self.active_stack[n - 1];
            proof {
                lemma_seq_values_update(pre_stack, n - 1, *final(r));
            }
            Some(r)
        } else {
            None
        }
    }

    /// Copies the active cache into saved storage. Returns its id, or 0 when
    /// no cache is active or as many caches are saved as the saved-caches
    /// limit allows (`MYSQL_LIMIT_SAVED_CACHES`).
    pub fn save(&mut self, limits: &Limits) -> (id: i32)
        requires
            old(self).wf(),
        ensures
            final(self).wf(),
            (final(self)@, id) == save_spec(old(self)@, limits.cap(Limit::SavedCaches)),
    {
        proof {
            assert(self@.saved.dom() =~= self.saved@.dom());
        }
        if self.saved.len() >= limits::saved_caches(limits) {
            return 0;
        }
        let cloned = match self.get_active() {
            Some(a) => a.duplicate(),
            None => return 0,
        };
        let id = self.next_saved_id;
        self.next_saved_id = advance_handle(self.next_saved_id);
        let ghost cv = cloned@;
        self.saved.insert(id, cloned);
        proof {
            assert(self@.saved =~= old(self)@.saved.insert(id, cv));
        }
        id
    }

    /// Deletes a saved cache, deactivating it if it was the manual one.
    pub fn delete(&mut self, id: i32) -> (ok: bool)
        requires
            old(self).wf(),
        ensures
            final(self).wf(),
            (final(self)@, ok) == delete_spec(old(self)@, id),
    {
        if self.manual_active == Some(id) {
            self.manual_active = None;
        }
        let r = self.saved.remove(id);
        proof {
            assert(self@.saved =~= old(self)@.saved.remove(id));
        }
        r.is_some()
    }

    /// Activates a saved cache by hand (overrides the stack top).
    pub fn set_active(&mut self, id: i32) -> (ok: bool)
        requires
            old(self).wf(),
        ensures
            final(self).wf(),
            (final(self)@, ok) == set_active_spec(old(self)@, id),
    {
        if self.saved.contains_key(id) {
            self.manual_active = Some(id);
            true
        } else {
            false
        }
    }

    /// Deactivates the manually activated cache.
    pub fn unset_active(&mut self) -> (ok: bool)
        requires
            old(self).wf(),
        ensures
            final(self).wf(),
            (final(self)@, ok) == unset_active_spec(old(self)@),
    {
        if self.manual_active.is_some() {
            self.manual_active = None;
            true
        } else {
            false
        }
    }

    pub fn is_valid(&self, id: i32) -> (b: bool)
        requires
            self.wf(),
        ensures
            b == self@.saved.contains_key(id),
    {
        self.saved.contains_key(id)
    }

    pub fn is_any_active(&self) -> (b: bool)
        requires
            self.wf(),
        ensures
            b == (active_of(self@) is Some),
    {
        self.get_active().is_some()
    }
}

/// Popping right after a push hands back the pushed entry and restores the
/// manager exactly: the active stack is last-in, first-out.
pub proof fn lemma_push_then_pop(v: CacheManagerView, e: CacheEntryView)
    ensures
        pop_spec(push_spec(v, e)) == (v, Some(e)),
{
    assert(push_spec(v, e).stack.drop_last() =~= v.stack);
}

/// With no cache activated by hand, a pushed entry is the one the readers see.
pub proof fn lemma_pushed_entry_is_active(v: CacheManagerView, e: CacheEntryView)
    requires
        v.manual is None,
    ensures
        active_of(push_spec(v, e)) == Some(e),
{
}

/// A cache activated by hand overrides the stack; unsetting it returns the
/// readers to the stack top.
pub proof fn lemma_manual_overrides_stack(v: CacheManagerView, id: i32)
    requires
        manager_view_wf(v),
        v.saved.contains_key(id),
    ensures
        set_active_spec(v, id).1,
        active_of(set_active_spec(v, id).0) == Some(v.saved[id]),
        active_of(unset_active_spec(set_active_spec(v, id).0).0) == (if v.stack.len() > 0 {
            Some(v.stack.last())
        } else {
            None
        }),
{
}

/// A successful save hands out a positive id; activating that id shows a copy
/// of the cache that was active when it was saved, whatever happens to the
/// stack afterwards.
pub proof fn lemma_save_then_restore(v: CacheManagerView, cap: usize, later_stack: Seq<CacheEntryView>)
    requires
        manager_view_wf(v),
        save_spec(v, cap).1 != 0,
    ensures
        save_spec(v, cap).1 >= 1,
        manager_view_wf(save_spec(v, cap).0),
        ({
            let saved = CacheManagerView { stack: later_stack, ..save_spec(v, cap).0 };
            let (restored, ok) = set_active_spec(saved, save_spec(v, cap).1);
            ok && active_of(restored) == active_of(v)
        }),
{
}

/// Saving fails (returns 0, changes nothing) exactly when no cache is active
/// or the limit of saved caches is reached.
pub proof fn lemma_save_fails_only_without_room_or_cache(v: CacheManagerView, cap: usize)
    requires
        manager_view_wf(v),
    ensures
        (save_spec(v, cap).1 == 0) == (v.saved.len() >= cap || active_of(v) is None),
        save_spec(v, cap).1 == 0 ==> save_spec(v, cap).0 == v,
{
}

/// After `delete`, the id is no longer valid and no reader can see the
/// deleted cache.
pub proof fn lemma_delete_invalidates(v: CacheManagerView, id: i32)
    requires
        manager_view_wf(v),
    ensures
        !delete_spec(v, id).0.saved.contains_key(id),
        manager_view_wf(delete_spec(v, id).0),
        delete_spec(v, id).0.manual != Some(id),
{
}

} // verus!
