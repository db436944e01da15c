//! Callback descriptions and the order in which finished queries are handed
//! back to scripts.
//!
//! Queries run on worker threads and finish in any order. `mysql_query`
//! promises first-in first-out callbacks, so each such query takes a sequence
//! number when it is submitted, and a finished one waits until every earlier
//! one has been handed back. `mysql_pquery` makes no such promise: its results
//! go out in the tick in which they arrive, after the in-order ones.
use vstd::prelude::*;

use crate::text::chars_of;

verus! {

broadcast use vstd::string::group_string_axioms;

/// A parameter passed to a script callback. A float travels as its bit
/// pattern, which is also how the script's stack holds it.
#[derive(Debug, Clone)]
pub enum CallbackParam {
    Int(i32),
    Float(u32),
    String(String),
}

/// The public function to call when a query finishes, and its arguments.
#[derive(Debug, Clone)]
pub struct CallbackInfo {
    pub name: String,
    pub format: String,
    pub params: Vec<CallbackParam>,
}

/// Whether parameter `p` is what format character `c` asks for.
pub open spec fn param_fits(c: char, p: CallbackParam) -> bool {
    ||| (c == 'd' || c == 'i') && p is Int
    ||| c == 'f' && p is Float
    ||| c == 's' && p is String
}

/// The parameters pushed for format positions below `i`, last position
/// first (a script's stack takes arguments in reverse): a position is pushed
/// when it has a parameter of the kind its character asks for.
pub open spec fn push_order(f: Seq<char>, ps: Seq<CallbackParam>, i: int) -> Seq<usize>
    decreases i,
{
    if i <= 0 {
        Seq::empty()
    } else {
        (if i - 1 < ps.len() && i - 1 < f.len() && param_fits(f[i - 1], ps[i - 1]) {
            seq![(i - 1) as usize]
        } else {
            Seq::empty()
        }) + push_order(f, ps, i - 1)
    }
}

fn fits(c: char, p: &CallbackParam) -> (b: bool)
    ensures
        b == param_fits(c, *p),
{
    match p {
        CallbackParam::Int(_) => c == 'd' || c == 'i',
        CallbackParam::Float(_) => c == 'f',
        CallbackParam::String(_) => c == 's',
    }
}

impl CallbackInfo {
    /// The indices of the parameters to push before calling the callback, in
    /// push order.
    pub fn push_order(&self) -> (r: Vec<usize>)
        ensures
            r@ == push_order(self.format@, self.params@, self.format@.len() as int),
    {
        let f = chars_of(self.format.as_str());
        let mut out: Vec<usize> = Vec::new();
        let mut i: usize = f.len();
        while i > 0
            invariant
                f@ == self.format@,
                i <= f@.len(),
                out@ + push_order(f@, self.params@, i as int) == push_order(
                    f@,
                    self.params@,
                    f@.len() as int,
                ),
            decreases i,
        {
            let ghost before = out@;
            if i - 1 < self.params.len() && fits(f[i - 1], &self.params[i - 1]) {
                out.push(i - 1);
            }
            proof {
                assert(out@ + push_order(f@, self.params@, i - 1) =~= before + push_order(
                    f@,
                    self.params@,
                    i as int,
                ));
            }
            i = i - 1;
        }
        proof {
            assert(out@ + push_order(f@, self.params@, 0) =~= out@);
        }
        out
    }
}


/// Which arguments a callback receives: position `p` of its format is pushed
/// exactly when it has a parameter of the kind its character names: `d` or
/// `i` (interchangeably) an integer, `f` a float, `s` a string. Positions
/// are pushed last first, each once.
pub proof fn lemma_push_order_follows_the_format(f: Seq<char>, ps: Seq<CallbackParam>, n: int)
    requires
        0 <= n <= f.len(),
        f.len() <= usize::MAX,
    ensures
        forall|p: usize|
            #[trigger] push_order(f, ps, n).contains(p) <==> (p < n && p < ps.len() && {
                let c = f[p as int];
                let x = ps[p as int];
                ||| (c == 'd' || c == 'i') && x is Int
                ||| c == 'f' && x is Float
                ||| c == 's' && x is String
            }),
        forall|a: int, b: int|
            0 <= a < b < push_order(f, ps, n).len() ==> push_order(f, ps, n)[a] > push_order(f, ps, n)[b],
        forall|a: int| 0 <= a < push_order(f, ps, n).len() ==> push_order(f, ps, n)[a] < n,
    decreases n,
{
    if n > 0 {
        lemma_push_order_follows_the_format(f, ps, n - 1);
        let rest = push_order(f, ps, n - 1);
        let here = if n - 1 < ps.len() && n - 1 < f.len() && param_fits(f[n - 1], ps[n - 1]) {
            seq![(n - 1) as usize]
        } else {
            Seq::<usize>::empty()
        };
        let all = push_order(f, ps, n);
        assert(all == here + rest);
        assert forall|p: usize| #[trigger] all.contains(p) <==> (p < n && p < ps.len() && {
            let c = f[p as int];
            let x = ps[p as int];
            ||| (c == 'd' || c == 'i') && x is Int
            ||| c == 'f' && x is Float
            ||| c == 's' && x is String
        }) by {
            if all.contains(p) {
                let j = choose|j: int| 0 <= j < all.len() && all[j] == p;
                if j < here.len() {
                    assert(all[j] == here[j]);
                    assert(p == n - 1);
                } else {
                    assert(rest[j - here.len()] == p);
                    assert(rest.contains(p));
                }
            }
            if p < n && p < ps.len() && param_fits(f[p as int], ps[p as int]) {
                if p == n - 1 {
                    assert(here.len() == 1);
                    assert(all[0] == here[0]);
                    assert(all[0] == p);
                } else {
                    assert(rest.contains(p));
                    let j = choose|j: int| 0 <= j < rest.len() && rest[j] == p;
                    assert(all[j + here.len()] == p);
                }
            }
        }
        assert forall|a: int, b: int| 0 <= a < b < all.len() implies all[a] > all[b] by {
            if a < here.len() {
                assert(all[a] == here[a]);
                assert(all[b] == rest[b - here.len()]);
                assert(rest[b - here.len()] < n - 1);
            } else {
                assert(all[a] == rest[a - here.len()]);
                assert(all[b] == rest[b - here.len()]);
            }
        }
        assert forall|a: int| 0 <= a < all.len() implies all[a] < n by {
            if a >= here.len() {
                assert(all[a] == rest[a - here.len()]);
            } else {
                assert(all[a] == here[a]);
            }
        }
    }
}

/// Keys from this one up are where in-arrival-order results wait.
pub open spec fn parallel_floor() -> u64 {
    u64::MAX / 2
}

/// Keys strictly increasing.
pub open spec fn sorted_keys<T>(s: Seq<(u64, T)>) -> bool {
    forall|a: int, b: int| 0 <= a < b < s.len() ==> s[a].0 < s[b].0
}

/// First index whose key is `k`, or the length.
pub open spec fn index_of_key<T>(s: Seq<(u64, T)>, k: u64, i: int) -> int
    decreases s.len() - i,
{
    if i < 0 || i >= s.len() {
        s.len() as int
    } else if s[i].0 == k {
        i
    } else {
        index_of_key(s, k, i + 1)
    }
}

/// First index whose key is at least `k`, or the length.
pub open spec fn first_at_least<T>(s: Seq<(u64, T)>, k: u64, i: int) -> int
    decreases s.len() - i,
{
    if i < 0 || i >= s.len() {
        s.len() as int
    } else if s[i].0 >= k {
        i
    } else {
        first_at_least(s, k, i + 1)
    }
}

pub proof fn lemma_index_of_key<T>(s: Seq<(u64, T)>, k: u64, i: int)
    requires
        0 <= i <= s.len(),
    ensures
        i <= index_of_key(s, k, i) <= s.len(),
        index_of_key(s, k, i) < s.len() ==> s[index_of_key(s, k, i)].0 == k,
        forall|j: int| i <= j < index_of_key(s, k, i) ==> #[trigger] s[j].0 != k,
    decreases s.len() - i,
{
    if i < s.len() && s[i].0 != k {
        lemma_index_of_key(s, k, i + 1);
    }
}

pub proof fn lemma_first_at_least<T>(s: Seq<(u64, T)>, k: u64, i: int)
    requires
        0 <= i <= s.len(),
    ensures
        i <= first_at_least(s, k, i) <= s.len(),
        first_at_least(s, k, i) < s.len() ==> s[first_at_least(s, k, i)].0 >= k,
        forall|j: int| i <= j < first_at_least(s, k, i) ==> #[trigger] s[j].0 < k,
    decreases s.len() - i,
{
    if i < s.len() && s[i].0 < k {
        lemma_first_at_least(s, k, i + 1);
    }
}

/// `d + 1`, wrapping past the largest sequence number.
pub open spec fn next_seq(d: u64) -> u64 {
    if d == u64::MAX {
        0
    } else {
        (d + 1) as u64
    }
}

/// The waiting items handed out in sequence from `d` on, the entries left
/// waiting, and the next sequence number expected.
pub open spec fn take_run<T>(s: Seq<(u64, T)>, d: u64) -> (Seq<T>, Seq<(u64, T)>, u64)
    decreases s.len(),
{
    proof {
        lemma_index_of_key(s, d, 0);
    }
    let i = index_of_key(s, d, 0);
    if i >= s.len() {
        (Seq::empty(), s, d)
    } else {
        let r = take_run(s.remove(i), next_seq(d));
        (seq![s[i].1] + r.0, r.1, r.2)
    }
}

/// The in-order run hands out the results of sequence numbers `d`, `d + 1`,
/// ... in that order, each exactly as it was stored; the counter moves on by
/// the number handed out; and the run stops only at a number that is not
/// waiting, so a missing result holds back every later one.
pub proof fn lemma_run_in_sequence<T>(s: Seq<(u64, T)>, d: u64)
    requires
        d + s.len() <= u64::MAX,
    ensures
        take_run(s, d).0.len() + take_run(s, d).1.len() == s.len(),
        take_run(s, d).2 == d + take_run(s, d).0.len(),
        index_of_key(take_run(s, d).1, take_run(s, d).2, 0) >= take_run(s, d).1.len(),
        forall|j: int|
            #![trigger take_run(s, d).0[j]]
            0 <= j < take_run(s, d).0.len() ==> exists|i: int|
                0 <= i < s.len() && #[trigger] s[i] == ((d + j) as u64, take_run(s, d).0[j]),
    decreases s.len(),
{
    lemma_index_of_key(s, d, 0);
    let i = index_of_key(s, d, 0);
    if i < s.len() {
        let t = s.remove(i);
        lemma_run_in_sequence(t, next_seq(d));
        let r = take_run(t, next_seq(d));
        let run = take_run(s, d);
        assert(run.0 == seq![s[i].1] + r.0);
        assert forall|j: int| #![trigger run.0[j]] 0 <= j < run.0.len() implies exists|k: int|
            0 <= k < s.len() && #[trigger] s[k] == ((d + j) as u64, run.0[j]) by {
            if j == 0 {
                assert(s[i] == ((d + j) as u64, run.0[j]));
            } else {
                assert(run.0[j] == r.0[j - 1]);
                let k2 = choose|k2: int| 0 <= k2 < t.len() && #[trigger] t[k2] == ((next_seq(d) + (j - 1)) as u64, r.0[j - 1]);
                let k = if k2 < i { k2 } else { k2 + 1 };
                assert(s[k] == t[k2]);
                assert(s[k] == ((d + j) as u64, run.0[j]));
            }
        }
    } else {
        assert(take_run(s, d).0 =~= Seq::<T>::empty());
    }
}

/// Successive polls continue where the last one stopped: the first hands out
/// sequence numbers `d`, `d + 1`, ... up to where it stops, and the next one,
/// whatever arrived in between, carries on from exactly that number. So over
/// any number of polls the in-order results come out as 0, 1, 2, ... in
/// submission order, none skipped.
pub proof fn lemma_successive_runs<T>(s1: Seq<(u64, T)>, d: u64, s2: Seq<(u64, T)>)
    requires
        d + s1.len() + s2.len() <= u64::MAX,
    ensures
        ({
            let first = take_run(s1, d);
            let second = take_run(s2, first.2);
            &&& first.2 == d + first.0.len()
            &&& second.2 == d + first.0.len() + second.0.len()
            &&& forall|j: int|
                #![trigger first.0[j]]
                0 <= j < first.0.len() ==> exists|i: int|
                    0 <= i < s1.len() && #[trigger] s1[i] == ((d + j) as u64, first.0[j])
            &&& forall|j: int|
                #![trigger second.0[j]]
                0 <= j < second.0.len() ==> exists|i: int|
                    0 <= i < s2.len() && #[trigger] s2[i] == ((d + first.0.len() + j) as u64, second.0[j])
        }),
{
    lemma_run_in_sequence(s1, d);
    let first = take_run(s1, d);
    lemma_run_in_sequence(s2, first.2);
    let second = take_run(s2, first.2);
    assert forall|j: int| #![trigger second.0[j]] 0 <= j < second.0.len() implies exists|i: int|
        0 <= i < s2.len() && #[trigger] s2[i] == ((d + first.0.len() + j) as u64, second.0[j]) by {
        assert(((first.2 + j) as u64) == ((d + first.0.len() + j) as u64));
    }
}

/// What successive polls hand out in order when the waiting entries at each
/// poll are `ss[0]`, `ss[1]`, ... (whatever arrived between them), starting
/// from sequence number `d`: the in-order results of all of them, one after
/// the other, and the sequence number expected next. Each poll starts where
/// the last one stopped, as `drain` does (and `accept` leaves that number
/// alone).
pub open spec fn runs<T>(ss: Seq<Seq<(u64, T)>>, d: u64) -> (Seq<T>, u64)
    decreases ss.len(),
{
    if ss.len() == 0 {
        (Seq::empty(), d)
    } else {
        let before = runs(ss.drop_last(), d);
        let t = take_run(ss.last(), before.1);
        (before.0 + t.0, t.2)
    }
}

/// The number of entries over all the polls.
pub open spec fn entries_total<T>(ss: Seq<Seq<(u64, T)>>) -> nat
    decreases ss.len(),
{
    if ss.len() == 0 {
        0
    } else {
        entries_total(ss.drop_last()) + ss.last().len()
    }
}

/// Over any number of polls, the in-order results come out by sequence
/// number: the `j`-th one handed out, counting across all polls, is the
/// result stored under sequence number `d + j`. So each sequence number is
/// handed out once, at its own place, and never before every smaller one;
/// and the next poll expects `d` plus the number handed out so far. (A
/// queue starts at `d = 0`.)
pub proof fn lemma_runs_in_sequence<T>(ss: Seq<Seq<(u64, T)>>, d: u64)
    requires
        d + entries_total(ss) <= u64::MAX,
    ensures
        runs(ss, d).0.len() <= entries_total(ss),
        runs(ss, d).1 == d + runs(ss, d).0.len(),
        forall|j: int|
            #![trigger runs(ss, d).0[j]]
            0 <= j < runs(ss, d).0.len() ==> exists|i: int, k: int|
                0 <= i < ss.len() && 0 <= k < ss[i].len() && #[trigger] ss[i][k] == ((d + j) as u64, runs(
                    ss,
                    d,
                ).0[j]),
    decreases ss.len(),
{
    if ss.len() > 0 {
        let front = ss.drop_last();
        lemma_runs_in_sequence(front, d);
        let before = runs(front, d);
        let last = ss.last();
        lemma_run_in_sequence(last, before.1);
        let t = take_run(last, before.1);
        let all = runs(ss, d);
        assert(all.0 == before.0 + t.0);
        assert forall|j: int| #![trigger all.0[j]] 0 <= j < all.0.len() implies exists|i: int, k: int|
            0 <= i < ss.len() && 0 <= k < ss[i].len() && #[trigger] ss[i][k] == ((d + j) as u64, all.0[j]) by {
            if j < before.0.len() {
                assert(all.0[j] == before.0[j]);
                let (i, k) = choose|i: int, k: int|
                    0 <= i < front.len() && 0 <= k < front[i].len() && #[trigger] front[i][k] == ((d + j) as u64, before.0[j]);
                assert(front[i] == ss[i]);
            } else {
                let jj = j - before.0.len();
                assert(all.0[j] == t.0[jj]);
                let k = choose|k: int| 0 <= k < last.len() && #[trigger] last[k] == ((before.1 + jj) as u64, t.0[jj]);
                assert(ss[ss.len() - 1] == last);
                assert(((before.1 + jj) as u64) == ((d + j) as u64));
            }
        }
    }
}

/// Finished queries waiting to be handed back, keyed as described above.
pub struct QueryOrder<T> {
    next_sequence: u64,
    next_dispatch: u64,
    pending: Vec<(u64, T)>,
}

impl<T> QueryOrder<T> {
    /// The waiting results, by increasing key.
    pub closed spec fn entries(&self) -> Seq<(u64, T)> {
        self.pending@
    }

    /// The sequence number the next in-order submission takes.
    pub closed spec fn next_sequence(&self) -> u64 {
        self.next_sequence
    }

    /// The sequence number handed back next.
    pub closed spec fn next_dispatch(&self) -> u64 {
        self.next_dispatch
    }

    pub open spec fn wf(&self) -> bool {
        sorted_keys(self.entries())
    }

    pub fn new() -> (q: Self)
        ensures
            q.wf(),
            q.entries().len() == 0,
            q.next_sequence() == 0,
            q.next_dispatch() == 0,
    {
        QueryOrder { next_sequence: 0, next_dispatch: 0, pending: Vec::new() }
    }

    /// Number of results waiting.
    pub fn waiting(&self) -> (n: usize)
        ensures
            n == self.entries().len(),
    {
        self.pending.len()
    }

    /// The sequence number for a new in-order submission.
    pub fn reserve(&mut self) -> (s: u64)
        requires
            old(self).next_sequence() < u64::MAX,
        ensures
            s == old(self).next_sequence(),
            final(self).next_sequence() == s + 1,
            final(self).next_dispatch() == old(self).next_dispatch(),
            final(self).entries() == old(self).entries(),
    {
        let s = self.next_sequence;
        self.next_sequence = s + 1;
        s
    }

    /// Stores `item` under key `k`, replacing what was there.
    fn put(&mut self, k: u64, item: T)
        requires
            old(self).wf(),
        ensures
            final(self).wf(),
            final(self).next_sequence() == old(self).next_sequence(),
            final(self).next_dispatch() == old(self).next_dispatch(),
            ({
                let s = old(self).entries();
                let p = first_at_least(s, k, 0);
                &&& final(self).entries() == if p < s.len() && s[p].0 == k {
                    s.update(p, (k, item))
                } else {
                    s.insert(p, (k, item))
                }
            }),
    {
        let ghost s = self.pending@;
        proof {
            lemma_first_at_least(s, k, 0);
        }
        let mut p: usize = 0;
        while p < self.pending.len() && self.pending[p].0 < k
            invariant
                self.pending@ == s,
                p <= s.len(),
                first_at_least(s, k, p as int) == first_at_least(s, k, 0),
            decreases s.len() - p,
        {
            p = p + 1;
        }
        if p < self.pending.len() && self.pending[p].0 == k {
            self.pending.set(p, (k, item));
        } else {
            self.pending.insert(p, (k, item));
            proof {
                let t = self.pending@;
                assert forall|a: int, b: int| 0 <= a < b < t.len() implies t[a].0 < t[b].0 by {
                    if b < p {
                        assert(t[a] == s[a] && t[b] == s[b]);
                    } else if a > p {
                        assert(t[a] == s[a - 1] && t[b] == s[b - 1]);
                    } else if a == p {
                        assert(t[b] == s[b - 1]);
                    } else {
                        assert(t[a] == s[a]);
                        if b > p {
                            assert(t[b] == s[b - 1]);
                        }
                    }
                }
            }
        }
    }

    /// Takes in a finished result: an in-order one under its sequence number,
    /// any other under `u64::MAX` minus the number already waiting.
    pub fn accept(&mut self, ordered: bool, sequence: u64, item: T)
        requires
            old(self).wf(),
        ensures
            final(self).wf(),
            final(self).next_sequence() == old(self).next_sequence(),
            final(self).next_dispatch() == old(self).next_dispatch(),
            ({
                let s = old(self).entries();
                let k = if ordered {
                    sequence
                } else {
                    (u64::MAX - s.len()) as u64
                };
                let p = first_at_least(s, k, 0);
                &&& final(self).entries() == if p < s.len() && s[p].0 == k {
                    s.update(p, (k, item))
                } else {
                    s.insert(p, (k, item))
                }
            }),
    {
        let n = self.pending.len() as u64;
        let k = if ordered {
            sequence
        } else {
            u64::MAX - n
        };
        self.put(k, item);
    }

    /// Hands out what is ready: first the in-order results from the next
    /// expected sequence number on, for as long as none is missing, then every
    /// waiting parallel result (key from `u64::MAX / 2` up) by increasing key.
    pub fn drain(&mut self) -> (out: Vec<T>)
        requires
            old(self).wf(),
        ensures
            final(self).wf(),
            final(self).next_sequence() == old(self).next_sequence(),
            ({
                let run = take_run(old(self).entries(), old(self).next_dispatch());
                let p = first_at_least(run.1, parallel_floor(), 0);
                &&& final(self).next_dispatch() == run.2
                &&& final(self).entries() == run.1.take(p)
                &&& out@ == run.0 + run.1.skip(p).map_values(|e: (u64, T)| e.1)
            }),
    {
        let ghost s0 = self.pending@;
        let ghost d0 = self.next_dispatch;
        let ghost ns = self.next_sequence;
        let mut out: Vec<T> = Vec::new();
        loop
            invariant
                sorted_keys(self.pending@),
                self.next_sequence == ns,
                take_run(self.pending@, self.next_dispatch).1 == take_run(s0, d0).1,
                take_run(self.pending@, self.next_dispatch).2 == take_run(s0, d0).2,
                out@ + take_run(self.pending@, self.next_dispatch).0 == take_run(s0, d0).0,
            ensures
                sorted_keys(self.pending@),
                self.next_sequence == ns,
                self.pending@ == take_run(s0, d0).1,
                self.next_dispatch == take_run(s0, d0).2,
                out@ == take_run(s0, d0).0,
            decreases self.pending@.len(),
        {
            let ghost s = self.pending@;
            let d = self.next_dispatch;
            proof {
                lemma_index_of_key(s, d, 0);
            }
            let mut i: usize = 0;
            while i < self.pending.len() && self.pending[i].0 != d
                invariant
                    self.pending@ == s,
                    i <= s.len(),
                    index_of_key(s, d, i as int) == index_of_key(s, d, 0),
                decreases s.len() - i,
            {
                i = i + 1;
            }
            if i >= self.pending.len() {
                proof {
                    assert(take_run(s, d).0 =~= Seq::<T>::empty());
                    assert(out@ + take_run(s, d).0 =~= out@);
                }
                break ;
            }
            let e = self.pending.remove(i);
            out.push(e.1);
            self.next_dispatch = d.wrapping_add(1);
            proof {
                assert(self.next_dispatch == next_seq(d));
                let t = self.pending@;
                assert(t =~= s.remove(i as int));
                assert forall|a: int, b: int| 0 <= a < b < t.len() implies t[a].0 < t[b].0 by {
                    let oa = if a < i { a } else { a + 1 };
                    let ob = if b < i { b } else { b + 1 };
                    assert(t[a] == s[oa] && t[b] == s[ob]);
                }
                assert(out@ + take_run(t, next_seq(d)).0 =~= out@.drop_last() + take_run(s, d).0);
            }
        }
        let ghost r = self.pending@;
        proof {
            lemma_first_at_least(r, parallel_floor(), 0);
        }
        let floor = u64::MAX / 2;
        let mut p: usize = 0;
        while p < self.pending.len() && self.pending[p].0 < floor
            invariant
                self.pending@ == r,
                floor == parallel_floor(),
                p <= r.len(),
                first_at_least(r, floor, p as int) == first_at_least(r, floor, 0),
            decreases r.len() - p,
        {
            p = p + 1;
        }
        let ghost head = out@;
        let mut tail = self.pending.split_off(p);
        let ghost tail0 = tail@;
        proof {
            assert(tail0 =~= r.skip(p as int));
            assert(tail0 =~= tail0.subrange(0, tail0.len() as int));
        }
        while tail.len() > 0
            invariant
                self.pending@ == r.take(p as int),
                tail@.len() <= tail0.len(),
                tail@ == tail0.subrange(tail0.len() - tail@.len(), tail0.len() as int),
                out@ + tail@.map_values(|e: (u64, T)| e.1) == head + tail0.map_values(
                    |e: (u64, T)| e.1,
                ),
            decreases tail@.len(),
        {
            let ghost before = out@;
            let ghost tb = tail@;
            let e = tail.remove(0);
            out.push(e.1);
            proof {
                assert(tail@ =~= tb.drop_first());
                assert(tb.map_values(|e: (u64, T)| e.1) =~= seq![e.1] + tail@.map_values(
                    |e: (u64, T)| e.1,
                ));
                assert(out@ + tail@.map_values(|e: (u64, T)| e.1) =~= before + tb.map_values(
                    |e: (u64, T)| e.1,
                ));
                assert(tail@ =~= tail0.subrange(tail0.len() - tail@.len(), tail0.len() as int));
            }
        }
        proof {
            assert(tail@.map_values(|e: (u64, T)| e.1) =~= Seq::<T>::empty());
            assert(out@ =~= head + r.skip(p as int).map_values(|e: (u64, T)| e.1));
            let t = self.pending@;
            assert forall|a: int, b: int| 0 <= a < b < t.len() implies t[a].0 < t[b].0 by {
                assert(t[a] == r[a] && t[b] == r[b]);
            }
        }
        out
    }
}

} // verus!
