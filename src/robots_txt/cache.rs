use std::rc::Rc;

use vstd::prelude::*;

use crate::clock::{elapsed_at, spec_elapsed, Timestamp, HALF_DAY, TWO_DAYS};
use crate::text::same_text;

verus! {

/// The outcome of fetching a robots.txt, after RFC 9309, section 2.3.1
/// "Access Results".
#[derive(Debug, PartialEq)]
pub enum AccessResult<T> {
    /// HTTP 400-499 range
    Unavailable,
    /// HTTP 500-599 range, or no response; first try at the given time
    Unreachable(Timestamp),
    Success(Rc<T>),
}

/// Relies on `Rc::clone`: a second handle to the same value.
#[verifier::external_body]
fn share<T>(rc: &Rc<T>) -> (r: Rc<T>)
    ensures
        *r == **rc,
{
    Rc::clone(rc)
}

impl<T> Clone for AccessResult<T> {
    fn clone(&self) -> (r: AccessResult<T>)
        ensures
            r == *self,
    {
        match self {
            AccessResult::Success(rc) => AccessResult::Success(share(rc)),
            AccessResult::Unavailable => AccessResult::Unavailable,
            AccessResult::Unreachable(st) => AccessResult::Unreachable(*st),
        }
    }
}

/// A cache entry.
#[derive(Debug)]
pub struct Entry<T> {
    pub ar: AccessResult<T>,
    /// Time of last update for this cache entry
    pub updated: Timestamp,
}

/// The entries of a cache: authority and entry, each authority once.
pub open spec fn distinct_keys<T>(s: Seq<(Seq<char>, Entry<T>)>) -> bool {
    forall|i: int, j: int| 0 <= i < j < s.len() ==> (#[trigger] s[i]).0 != (#[trigger] s[j]).0
}

/// Entries younger than `horizon` seconds at `now`.
pub open spec fn keep_fresh<T>(s: Seq<(Seq<char>, Entry<T>)>, horizon: u64, now: Timestamp) -> Seq<
    (Seq<char>, Entry<T>),
> {
    s.filter(fresh_at(horizon, now))
}

/// Whether an entry is no older than `horizon` seconds at `now`.
pub open spec fn fresh_at<T>(horizon: u64, now: Timestamp) -> spec_fn((Seq<char>, Entry<T>)) -> bool {
    |e: (Seq<char>, Entry<T>)| !spec_elapsed(e.1.updated, horizon, now)
}

/// Shrinking: drop the entries older than `horizon`; if none is, halve the
/// horizon and try again, until it falls below one second.
pub open spec fn spec_shrink<T>(s: Seq<(Seq<char>, Entry<T>)>, horizon: u64, now: Timestamp) -> Seq<
    (Seq<char>, Entry<T>),
>
    decreases horizon,
{
    if horizon == 0 {
        s
    } else {
        let f = keep_fresh(s, horizon, now);
        if f.len() < s.len() {
            f
        } else {
            spec_shrink(s, horizon / 2, now)
        }
    }
}

/// Whether an insertion at `now` into a cache of `n` entries, last shrunk at
/// `last`, shrinks the cache first.
pub open spec fn shrink_due(n: nat, last: Timestamp, now: Timestamp) -> bool {
    n > 100 || (n > 10 && spec_elapsed(last, TWO_DAYS, now))
}

/// `s` with the entry for `key` set to `e`: replaced in place, or appended.
pub open spec fn put_entry<T>(s: Seq<(Seq<char>, Entry<T>)>, key: Seq<char>, e: Entry<T>) -> Seq<
    (Seq<char>, Entry<T>),
> {
    if exists|i: int| 0 <= i < s.len() && (#[trigger] s[i]).0 == key {
        s.update(choose|i: int| 0 <= i < s.len() && (#[trigger] s[i]).0 == key, (key, e))
    } else {
        s.push((key, e))
    }
}

/// The entries after `insert(key, ar, now)`.
pub open spec fn spec_insert<T>(
    s: Seq<(Seq<char>, Entry<T>)>,
    last: Timestamp,
    key: Seq<char>,
    ar: AccessResult<T>,
    now: Timestamp,
) -> Seq<(Seq<char>, Entry<T>)> {
    let s1 = if shrink_due(s.len(), last, now) {
        spec_shrink(s, HALF_DAY, now)
    } else {
        s
    };
    put_entry(s1, key, Entry { ar, updated: now })
}

/// The entry for `key`, if any.
pub open spec fn lookup_entry<T>(s: Seq<(Seq<char>, Entry<T>)>, key: Seq<char>) -> Option<Entry<T>> {
    if exists|i: int| 0 <= i < s.len() && (#[trigger] s[i]).0 == key {
        Some(s[choose|i: int| 0 <= i < s.len() && (#[trigger] s[i]).0 == key].1)
    } else {
        None
    }
}

/// A cache of robots.txt results, keyed by URL authority.
pub struct Cache<T> {
    entries: Vec<(String, Rc<Entry<T>>)>,
    last_time_shrinked: Timestamp,
}

pub open spec fn entries_view<T>(v: Seq<(String, Rc<Entry<T>>)>) -> Seq<(Seq<char>, Entry<T>)> {
    v.map_values(|p: (String, Rc<Entry<T>>)| (p.0@, *p.1))
}

impl<T> Cache<T> {
    /// The entries, in the order they were first inserted.
    pub closed spec fn spec_entries(&self) -> Seq<(Seq<char>, Entry<T>)> {
        entries_view(self.entries@)
    }

    /// The time of the last shrink.
    pub closed spec fn spec_last_shrink(&self) -> Timestamp {
        self.last_time_shrinked
    }

    pub open spec fn wf(&self) -> bool {
        distinct_keys(self.spec_entries())
    }

    /// An empty cache; `now` counts as the time of the last shrink.
    pub fn new(now: Timestamp) -> (r: Cache<T>)
        ensures
            r.wf(),
            r.spec_entries() == Seq::<(Seq<char>, Entry<T>)>::empty(),
            r.spec_last_shrink() == now,
    {
        let r = Cache { entries: Vec::new(), last_time_shrinked: now };
        assert(r.spec_entries() =~= Seq::<(Seq<char>, Entry<T>)>::empty());
        r
    }

    /// The number of entries.
    pub fn len(&self) -> (r: usize)
        ensures
            r == self.spec_entries().len(),
    {
        self.entries.len()
    }

    /// The time of the last shrink.
    pub fn last_shrink(&self) -> (r: Timestamp)
        ensures
            r == self.spec_last_shrink(),
    {
        self.last_time_shrinked
    }

    /// The entry for `authority`, if any.
    pub fn get(&self, authority: &str) -> (r: Option<Rc<Entry<T>>>)
        requires
            self.wf(),
        ensures
            match r {
                Some(e) => lookup_entry(self.spec_entries(), authority@) == Some(*e),
                None => lookup_entry(self.spec_entries(), authority@) is None,
            },
    {
        match self.find(authority) {
            Some(i) => {
                let r = share(&self.entries[i].1);
                proof {
                    let s = self.spec_entries();
                    let c = choose|c: int| 0 <= c < s.len() && (#[trigger] s[c]).0 == authority@;
                    assert(s[i as int].0 == authority@);
                    assert(c == i as int);
                }
                Some(r)
            },
            None => None,
        }
    }

    /// Drops the entries older than `horizon` seconds at `now`.
    fn retain_fresh(&mut self, horizon: u64, now: Timestamp)
        requires
            old(self).wf(),
        ensures
            final(self).wf(),
            final(self).spec_entries() == keep_fresh(old(self).spec_entries(), horizon, now),
            final(self).spec_last_shrink() == old(self).spec_last_shrink(),
    {
        let ghost s = self.spec_entries();
        let ghost pred = fresh_at::<T>(horizon, now);
        let mut kept: Vec<(String, Rc<Entry<T>>)> = Vec::new();
        let mut old_entries = Vec::new();
        std::mem::swap(&mut old_entries, &mut self.entries);
        let mut i: usize = 0;
        let n = old_entries.len();
        assert(entries_view(old_entries@) == s);
        while i < n
            invariant
                n == old_entries@.len(),
                entries_view(old_entries@) == s,
                i <= n,
                pred == fresh_at::<T>(horizon, now),
                entries_view(kept@) == s.subrange(0, i as int).filter(pred),
            decreases n - i,
        {
            let e = &old_entries[i];
            let fresh = !elapsed_at(e.1.updated, horizon, now);
            let ghost before = entries_view(kept@);
            proof {
                let t = s.subrange(0, i + 1);
                assert(t.drop_last() =~= s.subrange(0, i as int));
                assert(t.last() == s[i as int]);
                assert(s[i as int] == (e.0@, *e.1));
                assert(fresh == pred(s[i as int]));
                reveal(Seq::filter);
                assert(t.filter(pred) == if pred(t.last()) {
                    t.drop_last().filter(pred).push(t.last())
                } else {
                    t.drop_last().filter(pred)
                });
            }
            if fresh {
                let k = e.0.clone();
                let v = share(&e.1);
                kept.push((k, v));
                assert(entries_view(kept@) =~= before.push((e.0@, *e.1)));
            }
            i = i + 1;
        }
        assert(s.subrange(0, n as int) =~= s);
        self.entries = kept;
        proof {
            broadcast use vstd::seq_lib::group_filter_ensures;
            assert forall|a: int, b: int| 0 <= a < b < self.spec_entries().len() implies (
            #[trigger] self.spec_entries()[a]).0 != (#[trigger] self.spec_entries()[b]).0 by {
                lemma_filter_keeps_distinct(s, pred, a, b);
            }
        }
    }

    /// Stores `ar` for `authority` with `now` as its time, replacing any
    /// entry for it. When the cache holds more than 100 entries, or more than
    /// 10 and two days have passed since the last shrink, it is shrunk first:
    /// `now` becomes the time of the last shrink, and the entries older than
    /// half a day are dropped; if none is, the horizon is halved until one is
    /// dropped or the horizon falls below a second. Ages are measured at `now`.
    pub fn insert(&mut self, authority: &str, ar: AccessResult<T>, now: Timestamp)
        requires
            old(self).wf(),
        ensures
            final(self).wf(),
            final(self).spec_entries() == spec_insert(
                old(self).spec_entries(),
                old(self).spec_last_shrink(),
                authority@,
                ar,
                now,
            ),
            lookup_entry(final(self).spec_entries(), authority@) == Some(Entry { ar, updated: now }),
            final(self).spec_last_shrink() == if shrink_due(
                old(self).spec_entries().len(),
                old(self).spec_last_shrink(),
                now,
            ) {
                now
            } else {
                old(self).spec_last_shrink()
            },
    {
        let cachesize = self.entries.len();
        if cachesize > 100 || (cachesize > 10 && elapsed_at(self.last_time_shrinked, TWO_DAYS, now)) {
            self.last_time_shrinked = now;
            let mut delete_older: u64 = HALF_DAY;
            let ghost s0 = self.spec_entries();
            let ghost target = spec_shrink(s0, HALF_DAY, now);
            loop
                invariant_except_break
                    self.spec_entries() == s0,
                    spec_shrink(s0, delete_older, now) == target,
                invariant
                    self.wf(),
                    self.spec_last_shrink() == now,
                    cachesize == s0.len(),
                    spec_shrink(s0, HALF_DAY, now) == target,
                ensures
                    self.wf(),
                    self.spec_last_shrink() == now,
                    self.spec_entries() == target,
                decreases delete_older,
            {
                if delete_older == 0 {
                    break;
                }
                self.retain_fresh(delete_older, now);
                let ghost pred = fresh_at::<T>(delete_older, now);
                proof {
                    assert(keep_fresh(s0, delete_older, now) == s0.filter(pred));
                    s0.lemma_filter_len(pred);
                }
                if self.entries.len() < cachesize {
                    break;
                }
                proof {
                    lemma_filter_same_len_is_identity(s0, pred);
                }
                delete_older = delete_older / 2;
            }
        }
        let ghost s1 = self.spec_entries();
        let ghost ls = self.spec_last_shrink();
        assert(s1 == if shrink_due(old(self).spec_entries().len(), old(self).spec_last_shrink(), now) {
            spec_shrink(old(self).spec_entries(), HALF_DAY, now)
        } else {
            old(self).spec_entries()
        });
        let ghost arv = ar;
        let entry = Rc::new(Entry { ar, updated: now });
        proof {
            lemma_put_entry_found(s1, authority@, Entry { ar: arv, updated: now });
        }
        match self.find(authority) {
            Some(i) => {
                let key = self.entries[i].0.clone();
                let ghost before = self.entries@;
                self.entries.set(i, (key, entry));
                proof {
                    assert(s1[i as int].0 == authority@);
                    assert(self.spec_entries() =~= s1.update(i as int, (authority@, Entry { ar: arv, updated: now })));
                    let c = choose|c: int| 0 <= c < s1.len() && (#[trigger] s1[c]).0 == authority@;
                    assert(c == i as int);
                    assert(self.spec_entries() =~= put_entry(s1, authority@, Entry { ar: arv, updated: now }));
                }
            },
            None => {
                self.entries.push((String::from_str(authority), entry));
                assert(self.spec_entries() =~= put_entry(s1, authority@, Entry { ar: arv, updated: now }));
            },
        }
    }

    /// The position of the entry for `authority`, if any.
    fn find(&self, authority: &str) -> (r: Option<usize>)
        ensures
            match r {
                Some(i) => i < self.spec_entries().len() && self.spec_entries()[i as int].0 == authority@,
                None => forall|j: int|
                    0 <= j < self.spec_entries().len() ==> (#[trigger] self.spec_entries()[j]).0
                        != authority@,
            },
    {
        let mut i: usize = 0;
        while i < self.entries.len()
            invariant
                i <= self.entries@.len(),
                forall|j: int| 0 <= j < i ==> (#[trigger] self.spec_entries()[j]).0 != authority@,
            decreases self.entries@.len() - i,
        {
            if same_text(self.entries[i].0.as_str(), authority) {
                return Some(i);
            }
            i = i + 1;
        }
        None
    }
}

/// After `put_entry`, the entry found for the key is the one put.
pub proof fn lemma_put_entry_found<T>(s: Seq<(Seq<char>, Entry<T>)>, key: Seq<char>, e: Entry<T>)
    requires
        distinct_keys(s),
    ensures
        distinct_keys(put_entry(s, key, e)),
        lookup_entry(put_entry(s, key, e), key) == Some(e),
{
    let t = put_entry(s, key, e);
    let j: int = if exists|i: int| 0 <= i < s.len() && (#[trigger] s[i]).0 == key {
        choose|i: int| 0 <= i < s.len() && (#[trigger] s[i]).0 == key
    } else {
        s.len() as int
    };
    assert(t[j] == (key, e));
    assert forall|a: int, b: int| 0 <= a < b < t.len() implies (#[trigger] t[a]).0 != (#[trigger] t[b]).0 by {
        if a != j && b != j {
            assert(t[a] == s[a] && t[b] == s[b]);
        } else if a == j {
            assert(t[b] == s[b]);
            if j < s.len() {
                assert(s[j].0 == key);
            }
        } else {
            assert(t[a] == s[a]);
            if j < s.len() {
                assert(s[j].0 == key);
            }
        }
    }
    let c = choose|c: int| 0 <= c < t.len() && (#[trigger] t[c]).0 == key;
    assert(t[c].0 == key);
    assert(c == j);
}

proof fn lemma_shrink_len<T>(s: Seq<(Seq<char>, Entry<T>)>, horizon: u64, now: Timestamp)
    ensures
        spec_shrink(s, horizon, now) == s || spec_shrink(s, horizon, now).len() < s.len(),
    decreases horizon,
{
    if horizon > 0 {
        lemma_shrink_len(s, horizon / 2, now);
    }
}

/// The size cap: an insertion into a cache of at most 100 entries leaves at
/// most 100, unless it adds a new authority to exactly 100 entries none of
/// which the shrink drops (the shrink runs only above 100 entries, or above
/// 10 after two days).
pub proof fn law_cache_cap<T>(
    s: Seq<(Seq<char>, Entry<T>)>,
    last: Timestamp,
    key: Seq<char>,
    ar: AccessResult<T>,
    now: Timestamp,
)
    requires
        distinct_keys(s),
        s.len() <= 100,
        s.len() < 100 || exists|i: int| 0 <= i < s.len() && (#[trigger] s[i]).0 == key,
    ensures
        spec_insert(s, last, key, ar, now).len() <= 100,
{
    let s1 = if shrink_due(s.len(), last, now) {
        spec_shrink(s, HALF_DAY, now)
    } else {
        s
    };
    lemma_shrink_len(s, HALF_DAY, now);
    if s.len() == 100 {
        let i = choose|i: int| 0 <= i < s.len() && (#[trigger] s[i]).0 == key;
        if s1 == s {
            assert(s1[i].0 == key);
        }
    }
}

proof fn lemma_filter_keeps_distinct<T>(
    s: Seq<(Seq<char>, Entry<T>)>,
    pred: spec_fn((Seq<char>, Entry<T>)) -> bool,
    a: int,
    b: int,
)
    requires
        distinct_keys(s),
        0 <= a < b < s.filter(pred).len(),
    ensures
        s.filter(pred)[a].0 != s.filter(pred)[b].0,
    decreases s.len(),
{
    reveal(Seq::filter);
    broadcast use vstd::seq_lib::group_filter_ensures;
    let f = s.filter(pred);
    let sub = s.drop_last().filter(pred);
    assert(distinct_keys(s.drop_last()));
    if pred(s.last()) {
        if b == f.len() - 1 {
            assert(f[b] == s.last());
            assert(sub.contains(f[a])) by {
                assert(f[a] == sub[a]);
            }
            s.drop_last().lemma_filter_contains_rev(pred, f[a]);
            let k = choose|k: int| 0 <= k < s.drop_last().len() && s.drop_last()[k] == f[a];
            assert(s[k] == f[a]);
            assert(s[k].0 != s[s.len() - 1].0);
        } else {
            lemma_filter_keeps_distinct(s.drop_last(), pred, a, b);
        }
    } else {
        lemma_filter_keeps_distinct(s.drop_last(), pred, a, b);
    }
}

proof fn lemma_filter_same_len_is_identity<A>(s: Seq<A>, pred: spec_fn(A) -> bool)
    requires
        s.filter(pred).len() >= s.len(),
    ensures
        s.filter(pred) == s,
    decreases s.len(),
{
    reveal(Seq::filter);
    if s.len() > 0 {
        s.drop_last().lemma_filter_len(pred);
        if !pred(s.last()) {
            assert(false);
        }
        lemma_filter_same_len_is_identity(s.drop_last(), pred);
        assert(s =~= s.drop_last().push(s.last()));
    }
}

} // verus!
