use vstd::prelude::*;

use crate::cache_observer::{CacheEvent, ObserverAdded, QueryCacheKey};
use crate::instant::Instant;
use crate::query::state_is_stale;
use crate::query_state::QueryState;
use crate::util::time_until_stale;

verus! {

/// What the devtools show of one query: its state, how many observers it
/// has, and the gc and stale times in force.
#[derive(Clone, Debug, PartialEq, Eq)]
pub struct DevtoolsEntry {
    /// The serialized key of the query.
    pub key: QueryCacheKey,
    /// The state of the query, with its data serialized.
    pub state: QueryState<String>,
    /// How many observers the query has.
    pub observer_count: usize,
    /// The longest gc time of its observers, in milliseconds.
    pub gc_time: Option<u64>,
    /// The shortest stale time of its observers, in milliseconds.
    pub stale_time: Option<u64>,
}

impl DevtoolsEntry {
    /// Whether the query's data is stale at `now`, by the stale time in force.
    pub fn is_stale_at(&self, now: Instant) -> (r: bool)
        ensures
            r == state_is_stale(self.state, self.stale_time, now),
    {
        match (self.state.updated_at(), self.stale_time) {
            (Some(updated_at), Some(stale_time)) => time_until_stale(updated_at, stale_time, now)
                == 0,
            _ => false,
        }
    }
}

/// The longer gc time; a missing one does not count.
pub open spec fn longest_gc(current: Option<u64>, new: Option<u64>) -> Option<u64> {
    match (current, new) {
        (Some(c), Some(g)) => Some(if g > c { g } else { c }),
        (None, Some(g)) => Some(g),
        (c, None) => c,
    }
}

/// The shorter stale time; a missing one does not count.
pub open spec fn shortest_stale(current: Option<u64>, new: Option<u64>) -> Option<u64> {
    match (current, new) {
        (Some(c), Some(s)) => Some(if s < c { s } else { c }),
        (None, Some(s)) => Some(s),
        (c, None) => c,
    }
}

/// The entries of the devtools, by key, once `event` is taken in.
///
/// A created query gets a fresh entry; a removed one loses its entry; an
/// update replaces the state; an observer that comes or goes changes the
/// count, and one that comes may lengthen the gc time and shorten the stale
/// time. Events about queries without an entry change nothing, but creation.
pub open spec fn after_event(
    m: Map<Seq<char>, DevtoolsEntry>,
    event: CacheEvent,
) -> Map<Seq<char>, DevtoolsEntry> {
    match event {
        CacheEvent::Created(q) => m.insert(
            q.key.0@,
            DevtoolsEntry {
                key: q.key,
                state: q.state,
                observer_count: 0,
                gc_time: None,
                stale_time: None,
            },
        ),
        CacheEvent::Removed(k) => m.remove(k.0@),
        CacheEvent::Updated(q) => if m.contains_key(q.key.0@) {
            m.insert(q.key.0@, DevtoolsEntry { state: q.state, ..m[q.key.0@] })
        } else {
            m
        },
        CacheEvent::ObserverAdded(o) => if m.contains_key(o.key.0@) {
            let e = m[o.key.0@];
            m.insert(
                o.key.0@,
                DevtoolsEntry {
                    observer_count: (e.observer_count + 1) as usize,
                    gc_time: longest_gc(e.gc_time, o.options.gc_time),
                    stale_time: shortest_stale(e.stale_time, o.options.stale_time),
                    ..e
                },
            )
        } else {
            m
        },
        CacheEvent::ObserverRemoved(k) => if m.contains_key(k.0@) {
            let e = m[k.0@];
            m.insert(k.0@, DevtoolsEntry { observer_count: (e.observer_count - 1) as usize, ..e })
        } else {
            m
        },
    }
}

/// The key an event is about.
pub open spec fn event_key(event: CacheEvent) -> Seq<char> {
    match event {
        CacheEvent::Created(q) => q.key.0@,
        CacheEvent::Updated(q) => q.key.0@,
        CacheEvent::Removed(k) => k.0@,
        CacheEvent::ObserverAdded(o) => o.key.0@,
        CacheEvent::ObserverRemoved(k) => k.0@,
    }
}

/// An event about one query leaves the entries of all other queries as they
/// were; a removed query has no entry left, a created one has a fresh entry
/// with no observers, and an update takes the new state and keeps the rest.
pub proof fn lemma_event_touches_one_entry(m: Map<Seq<char>, DevtoolsEntry>, event: CacheEvent)
    ensures
        forall|j: Seq<char>|
            j != event_key(event) ==> (#[trigger] after_event(m, event).contains_key(j) == m.contains_key(j)
                && (m.contains_key(j) ==> after_event(m, event)[j] == m[j])),
        event is Removed ==> !after_event(m, event).contains_key(event_key(event)),
        event matches CacheEvent::Created(q) ==> after_event(m, event).contains_key(q.key.0@) && ({
            let e = after_event(m, event)[q.key.0@];
            e.state == q.state && e.observer_count == 0 && e.gc_time is None && e.stale_time is None
        }),
        event matches CacheEvent::Updated(q) ==> (m.contains_key(q.key.0@) <==> after_event(m, event).contains_key(q.key.0@))
            && (m.contains_key(q.key.0@) ==> ({
            let (b, a) = (m[q.key.0@], after_event(m, event)[q.key.0@]);
            a.state == q.state && a.observer_count == b.observer_count && a.gc_time == b.gc_time
                && a.stale_time == b.stale_time
        })),
{
}

/// An observer that joins a query counts once more, and the entry keeps the
/// shortest of the stale times and the longest of the gc times set so far:
/// the new time is never above (for stale) or below (for gc) the earlier one
/// or the observer's, is one of them, and is unset only when both are.
pub proof fn lemma_observer_times_gathered(m: Map<Seq<char>, DevtoolsEntry>, o: ObserverAdded)
    requires
        m.contains_key(o.key.0@),
        event_fits(m, CacheEvent::ObserverAdded(o)),
    ensures
        ({
            let before = m[o.key.0@];
            let after = after_event(m, CacheEvent::ObserverAdded(o))[o.key.0@];
            let s = o.options.stale_time;
            let g = o.options.gc_time;
            &&& after.observer_count == before.observer_count + 1
            &&& after.key == before.key && after.state == before.state
            &&& after.stale_time is None <==> (before.stale_time is None && s is None)
            &&& after.stale_time matches Some(x) ==> {
                &&& before.stale_time matches Some(c) ==> x <= c
                &&& s matches Some(y) ==> x <= y
                &&& before.stale_time == Some(x) || s == Some(x)
            }
            &&& after.gc_time is None <==> (before.gc_time is None && g is None)
            &&& after.gc_time matches Some(x) ==> {
                &&& before.gc_time matches Some(c) ==> x >= c
                &&& g matches Some(y) ==> x >= y
                &&& before.gc_time == Some(x) || g == Some(x)
            }
        }),
{
}

/// Whether the observer count of the entry an event touches can move as the
/// event says: a count never exceeds `usize::MAX` and never drops below zero.
pub open spec fn event_fits(m: Map<Seq<char>, DevtoolsEntry>, event: CacheEvent) -> bool {
    match event {
        CacheEvent::ObserverAdded(o) => m.contains_key(o.key.0@) ==> m[o.key.0@].observer_count
            < usize::MAX,
        CacheEvent::ObserverRemoved(k) => m.contains_key(k.0@) ==> m[k.0@].observer_count > 0,
        _ => true,
    }
}

/// Whether an entry for key `k` is among `es`.
pub open spec fn has_entry(es: Seq<DevtoolsEntry>, k: Seq<char>) -> bool {
    exists|i: int| 0 <= i < es.len() && (#[trigger] es[i]).key.0@ == k
}

/// The position of the entry for key `k` among `es`.
pub open spec fn entry_index(es: Seq<DevtoolsEntry>, k: Seq<char>) -> int {
    choose|i: int| 0 <= i < es.len() && (#[trigger] es[i]).key.0@ == k
}

/// Whether no two entries among `es` share a key.
pub open spec fn entry_keys_distinct(es: Seq<DevtoolsEntry>) -> bool {
    forall|i: int, j: int|
        0 <= i < es.len() && 0 <= j < es.len() && i != j ==> (#[trigger] es[i]).key.0@
            != (#[trigger] es[j]).key.0@
}

/// The entries of `es`, by key.
pub open spec fn entry_map(es: Seq<DevtoolsEntry>) -> Map<Seq<char>, DevtoolsEntry> {
    Map::new(|k: Seq<char>| has_entry(es, k), |k: Seq<char>| es[entry_index(es, k)])
}

/// What the devtools know of the cache, gathered from its events.
pub struct DevtoolsState {
    entries: Vec<DevtoolsEntry>,
}

impl View for DevtoolsState {
    type V = Map<Seq<char>, DevtoolsEntry>;

    closed spec fn view(&self) -> Map<Seq<char>, DevtoolsEntry> {
        entry_map(self.entries@)
    }
}

impl DevtoolsState {
    /// The state's invariant: one entry per key, filed under its own key.
    #[verifier::type_invariant]
    spec fn inv(&self) -> bool {
        entry_keys_distinct(self.entries@)
    }

    /// No entries.
    pub fn new() -> (r: Self)
        ensures
            r@ == Map::<Seq<char>, DevtoolsEntry>::empty(),
    {
        let r = DevtoolsState { entries: Vec::new() };
        proof {
            assert(r@ =~= Map::<Seq<char>, DevtoolsEntry>::empty());
        }
        r
    }

    /// How many queries have an entry.
    pub fn len(&self) -> (r: usize)
        ensures
            r == self@.dom().len(),
    {
        proof {
            use_type_invariant(self);
            lemma_entry_map_size(self.entries@);
        }
        self.entries.len()
    }

    /// Every entry, each under its own key, in the order they were created.
    pub fn entries(&self) -> (r: &Vec<DevtoolsEntry>)
        ensures
            entry_keys_distinct(r@),
            entry_map(r@) == self@,
    {
        proof {
            use_type_invariant(self);
        }
        &self.entries
    }

    /// The entry for `key`, if there is one.
    pub fn get(&self, key: &QueryCacheKey) -> (r: Option<&DevtoolsEntry>)
        ensures
            r matches Some(e) ==> self@.contains_key(key.0@) && self@[key.0@] == *e,
            r is None <==> !self@.contains_key(key.0@),
    {
        proof {
            use_type_invariant(self);
        }
        match find_entry(&self.entries, key) {
            Some(i) => {
                proof {
                    lemma_entry_index_unique(self.entries@, i as int);
                }
                Some(&self.entries[i])
            },
            None => None,
        }
    }

    /// Takes in a cache event.
    pub fn process_cache_event(&mut self, event: CacheEvent)
        requires
            event_fits(old(self)@, event),
        ensures
            final(self)@ == after_event(old(self)@, event),
    {
        proof {
            use_type_invariant(&*self);
        }
        let mut entries: Vec<DevtoolsEntry> = Vec::new();
        std::mem::swap(&mut entries, &mut self.entries);
        apply_event(&mut entries, event);
        self.entries = entries;
    }
}

fn find_entry(entries: &Vec<DevtoolsEntry>, key: &QueryCacheKey) -> (r: Option<usize>)
    ensures
        r matches Some(i) ==> i < entries@.len() && entries@[i as int].key.0@
            == key.0@,
        r is None ==> !has_entry(entries@, key.0@),
{
    let mut i: usize = 0;
    while i < entries.len()
        invariant
            0 <= i <= entries@.len(),
            forall|j: int| 0 <= j < i ==> (#[trigger] entries@[j]).key.0@ != key.0@,
        decreases entries@.len() - i,
    {
        if entries[i].key.0 == key.0 {
            return Some(i);
        }
        i = i + 1;
    }
    None
}

/// Takes `event` into the entries.
fn apply_event(entries: &mut Vec<DevtoolsEntry>, event: CacheEvent)
    requires
        entry_keys_distinct(old(entries)@),
        event_fits(entry_map(old(entries)@), event),
    ensures
        entry_keys_distinct(final(entries)@),
        entry_map(final(entries)@) == after_event(entry_map(old(entries)@), event),
{
    match event {
        CacheEvent::Created(q) => {
            let entry = DevtoolsEntry {
                key: q.key,
                state: q.state,
                observer_count: 0,
                gc_time: None,
                stale_time: None,
            };
            match find_entry(entries, &entry.key) {
                Some(i) => {
                    proof {
                        lemma_entry_update(entries@, i as int, entry);
                    }
                    entries.set(i, entry);
                },
                None => {
                    proof {
                        lemma_entry_push(entries@, entry);
                    }
                    entries.push(entry);
                },
            }
        },
        CacheEvent::Removed(k) => {
            match find_entry(entries, &k) {
                Some(i) => {
                    proof {
                        lemma_entry_index_unique(entries@, i as int);
                        lemma_entry_remove(entries@, i as int);
                    }
                    let _ = entries.remove(i);
                },
                None => {
                    proof {
                        assert(entry_map(old(entries)@).remove(k.0@) =~= entry_map(old(entries)@));
                    }
                },
            }
        },
        CacheEvent::Updated(q) => {
            match find_entry(entries, &q.key) {
                Some(i) => {
                    proof {
                        lemma_entry_index_unique(entries@, i as int);
                    }
                    let ghost before = entries@;
                    let old_entry = entries.remove(i);
                    let entry = DevtoolsEntry { state: q.state, ..old_entry };
                    proof {
                        lemma_entry_update(before, i as int, entry);
                    }
                    entries.insert(i, entry);
                    proof {
                        assert(entries@ =~= before.update(i as int, entry));
                    }
                },
                None => {},
            }
        },
        CacheEvent::ObserverAdded(o) => {
            match find_entry(entries, &o.key) {
                Some(i) => {
                    proof {
                        lemma_entry_index_unique(entries@, i as int);
                    }
                    let ghost before = entries@;
                    let old_entry = entries.remove(i);
                    let gc_time = match (old_entry.gc_time, o.options.gc_time) {
                        (Some(c), Some(g)) => Some(if g > c { g } else { c }),
                        (None, Some(g)) => Some(g),
                        (c, None) => c,
                    };
                    let stale_time = match (old_entry.stale_time, o.options.stale_time) {
                        (Some(c), Some(s)) => Some(if s < c { s } else { c }),
                        (None, Some(s)) => Some(s),
                        (c, None) => c,
                    };
                    let entry = DevtoolsEntry {
                        observer_count: old_entry.observer_count + 1,
                        gc_time,
                        stale_time,
                        ..old_entry
                    };
                    proof {
                        lemma_entry_update(before, i as int, entry);
                    }
                    entries.insert(i, entry);
                    proof {
                        assert(entries@ =~= before.update(i as int, entry));
                    }
                },
                None => {},
            }
        },
        CacheEvent::ObserverRemoved(k) => {
            match find_entry(entries, &k) {
                Some(i) => {
                    proof {
                        lemma_entry_index_unique(entries@, i as int);
                    }
                    let ghost before = entries@;
                    let old_entry = entries.remove(i);
                    let entry = DevtoolsEntry {
                        observer_count: old_entry.observer_count - 1,
                        ..old_entry
                    };
                    proof {
                        lemma_entry_update(before, i as int, entry);
                    }
                    entries.insert(i, entry);
                    proof {
                        assert(entries@ =~= before.update(i as int, entry));
                    }
                },
                None => {},
            }
        },
    }
}

/// With distinct keys, the entry at position `i` is the one filed under its key.
proof fn lemma_entry_index_unique(es: Seq<DevtoolsEntry>, i: int)
    requires
        entry_keys_distinct(es),
        0 <= i < es.len(),
    ensures
        has_entry(es, es[i].key.0@),
        entry_index(es, es[i].key.0@) == i,
        entry_map(es).contains_key(es[i].key.0@),
        entry_map(es)[es[i].key.0@] == es[i],
{
    let k = es[i].key.0@;
    assert(has_entry(es, k));
    let j = entry_index(es, k);
    assert(es[j].key.0@ == k);
}

/// Appending an entry with a new key files it under that key.
proof fn lemma_entry_push(es: Seq<DevtoolsEntry>, e: DevtoolsEntry)
    requires
        entry_keys_distinct(es),
        !has_entry(es, e.key.0@),
    ensures
        entry_keys_distinct(es.push(e)),
        entry_map(es.push(e)) == entry_map(es).insert(e.key.0@, e),
{
    let es2 = es.push(e);
    assert forall|i: int, j: int|
        0 <= i < es2.len() && 0 <= j < es2.len() && i != j implies (#[trigger] es2[i]).key.0@
        != (#[trigger] es2[j]).key.0@ by {
        if i == es.len() {
            assert(es2[j] == es[j]);
        } else if j == es.len() {
            assert(es2[i] == es[i]);
        } else {
            assert(es2[i] == es[i]);
            assert(es2[j] == es[j]);
        }
    }
    let m1 = entry_map(es2);
    let m2 = entry_map(es).insert(e.key.0@, e);
    assert forall|k: Seq<char>| m1.contains_key(k) <==> m2.contains_key(k) by {
        if has_entry(es2, k) {
            let i = choose|i: int| 0 <= i < es2.len() && (#[trigger] es2[i]).key.0@ == k;
            if i < es.len() {
                assert(es2[i] == es[i]);
            }
        }
        if has_entry(es, k) {
            let i = choose|i: int| 0 <= i < es.len() && (#[trigger] es[i]).key.0@ == k;
            assert(es2[i] == es[i]);
        }
        if k == e.key.0@ {
            assert(es2[es.len() as int] == e);
        }
    }
    assert forall|k: Seq<char>| m1.contains_key(k) implies m1[k] == m2[k] by {
        if k == e.key.0@ {
            lemma_entry_index_unique(es2, es.len() as int);
        } else {
            let i = entry_index(es2, k);
            assert(i < es.len());
            assert(es2[i] == es[i]);
            lemma_entry_index_unique(es2, i);
            lemma_entry_index_unique(es, i);
        }
    }
    assert(m1 =~= m2);
}

/// Replacing the entry at position `i` by one with the same key re-files it
/// under that key.
proof fn lemma_entry_update(es: Seq<DevtoolsEntry>, i: int, e: DevtoolsEntry)
    requires
        entry_keys_distinct(es),
        0 <= i < es.len(),
        e.key.0@ == es[i].key.0@,
    ensures
        entry_keys_distinct(es.update(i, e)),
        entry_map(es.update(i, e)) == entry_map(es).insert(e.key.0@, e),
{
    let es2 = es.update(i, e);
    assert forall|a: int, b: int|
        0 <= a < es2.len() && 0 <= b < es2.len() && a != b implies (#[trigger] es2[a]).key.0@
        != (#[trigger] es2[b]).key.0@ by {
        if a == i {
            assert(es2[b] == es[b]);
        } else if b == i {
            assert(es2[a] == es[a]);
        } else {
            assert(es2[a] == es[a]);
            assert(es2[b] == es[b]);
        }
    }
    let m1 = entry_map(es2);
    let m2 = entry_map(es).insert(e.key.0@, e);
    assert forall|k: Seq<char>| m1.contains_key(k) <==> m2.contains_key(k) by {
        if has_entry(es2, k) {
            let j = choose|j: int| 0 <= j < es2.len() && (#[trigger] es2[j]).key.0@ == k;
            if j != i {
                assert(es2[j] == es[j]);
            }
        }
        if has_entry(es, k) {
            let j = choose|j: int| 0 <= j < es.len() && (#[trigger] es[j]).key.0@ == k;
            if j != i {
                assert(es2[j] == es[j]);
            } else {
                assert(es2[i] == e);
            }
        }
        if k == e.key.0@ {
            assert(es2[i] == e);
        }
    }
    assert forall|k: Seq<char>| m1.contains_key(k) implies m1[k] == m2[k] by {
        let j = entry_index(es2, k);
        lemma_entry_index_unique(es2, j);
        if j != i {
            assert(es2[j] == es[j]);
            lemma_entry_index_unique(es, j);
        }
    }
    assert(m1 =~= m2);
}

/// Removing the entry at position `i` removes its key.
proof fn lemma_entry_remove(es: Seq<DevtoolsEntry>, i: int)
    requires
        entry_keys_distinct(es),
        0 <= i < es.len(),
    ensures
        entry_keys_distinct(es.remove(i)),
        entry_map(es.remove(i)) == entry_map(es).remove(es[i].key.0@),
{
    let es2 = es.remove(i);
    let key = es[i].key.0@;
    assert forall|a: int| 0 <= a < es2.len() implies es2[a] == es[if a < i {
        a
    } else {
        a + 1
    }] by {}
    assert forall|a: int, b: int|
        0 <= a < es2.len() && 0 <= b < es2.len() && a != b implies (#[trigger] es2[a]).key.0@
        != (#[trigger] es2[b]).key.0@ by {
        let a1 = if a < i {
            a
        } else {
            a + 1
        };
        let b1 = if b < i {
            b
        } else {
            b + 1
        };
        assert(es2[a] == es[a1]);
        assert(es2[b] == es[b1]);
    }
    let m1 = entry_map(es2);
    let m2 = entry_map(es).remove(key);
    assert forall|k: Seq<char>| m1.contains_key(k) <==> m2.contains_key(k) by {
        if has_entry(es2, k) {
            let j = choose|j: int| 0 <= j < es2.len() && (#[trigger] es2[j]).key.0@ == k;
            let j1 = if j < i {
                j
            } else {
                j + 1
            };
            assert(es2[j] == es[j1]);
            assert(j1 != i);
        }
        if has_entry(es, k) && k != key {
            let j = choose|j: int| 0 <= j < es.len() && (#[trigger] es[j]).key.0@ == k;
            assert(j != i);
            let j2 = if j < i {
                j
            } else {
                j - 1
            };
            assert(es2[j2] == es[j]);
        }
    }
    assert forall|k: Seq<char>| m1.contains_key(k) implies m1[k] == m2[k] by {
        let j = entry_index(es2, k);
        lemma_entry_index_unique(es2, j);
        let j1 = if j < i {
            j
        } else {
            j + 1
        };
        assert(es2[j] == es[j1]);
        lemma_entry_index_unique(es, j1);
    }
    assert(m1 =~= m2);
}

/// Entries with distinct keys file as many keys as there are entries.
proof fn lemma_entry_map_size(es: Seq<DevtoolsEntry>)
    requires
        entry_keys_distinct(es),
    ensures
        entry_map(es).dom().finite(),
        entry_map(es).dom().len() == es.len(),
    decreases es.len(),
{
    if es.len() == 0 {
        assert(entry_map(es).dom() =~= Set::<Seq<char>>::empty());
    } else {
        let init = es.drop_last();
        assert(entry_keys_distinct(init)) by {
            assert forall|a: int, b: int|
                0 <= a < init.len() && 0 <= b < init.len() && a != b implies (#[trigger] init[a]).key.0@
                != (#[trigger] init[b]).key.0@ by {
                assert(init[a] == es[a]);
                assert(init[b] == es[b]);
            }
        }
        lemma_entry_map_size(init);
        assert(!has_entry(init, es.last().key.0@)) by {
            if has_entry(init, es.last().key.0@) {
                let j = choose|j: int| 0 <= j < init.len() && (#[trigger] init[j]).key.0@ == es.last().key.0@;
                assert(init[j] == es[j]);
            }
        }
        lemma_entry_push(init, es.last());
        assert(init.push(es.last()) == es);
    }
}

} // verus!
