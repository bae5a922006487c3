use vstd::prelude::*;

use crate::instant::Instant;
use crate::query::{
    any_fetcher, has_observer, lemma_subscribe_unsubscribe_round_trip, subscribed, unsubscribed,
    ObserverEntry, ObserverKey, Query,
};
use crate::query_cache::QueryCache;
use crate::query_key::QueryKey;
use crate::query_options::QueryOptions;
use crate::query_state::QueryState;

verus! {

/// What an observer asks of its caller after it has moved to another query.
#[derive(Clone, Copy, Debug, PartialEq, Eq)]
pub struct ObserverUpdate {
    /// Whether the observer moved at all.
    pub changed: bool,
    /// The delay after which the query it left is to be evicted, when a timer
    /// is to be set for it.
    pub gc_delay: Option<u64>,
    /// Whether the query it joined is to be fetched now.
    pub execute: bool,
}

/// The key an observer moves to: `new_key`, when a query for it is cached.
pub open spec fn target_key<K: View, V>(m: Map<K::V, Query<K, V>>, new_key: Option<K>) -> Option<K> {
    match new_key {
        Some(k) => if m.contains_key(k@) {
            Some(k)
        } else {
            None
        },
        None => None,
    }
}

/// Whether two optional keys name the same query.
pub open spec fn same_query<K: View>(a: Option<K>, b: Option<K>) -> bool {
    a matches Some(x) && b matches Some(y) && x@ == y@
}

/// Whether `after` is `before` once the observer `id` has left the query for
/// `key` at `now`, `delay` being the eviction delay that this asks for.
pub open spec fn left_query<K: View, V>(
    before: Map<K::V, Query<K, V>>,
    after: Map<K::V, Query<K, V>>,
    key: Option<K>,
    id: ObserverKey,
    now: Instant,
    delay: Option<u64>,
) -> bool {
    match key {
        Some(k) => if before.contains_key(k@) {
            &&& after == before.insert(k@, after[k@])
            &&& unsubscribed(before[k@], after[k@], id, now, delay)
        } else {
            after == before && delay is None
        },
        None => after == before && delay is None,
    }
}

/// An observer that joins a cached query it was not registered with, and then
/// leaves it, gives the cache back its keys, and the query the observers,
/// state and fetch in flight it had.
pub proof fn lemma_observe_then_leave<K: View, V>(
    before: Map<K::V, Query<K, V>>,
    during: Map<K::V, Query<K, V>>,
    after: Map<K::V, Query<K, V>>,
    key: K,
    observer: ObserverEntry,
    now: Instant,
    delay: Option<u64>,
)
    requires
        before.contains_key(key@),
        !has_observer(before[key@].spec_observers(), observer.id),
        during.dom() == before.dom(),
        subscribed(before[key@], during[key@], observer),
        left_query(during, after, Some(key), observer.id, now, delay),
    ensures
        after.dom() == before.dom(),
        after[key@].spec_observers() == before[key@].spec_observers(),
        after[key@].spec_state() == before[key@].spec_state(),
        after[key@].spec_in_flight() == before[key@].spec_in_flight(),
{
    lemma_subscribe_unsubscribe_round_trip(
        before[key@],
        during[key@],
        after[key@],
        observer,
        now,
        delay,
    );
    assert(after.dom() =~= before.dom());
}

/// An observer of one query of a cache: its id, its options, whether it can
/// fetch, and the key of the query it observes.
pub struct QueryObserver<K, V> {
    id: ObserverKey,
    key: Option<K>,
    options: QueryOptions<V>,
    has_fetcher: bool,
}

impl<K: QueryKey, V> QueryObserver<K, V> {
    /// The observer's id.
    pub closed spec fn spec_id(&self) -> ObserverKey {
        self.id
    }

    /// The key of the query it observes, if any.
    pub closed spec fn spec_key(&self) -> Option<K> {
        self.key
    }

    /// The observer's options.
    pub closed spec fn spec_options(&self) -> QueryOptions<V> {
        self.options
    }

    /// Whether the observer can fetch.
    pub closed spec fn spec_has_fetcher(&self) -> bool {
        self.has_fetcher
    }

    /// What a query keeps of this observer.
    pub open spec fn spec_entry(&self) -> ObserverEntry {
        ObserverEntry {
            id: self.spec_id(),
            stale_time: self.spec_options().stale_time,
            gc_time: self.spec_options().gc_time,
            has_fetcher: self.spec_has_fetcher(),
        }
    }

    /// The observer's id.
    pub fn get_id(&self) -> (r: ObserverKey)
        ensures
            r == self.spec_id(),
    {
        self.id
    }

    /// The observer's options.
    pub fn get_options(&self) -> (r: &QueryOptions<V>)
        ensures
            *r == self.spec_options(),
    {
        &self.options
    }

    /// The key of the query it observes, if any.
    pub fn get_key(&self) -> (r: Option<&K>)
        ensures
            r matches Some(k) ==> self.spec_key() == Some(*k),
            r is None <==> self.spec_key() is None,
    {
        match &self.key {
            Some(k) => Some(k),
            None => None,
        }
    }

    /// Whether the observer can fetch.
    pub fn has_fetcher(&self) -> (r: bool)
        ensures
            r == self.spec_has_fetcher(),
    {
        self.has_fetcher
    }

    /// What a query keeps of this observer.
    pub fn entry(&self) -> (r: ObserverEntry)
        ensures
            r == self.spec_entry(),
    {
        ObserverEntry::new(self.id, &self.options, self.has_fetcher)
    }

    /// An observer that can fetch, observing the query for `key`, which is
    /// created if it is not cached yet.
    ///
    /// Also returns whether that query is to be fetched now: it has never been
    /// loaded, or its data is stale at `now` once observed.
    pub fn with_fetcher(
        id: ObserverKey,
        options: QueryOptions<V>,
        cache: &mut QueryCache<K, V>,
        key: K,
        now: Instant,
    ) -> (r: (Self, bool))
        requires
            old(cache).wf(),
        ensures
            final(cache).wf(),
            r.0.spec_id() == id,
            r.0.spec_options() == options,
            r.0.spec_has_fetcher(),
            r.0.spec_key() == Some(key),
            final(cache)@.dom() == old(cache)@.dom().insert(key@),
            forall|j: K::V| #[trigger]
                old(cache)@.contains_key(j) && j != key@ ==> final(cache)@[j] == old(cache)@[j],
            old(cache)@.contains_key(key@) ==> subscribed(
                old(cache)@[key@],
                final(cache)@[key@],
                r.0.spec_entry(),
            ),
            !old(cache)@.contains_key(key@) ==> exists|q: Query<K, V>|
                q.spec_fresh(key) && subscribed(q, final(cache)@[key@], r.0.spec_entry()),
            r.1 == (final(cache)@[key@].spec_state() is Created || final(cache)@[key@].spec_is_stale(
                now,
            )),
    {
        let observer = QueryObserver { id, key: Some(key.key_clone()), options, has_fetcher: true };
        let entry = observer.entry();
        let ghost before = cache@;
        cache.get_or_create_query(key.key_clone());
        let ghost mid = cache@;
        proof {
            cache.lemma_wf_entries();
        }
        let fetch = match cache.get_query_mut(&key) {
            Some(q) => {
                q.subscribe(entry);
                let created = match q.get_state() {
                    QueryState::Created => true,
                    _ => false,
                };
                created || q.is_stale(now)
            },
            None => false,
        };
        proof {
            cache.lemma_wf_entries();
            if !before.contains_key(key@) {
                assert(mid[key@].spec_fresh(key));
            }
        }
        (observer, fetch)
    }

    /// An observer that cannot fetch, observing the query for `key` when one
    /// is given and cached.
    pub fn no_fetcher(
        id: ObserverKey,
        options: QueryOptions<V>,
        cache: &mut QueryCache<K, V>,
        key: Option<K>,
    ) -> (r: Self)
        requires
            old(cache).wf(),
        ensures
            final(cache).wf(),
            r.spec_id() == id,
            r.spec_options() == options,
            !r.spec_has_fetcher(),
            r.spec_key() == target_key(old(cache)@, key),
            final(cache)@.dom() == old(cache)@.dom(),
            forall|j: K::V| #[trigger]
                old(cache)@.contains_key(j) && !(r.spec_key() matches Some(k) && k@ == j)
                    ==> final(cache)@[j] == old(cache)@[j],
            r.spec_key() matches Some(k) ==> subscribed(
                old(cache)@[k@],
                final(cache)@[k@],
                r.spec_entry(),
            ),
            r.spec_key() is None ==> final(cache)@ == old(cache)@,
    {
        let target = match key {
            Some(k) => if cache.contains_key(&k) {
                Some(k)
            } else {
                None
            },
            None => None,
        };
        let observer = QueryObserver { id, key: target, options, has_fetcher: false };
        let entry = observer.entry();
        proof {
            cache.lemma_wf_entries();
        }
        match &observer.key {
            Some(k) => {
                match cache.get_query_mut(k) {
                    Some(q) => {
                        q.subscribe(entry);
                    },
                    None => {},
                }
            },
            None => {},
        }
        observer
    }

    /// Stops observing: leaves the query it observes, which may start that
    /// query's eviction countdown. Returns the eviction delay when a timer is
    /// to be set.
    pub fn cleanup(&mut self, cache: &mut QueryCache<K, V>, now: Instant) -> (r: Option<u64>)
        requires
            old(cache).wf(),
        ensures
            final(cache).wf(),
            final(self).spec_key() is None,
            final(self).spec_id() == old(self).spec_id(),
            final(self).spec_options() == old(self).spec_options(),
            final(self).spec_has_fetcher() == old(self).spec_has_fetcher(),
            final(cache)@.dom() == old(cache)@.dom(),
            left_query(old(cache)@, final(cache)@, old(self).spec_key(), old(self).spec_id(), now, r),
    {
        proof {
            cache.lemma_wf_entries();
        }
        let delay = match &self.key {
            Some(current) => match cache.get_query_mut(current) {
                Some(q) => {
                    let (_, delay) = q.unsubscribe(self.id, now);
                    delay
                },
                None => None,
            },
            None => None,
        };
        self.key = None;
        proof {
            assert(cache@.dom() =~= old(cache)@.dom());
        }
        delay
    }

    /// Moves the observer to the query for `new_key` when that query is
    /// cached, and to no query otherwise. Staying with the same query changes
    /// nothing.
    ///
    /// Leaving a query may start its eviction countdown; joining one asks for
    /// a fetch when it needs one and some observer of it can fetch.
    pub fn update_query(
        &mut self,
        cache: &mut QueryCache<K, V>,
        new_key: Option<K>,
        now: Instant,
    ) -> (r: ObserverUpdate)
        requires
            old(cache).wf(),
        ensures
            final(cache).wf(),
            final(self).spec_id() == old(self).spec_id(),
            final(self).spec_options() == old(self).spec_options(),
            final(self).spec_has_fetcher() == old(self).spec_has_fetcher(),
            same_query(old(self).spec_key(), target_key(old(cache)@, new_key)) ==> {
                &&& !r.changed
                &&& r.gc_delay is None
                &&& !r.execute
                &&& *final(self) == *old(self)
                &&& final(cache)@ == old(cache)@
            },
            !same_query(old(self).spec_key(), target_key(old(cache)@, new_key)) ==> ({
                let before = old(cache)@;
                let after = final(cache)@;
                let target = target_key(before, new_key);
                let current = old(self).spec_key();
                &&& r.changed
                &&& final(self).spec_key() == target
                &&& after.dom() == before.dom()
                &&& forall|j: K::V| #[trigger]
                    before.contains_key(j) && !(current matches Some(c) && c@ == j) && !(
                    target matches Some(n) && n@ == j) ==> after[j] == before[j]
                &&& match current {
                    Some(c) => if before.contains_key(c@) {
                        unsubscribed(before[c@], after[c@], old(self).spec_id(), now, r.gc_delay)
                    } else {
                        r.gc_delay is None
                    },
                    None => r.gc_delay is None,
                }
                &&& match target {
                    Some(n) => {
                        &&& subscribed(before[n@], after[n@], old(self).spec_entry())
                        &&& r.execute == (after[n@].spec_needs_execute(now) && any_fetcher(
                            after[n@].spec_observers(),
                        ))
                    },
                    None => !r.execute,
                }
            }),
    {
        let target = match new_key {
            Some(k) => if cache.contains_key(&k) {
                Some(k)
            } else {
                None
            },
            None => None,
        };
        let same = match (&self.key, &target) {
            (Some(current), Some(next)) => current.key_eq(next),
            _ => false,
        };
        if same {
            return ObserverUpdate { changed: false, gc_delay: None, execute: false };
        }
        let entry = self.entry();
        let gc_delay = self.cleanup(cache, now);
        let ghost mid = cache@;
        proof {
            cache.lemma_wf_entries();
        }
        let execute = match &target {
            Some(next) => match cache.get_query_mut(next) {
                Some(q) => {
                    q.subscribe(entry);
                    q.needs_execute(now) && q.has_fetcher()
                },
                None => false,
            },
            None => false,
        };
        self.key = target;
        proof {
            cache.lemma_wf_entries();
        }
        ObserverUpdate { changed: true, gc_delay, execute }
    }
}

} // verus!
