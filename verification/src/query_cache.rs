use vstd::prelude::*;

use crate::instant::Instant;
use crate::query::{data_replaced, Query};
use crate::query_key::QueryKey;
use crate::query_state::{QueryData, QueryState};

verus! {

/// What an update of a query's data did.
#[derive(Clone, Copy, Debug, PartialEq, Eq, Structural)]
pub enum SetResult {
    /// A new query was created with the data.
    Inserted,
    /// An existing query took the data.
    Updated,
    /// Nothing changed.
    Nothing,
}

/// Whether a query with key `k` is among `qs`.
pub open spec fn has_key<K: View, V>(qs: Seq<Query<K, V>>, k: K::V) -> bool {
    exists|i: int| 0 <= i < qs.len() && (#[trigger] qs[i]).spec_key()@ == k
}

/// The position of the query with key `k` among `qs`.
pub open spec fn key_index<K: View, V>(qs: Seq<Query<K, V>>, k: K::V) -> int {
    choose|i: int| 0 <= i < qs.len() && (#[trigger] qs[i]).spec_key()@ == k
}

/// Whether no two queries among `qs` share a key.
pub open spec fn keys_distinct<K: View, V>(qs: Seq<Query<K, V>>) -> bool {
    forall|i: int, j: int|
        0 <= i < qs.len() && 0 <= j < qs.len() && i != j ==> (#[trigger] qs[i]).spec_key()@
            != (#[trigger] qs[j]).spec_key()@
}

/// The queries of `qs`, by key.
pub open spec fn cache_map<K: View, V>(qs: Seq<Query<K, V>>) -> Map<K::V, Query<K, V>> {
    Map::new(|k: K::V| has_key(qs, k), |k: K::V| qs[key_index(qs, k)])
}

/// The state a query takes when an update hands it `data` at `now`: a fetch in
/// flight keeps fetching, any other state becomes loaded.
pub open spec fn state_with_data<V>(state: QueryState<V>, data: V, now: Instant) -> QueryState<V> {
    match state {
        QueryState::Fetching(_) => QueryState::Fetching(QueryData { data, updated_at: now }),
        _ => QueryState::Loaded(QueryData { data, updated_at: now }),
    }
}

/// The data an update sees of a state: none while nothing has been loaded.
pub open spec fn visible_data<V>(state: QueryState<V>) -> Option<V> {
    match state.spec_query_data() {
        Some(d) => Some(d.data),
        None => None,
    }
}

/// Whether `after` is `before` with the query at `k` replaced by one that
/// differs in its state alone, that state being `state`.
pub open spec fn replaced_state<K: View, V>(
    before: Map<K::V, Query<K, V>>,
    after: Map<K::V, Query<K, V>>,
    k: K::V,
    state: QueryState<V>,
) -> bool {
    &&& before.contains_key(k)
    &&& after.dom() == before.dom()
    &&& after[k].spec_state() == state
    &&& before[k].same_but_state(&after[k])
    &&& forall|j: K::V| #[trigger] after.contains_key(j) && j != k ==> after[j] == before[j]
}

/// Whether `after` is `before` once `data` is stored for `key` at `now`, with
/// `r` telling what happened: a cached query takes the data (keeping on
/// fetching if it was), an uncached key gets a new query holding the data.
pub open spec fn data_stored<K: View, V>(
    before: Map<K::V, Query<K, V>>,
    after: Map<K::V, Query<K, V>>,
    key: K,
    data: V,
    now: Instant,
    r: SetResult,
) -> bool {
    if before.contains_key(key@) {
        &&& r == SetResult::Updated
        &&& replaced_state(before, after, key@, state_with_data(before[key@].spec_state(), data, now))
    } else {
        &&& r == SetResult::Inserted
        &&& after.contains_key(key@)
        &&& after == before.insert(key@, after[key@])
        &&& after[key@].spec_new_with_state(
            key,
            QueryState::Loaded(QueryData { data, updated_at: now }),
        )
    }
}

/// Whether `after` is `before` once `updater` has been handed the data cached
/// for `key` and its answer stored at `now`: no answer leaves everything as it was.
pub open spec fn data_updated<K: View, V, F: FnOnce(Option<&V>) -> Option<V>>(
    before: Map<K::V, Query<K, V>>,
    after: Map<K::V, Query<K, V>>,
    key: K,
    updater: F,
    now: Instant,
    r: SetResult,
) -> bool {
    ||| r == SetResult::Nothing && after == before && updater.ensures(
        (updater_arg_for(&before, key@),),
        None,
    )
    ||| exists|v: V|
        updater.ensures((updater_arg_for(&before, key@),), Some(v)) && data_stored(
            before,
            after,
            key,
            v,
            now,
            r,
        )
}

/// The keys of `keys` that an invalidation of each in turn reports: those
/// whose query held loaded data, each at its first occurrence.
pub open spec fn newly_invalidated<K: View, V>(
    m: Map<K::V, Query<K, V>>,
    keys: Seq<K>,
) -> Seq<K>
    decreases keys.len(),
{
    if keys.len() == 0 {
        Seq::empty()
    } else {
        let prev = newly_invalidated(m, keys.drop_last());
        let k = keys.last();
        if m.contains_key(k@) && m[k@].spec_state() is Loaded && !(exists|j: int|
            0 <= j < keys.len() - 1 && (#[trigger] keys[j])@ == k@) {
            prev.push(k)
        } else {
            prev
        }
    }
}

/// The data an updater is handed for a state: none while nothing has been loaded.
pub open spec fn updater_arg<V>(state: &QueryState<V>) -> Option<&V> {
    match state {
        QueryState::Fetching(d) => Some(&d.data),
        QueryState::Loaded(d) => Some(&d.data),
        QueryState::Invalid(d) => Some(&d.data),
        _ => None,
    }
}

/// What an updater is handed for `k`: nothing for an uncached key.
pub open spec fn updater_arg_for<'a, K: View, V>(m: &'a Map<K::V, Query<K, V>>, k: K::V) -> Option<&'a V> {
    if m.contains_key(k) {
        updater_arg(&m[k].spec_state())
    } else {
        None
    }
}

/// Whether a key is among the first `n` of `keys`.
pub open spec fn key_among<K: View>(keys: Seq<K>, n: int, k: K::V) -> bool {
    exists|j: int| 0 <= j < n && (#[trigger] keys[j])@ == k
}

/// The cache of queries with one key type and one value type.
pub struct QueryCache<K, V> {
    queries: Vec<Query<K, V>>,
}

impl<K: View, V> View for QueryCache<K, V> {
    type V = Map<K::V, Query<K, V>>;

    closed spec fn view(&self) -> Map<K::V, Query<K, V>> {
        cache_map(self.queries@)
    }
}

impl<K: QueryKey, V> QueryCache<K, V> {
    /// The queries in the order they were created.
    pub closed spec fn spec_queries(&self) -> Seq<Query<K, V>> {
        self.queries@
    }

    /// The cache's invariant: one query per key, each well formed.
    pub closed spec fn wf(&self) -> bool {
        &&& keys_distinct(self.queries@)
        &&& forall|i: int| 0 <= i < self.queries@.len() ==> (#[trigger] self.queries@[i]).wf()
    }

    /// Every query in a well-formed cache is well formed, and filed under its own key.
    pub proof fn lemma_wf_entries(&self)
        requires
            self.wf(),
        ensures
            forall|k: K::V| #[trigger] self@.contains_key(k) ==> self@[k].wf() && self@[k].spec_key()@ == k,
            self@.dom().finite(),
            self@.dom().len() == self.spec_queries().len(),
    {
        assert forall|k: K::V| #[trigger] self@.contains_key(k) implies self@[k].wf()
            && self@[k].spec_key()@ == k by {
            let i = key_index(self.queries@, k);
            assert(self.queries@[i].wf());
        }
        lemma_map_size(self.queries@);
    }

    /// An empty cache.
    pub fn new() -> (r: Self)
        ensures
            r.wf(),
            r@ == Map::<K::V, Query<K, V>>::empty(),
    {
        let r = QueryCache { queries: Vec::new() };
        proof {
            assert(r@ =~= Map::<K::V, Query<K, V>>::empty());
        }
        r
    }

    /// The number of queries in the cache.
    pub fn size(&self) -> (r: usize)
        requires
            self.wf(),
        ensures
            r == self@.dom().len(),
    {
        proof {
            lemma_map_size(self.queries@);
        }
        self.queries.len()
    }

    fn find(&self, key: &K) -> (r: Option<usize>)
        ensures
            r matches Some(i) ==> i < self.queries@.len() && self.queries@[i as int].spec_key()@
                == key@,
            r is None ==> !has_key(self.queries@, key@),
    {
        let mut i: usize = 0;
        while i < self.queries.len()
            invariant
                0 <= i <= self.queries@.len(),
                forall|j: int| 0 <= j < i ==> (#[trigger] self.queries@[j]).spec_key()@ != key@,
            decreases self.queries@.len() - i,
        {
            if self.queries[i].get_key().key_eq(key) {
                return Some(i);
            }
            i = i + 1;
        }
        None
    }

    /// The query for `key`, if cached.
    pub fn get_query(&self, key: &K) -> (r: Option<&Query<K, V>>)
        requires
            self.wf(),
        ensures
            r matches Some(q) ==> self@.contains_key(key@) && self@[key@] == *q,
            r is None <==> !self@.contains_key(key@),
    {
        match self.find(key) {
            Some(i) => {
                proof {
                    lemma_index_unique(self.queries@, i as int);
                }
                Some(&self.queries[i])
            },
            None => None,
        }
    }

    /// Every cached query, each once, in the order they were created.
    pub fn all_queries(&self) -> (r: &Vec<Query<K, V>>)
        requires
            self.wf(),
        ensures
            r@.len() == self@.dom().len(),
            forall|i: int| 0 <= i < r@.len() ==> self@.contains_key((#[trigger] r@[i]).spec_key()@)
                && self@[r@[i].spec_key()@] == r@[i],
            forall|k: K::V| #[trigger] self@.contains_key(k) ==> exists|i: int|
                0 <= i < r@.len() && r@[i] == self@[k],
    {
        proof {
            lemma_map_size(self.queries@);
            assert forall|i: int| 0 <= i < self.queries@.len() implies self@.contains_key(
                (#[trigger] self.queries@[i]).spec_key()@,
            ) && self@[self.queries@[i].spec_key()@] == self.queries@[i] by {
                lemma_index_unique(self.queries@, i);
            }
            assert forall|k: K::V| #[trigger] self@.contains_key(k) implies exists|i: int|
                0 <= i < self.queries@.len() && self.queries@[i] == self@[k] by {
                let i = key_index(self.queries@, k);
                assert(self.queries@[i] == self@[k]);
            }
        }
        &self.queries
    }

    /// Whether a query for `key` is cached.
    pub fn contains_key(&self, key: &K) -> (r: bool)
        requires
            self.wf(),
        ensures
            r == self@.contains_key(key@),
    {
        self.find(key).is_some()
    }

    /// The query for `key`, for changing it in place.
    pub fn get_query_mut(&mut self, key: &K) -> (r: Option<&mut Query<K, V>>)
        requires
            old(self).wf(),
        ensures
            r is None <==> !old(self)@.contains_key(key@),
            r is None ==> *final(self) == *old(self),
            r matches Some(q) ==> {
                &&& old(self)@.contains_key(key@)
                &&& *q == old(self)@[key@]
                &&& final(q).spec_key()@ == key@ ==> final(self)@ == old(self)@.insert(key@, *final(q))
                &&& (final(q).wf() && final(q).spec_key()@ == key@) ==> final(self).wf()
            },
    {
        match self.find(key) {
            Some(i) => {
                proof {
                    lemma_index_unique(self.queries@, i as int);
                }
                let q = &mut self.queries[i];
                proof {
                    lemma_update_wf(old(self).queries@, i as int, *final(q));
                }
                Some(q)
            },
            None => None,
        }
    }

    /// The query for `key`, created if it is not cached yet.
    /// Returns whether it was created.
    pub fn get_or_create_query(&mut self, key: K) -> (r: bool)
        requires
            old(self).wf(),
        ensures
            final(self).wf(),
            r == !old(self)@.contains_key(key@),
            !r ==> final(self)@ == old(self)@,
            r ==> final(self)@.contains_key(key@) && final(self)@[key@].spec_fresh(key),
            r ==> final(self)@ == old(self)@.insert(key@, final(self)@[key@]),
    {
        match self.find(&key) {
            Some(i) => {
                proof {
                    lemma_index_unique(self.queries@, i as int);
                }
                false
            },
            None => {
                let q = Query::new(key);
                proof {
                    lemma_map_push(self.queries@, q);
                }
                self.queries.push(q);
                true
            },
        }
    }

    /// Removes the query for `key`. Returns whether it was cached.
    pub fn evict_query(&mut self, key: &K) -> (r: bool)
        requires
            old(self).wf(),
        ensures
            final(self).wf(),
            r == old(self)@.contains_key(key@),
            final(self)@ == old(self)@.remove(key@),
    {
        match self.find(key) {
            Some(i) => {
                proof {
                    lemma_index_unique(self.queries@, i as int);
                    lemma_map_remove(self.queries@, i as int);
                }
                let _ = self.queries.remove(i);
                true
            },
            None => {
                proof {
                    assert(old(self)@.remove(key@) =~= old(self)@);
                }
                false
            },
        }
    }

    /// Evicts the query for `key` when its eviction timer fires, unless an
    /// observer came back meanwhile. Returns whether it was evicted.
    pub fn evict_if_unused(&mut self, key: &K) -> (r: bool)
        requires
            old(self).wf(),
        ensures
            final(self).wf(),
            r == (old(self)@.contains_key(key@) && old(self)@[key@].spec_evictable()),
            r ==> final(self)@ == old(self)@.remove(key@),
            !r ==> final(self)@ == old(self)@,
    {
        let unused = match self.get_query(key) {
            Some(q) => q.is_evictable(),
            None => false,
        };
        if unused {
            self.evict_query(key)
        } else {
            false
        }
    }

    /// Marks the query for `key` invalid, if it holds loaded data.
    /// Returns whether it did.
    pub fn invalidate_query(&mut self, key: &K) -> (r: bool)
        requires
            old(self).wf(),
        ensures
            final(self).wf(),
            r == (old(self)@.contains_key(key@) && old(self)@[key@].spec_state() is Loaded),
            !old(self)@.contains_key(key@) ==> final(self)@ == old(self)@,
            old(self)@.contains_key(key@) ==> replaced_state(
                old(self)@,
                final(self)@,
                key@,
                old(self)@[key@].spec_state().spec_invalidated(),
            ),
    {
        match self.find(key) {
            Some(i) => {
                proof {
                    lemma_index_unique(self.queries@, i as int);
                }
                let r = self.queries[i].mark_invalid();
                proof {
                    lemma_update_wf(old(self).queries@, i as int, self.queries@[i as int]);
                    assert(self.queries@ == old(self).queries@.update(i as int, self.queries@[i as int]));
                    assert(self@.dom() =~= old(self)@.dom());
                }
                r
            },
            None => false,
        }
    }

    /// Marks each of `keys` invalid in turn. Returns the keys whose query was
    /// invalidated, in order.
    pub fn invalidate_queries(&mut self, keys: Vec<K>) -> (r: Vec<K>)
        requires
            old(self).wf(),
        ensures
            final(self).wf(),
            r@ == newly_invalidated(old(self)@, keys@),
            final(self)@.dom() == old(self)@.dom(),
            forall|k: K::V| #[trigger] final(self)@.contains_key(k) ==> {
                &&& old(self)@[k].same_but_state(&final(self)@[k])
                &&& final(self)@[k].spec_state() == if key_among(keys@, keys@.len() as int, k) {
                    old(self)@[k].spec_state().spec_invalidated()
                } else {
                    old(self)@[k].spec_state()
                }
            },
    {
        let ghost start = self@;
        let ghost all_keys = keys@;
        let mut keys = keys;
        let mut result: Vec<K> = Vec::new();
        let ghost mut taken: Seq<K> = Seq::empty();
        while keys.len() > 0
            invariant
                self.wf(),
                taken + keys@ == all_keys,
                result@ == newly_invalidated(start, taken),
                self@.dom() == start.dom(),
                forall|k: K::V| #[trigger] self@.contains_key(k) ==> {
                    &&& start[k].same_but_state(&self@[k])
                    &&& self@[k].spec_state() == if key_among(taken, taken.len() as int, k) {
                        start[k].spec_state().spec_invalidated()
                    } else {
                        start[k].spec_state()
                    }
                },
            decreases keys@.len(),
        {
            let ghost prev_keys = keys@;
            let key = keys.remove(0);
            let ghost before = self@;
            let ghost prev_taken = taken;
            let hit = self.invalidate_query(&key);
            proof {
                taken = taken.push(key);
                lemma_invalidate_step(start, before, self@, prev_taken, key, hit);
                assert(taken + keys@ =~= all_keys) by {
                    assert(prev_keys =~= seq![key] + keys@);
                    assert(prev_taken + prev_keys == all_keys);
                }
            }
            if hit {
                result.push(key);
            }
        }
        proof {
            assert(taken =~= all_keys);
        }
        result
    }

    /// Marks every query holding loaded data invalid.
    pub fn invalidate_all_queries(&mut self)
        requires
            old(self).wf(),
        ensures
            final(self).wf(),
            final(self)@.dom() == old(self)@.dom(),
            forall|k: K::V| #[trigger] final(self)@.contains_key(k) ==> {
                &&& old(self)@[k].same_but_state(&final(self)@[k])
                &&& final(self)@[k].spec_state() == old(self)@[k].spec_state().spec_invalidated()
            },
    {
        let ghost start = self.queries@;
        let mut i: usize = 0;
        while i < self.queries.len()
            invariant
                0 <= i <= self.queries@.len(),
                self.queries@.len() == start.len(),
                keys_distinct(start),
                forall|j: int| 0 <= j < start.len() ==> (#[trigger] start[j]).wf(),
                forall|j: int| 0 <= j < i ==> start[j].same_but_state(&(#[trigger] self.queries@[j]))
                    && self.queries@[j].spec_state() == start[j].spec_state().spec_invalidated(),
                forall|j: int| i <= j < start.len() ==> #[trigger] self.queries@[j] == start[j],
            decreases self.queries@.len() - i,
        {
            self.queries[i].mark_invalid();
            i = i + 1;
        }
        proof {
            lemma_same_keys(start, self.queries@);
            assert forall|j: int| 0 <= j < self.queries@.len() implies (#[trigger] self.queries@[j]).wf() by {
                assert(start[j].same_but_state(&self.queries@[j]));
            }
        }
    }

    /// Hands the data cached for `key` to `updater`, and stores what it returns,
    /// stamped with `now`. An uncached key is handed nothing, and a query is
    /// created only if the updater returns data.
    pub fn update_query_data<F: FnOnce(Option<&V>) -> Option<V>>(
        &mut self,
        key: K,
        updater: F,
        now: Instant,
    ) -> (r: SetResult)
        requires
            old(self).wf(),
            updater.requires((updater_arg_for(&old(self)@, key@),)),
        ensures
            final(self).wf(),
            data_updated(old(self)@, final(self)@, key, updater, now, r),
    {
        match self.find(&key) {
            Some(i) => {
                proof {
                    lemma_index_unique(self.queries@, i as int);
                }
                let result = {
                    let arg = match self.queries[i].get_state() {
                        QueryState::Fetching(d) => Some(&d.data),
                        QueryState::Loaded(d) => Some(&d.data),
                        QueryState::Invalid(d) => Some(&d.data),
                        _ => None,
                    };
                    proof {
                        assert(arg == updater_arg_for(&old(self)@, key@));
                    }
                    updater(arg)
                };
                match result {
                    Some(v) => {
                        let fetching = match self.queries[i].get_state() {
                            QueryState::Fetching(_) => true,
                            _ => false,
                        };
                        let data = QueryData { data: v, updated_at: now };
                        let state = if fetching {
                            QueryState::Fetching(data)
                        } else {
                            QueryState::Loaded(data)
                        };
                        self.queries[i].set_state(state);
                        proof {
                            lemma_update_wf(old(self).queries@, i as int, self.queries@[i as int]);
                            assert(self.queries@ == old(self).queries@.update(
                                i as int,
                                self.queries@[i as int],
                            ));
                            assert(self@.dom() =~= old(self)@.dom());
                            assert(updater.ensures((updater_arg_for(&old(self)@, key@),), Some(v)));
                            assert(replaced_state(
                                old(self)@,
                                self@,
                                key@,
                                state_with_data(old(self)@[key@].spec_state(), v, now),
                            ));
                            assert(data_stored(old(self)@, self@, key, v, now, SetResult::Updated));
                        }
                        SetResult::Updated
                    },
                    None => {
                        proof {
                            assert(self@ == old(self)@);
                        }
                        SetResult::Nothing
                    },
                }
            },
            None => {
                let ghost k = key;
                match updater(None) {
                    Some(v) => {
                        let mut q = Query::new(key);
                        q.set_state(QueryState::Loaded(QueryData { data: v, updated_at: now }));
                        proof {
                            lemma_map_push(self.queries@, q);
                        }
                        self.queries.push(q);
                        proof {
                            lemma_index_unique(self.queries@, self.queries@.len() - 1);
                            assert(self.queries@[self.queries@.len() - 1] == q);
                            assert(q.spec_new_with_state(
                                k,
                                QueryState::Loaded(QueryData { data: v, updated_at: now }),
                            ));
                            assert(updater.ensures((None,), Some(v)));
                            assert(data_stored(old(self)@, self@, k, v, now, SetResult::Inserted));
                        }
                        SetResult::Inserted
                    },
                    None => {
                        proof {
                            assert(self@ == old(self)@);
                        }
                        SetResult::Nothing
                    },
                }
            },
        }
    }

    /// Stores `data` for `key`, stamped with `now`, creating the query if needed.
    pub fn set_query_data(&mut self, key: K, data: V, now: Instant) -> (r: SetResult)
        requires
            old(self).wf(),
        ensures
            final(self).wf(),
            data_stored(old(self)@, final(self)@, key, data, now, r),
            final(self)@.contains_key(key@),
            final(self)@[key@].spec_state().spec_query_data() == Some(
                QueryData { data, updated_at: now },
            ),
    {
        match self.find(&key) {
            Some(i) => {
                proof {
                    lemma_index_unique(self.queries@, i as int);
                }
                let fetching = match self.queries[i].get_state() {
                    QueryState::Fetching(_) => true,
                    _ => false,
                };
                let qd = QueryData { data, updated_at: now };
                let state = if fetching {
                    QueryState::Fetching(qd)
                } else {
                    QueryState::Loaded(qd)
                };
                self.queries[i].set_state(state);
                proof {
                    lemma_update_wf(old(self).queries@, i as int, self.queries@[i as int]);
                    assert(self.queries@ == old(self).queries@.update(i as int, self.queries@[i as int]));
                    assert(self@.dom() =~= old(self)@.dom());
                }
                SetResult::Updated
            },
            None => {
                let mut q = Query::new(key);
                q.set_state(QueryState::Loaded(QueryData { data, updated_at: now }));
                proof {
                    lemma_map_push(self.queries@, q);
                }
                self.queries.push(q);
                proof {
                    lemma_index_unique(self.queries@, self.queries@.len() - 1);
                }
                SetResult::Inserted
            },
        }
    }

    /// Mutates the data cached for `key` in place, if there is any.
    /// Returns whether it did.
    pub fn update_query_data_mut<F: FnOnce(&mut V)>(&mut self, key: &K, updater: F) -> (r: bool)
        requires
            old(self).wf(),
            forall|x: &mut V| updater.requires((x,)),
        ensures
            final(self).wf(),
            r == (old(self)@.contains_key(key@) && old(self)@[key@].spec_state().spec_query_data() is Some),
            final(self)@.dom() == old(self)@.dom(),
            forall|k: K::V| #[trigger] final(self)@.contains_key(k) && k != key@ ==> final(self)@[k]
                == old(self)@[k],
            old(self)@.contains_key(key@) ==> data_replaced(old(self)@[key@], final(self)@[key@]),
            old(self)@.contains_key(key@) ==> (old(self)@[key@].spec_state().spec_query_data() matches Some(d)
                ==> exists|x: &mut V|
                *x == d.data && updater.ensures((x,), ()) && final(self)@[key@].spec_state()
                    == old(self)@[key@].spec_state().spec_with_data(*final(x))),
    {
        match self.find(key) {
            Some(i) => {
                proof {
                    lemma_index_unique(self.queries@, i as int);
                }
                let r = self.queries[i].update_data_mut(updater);
                proof {
                    lemma_update_wf(old(self).queries@, i as int, self.queries@[i as int]);
                    assert(self.queries@ == old(self).queries@.update(i as int, self.queries@[i as int]));
                    assert(self@.dom() =~= old(self)@.dom());
                }
                r
            },
            None => false,
        }
    }

    /// Cancels the fetch in flight for `key`. Returns whether there was one.
    pub fn cancel_query(&mut self, key: &K) -> (r: bool)
        requires
            old(self).wf(),
        ensures
            final(self).wf(),
            r == (old(self)@.contains_key(key@) && old(self)@[key@].spec_in_flight()),
            final(self)@.dom() == old(self)@.dom(),
            forall|k: K::V| #[trigger] final(self)@.contains_key(k) && k != key@ ==> final(self)@[k]
                == old(self)@[k],
            old(self)@.contains_key(key@) ==> {
                let before = old(self)@[key@];
                let after = final(self)@[key@];
                &&& !after.spec_in_flight()
                &&& after.spec_key() == before.spec_key()
                &&& after.spec_state() == before.spec_state()
                &&& after.spec_observers() == before.spec_observers()
                &&& after.spec_gc() == before.spec_gc()
            },
    {
        match self.find(key) {
            Some(i) => {
                proof {
                    lemma_index_unique(self.queries@, i as int);
                }
                let r = self.queries[i].cancel();
                proof {
                    lemma_update_wf(old(self).queries@, i as int, self.queries@[i as int]);
                    assert(self.queries@ == old(self).queries@.update(i as int, self.queries@[i as int]));
                    assert(self@.dom() =~= old(self)@.dom());
                }
                r
            },
            None => false,
        }
    }
}

/// Two runs of queries with the same keys, position by position, file their
/// queries under the same keys.
proof fn lemma_same_keys<K: View, V>(before: Seq<Query<K, V>>, after: Seq<Query<K, V>>)
    requires
        keys_distinct(before),
        before.len() == after.len(),
        forall|j: int| 0 <= j < before.len() ==> (#[trigger] after[j]).spec_key() == before[j].spec_key(),
    ensures
        keys_distinct(after),
        cache_map(after).dom() == cache_map(before).dom(),
        forall|j: int| 0 <= j < before.len() ==> cache_map(before)[(#[trigger] before[j]).spec_key()@] == before[j]
            && cache_map(after)[before[j].spec_key()@] == after[j],
{
    assert forall|a: int, b: int|
        0 <= a < after.len() && 0 <= b < after.len() && a != b implies (#[trigger] after[a]).spec_key()@
        != (#[trigger] after[b]).spec_key()@ by {
        assert(after[a].spec_key() == before[a].spec_key());
        assert(after[b].spec_key() == before[b].spec_key());
    }
    assert forall|k: K::V| has_key(after, k) <==> has_key(before, k) by {
        if has_key(after, k) {
            let j = choose|j: int| 0 <= j < after.len() && (#[trigger] after[j]).spec_key()@ == k;
            assert(before[j].spec_key() == after[j].spec_key());
        }
        if has_key(before, k) {
            let j = choose|j: int| 0 <= j < before.len() && (#[trigger] before[j]).spec_key()@ == k;
            assert(before[j].spec_key() == after[j].spec_key());
        }
    }
    assert(cache_map(after).dom() =~= cache_map(before).dom());
    assert forall|j: int| 0 <= j < before.len() implies cache_map(before)[(#[trigger] before[j]).spec_key()@] == before[j]
        && cache_map(after)[before[j].spec_key()@] == after[j] by {
        lemma_index_unique(before, j);
        lemma_index_unique(after, j);
    }
}

/// Storing data by hand always leaves that data, stamped with the time it
/// was stored; the query keeps fetching only if it was fetching, and in any
/// other state (never loaded, loading, loaded or invalidated) it becomes
/// loaded.
pub proof fn lemma_stored_data_is_loaded_unless_fetching<V>(state: QueryState<V>, data: V, now: Instant)
    ensures
        state_with_data(state, data, now).spec_query_data() == Some(QueryData { data, updated_at: now }),
        state_with_data(state, data, now) is Fetching <==> state is Fetching,
        !(state is Fetching) ==> state_with_data(state, data, now) is Loaded,
{
}

/// Invalidating several keys in turn reports each key at most once, and only
/// keys among those asked for whose query held loaded data.
pub proof fn lemma_newly_invalidated_once<K: View, V>(m: Map<K::V, Query<K, V>>, keys: Seq<K>)
    ensures
        ({
            let r = newly_invalidated(m, keys);
            &&& forall|i: int, j: int| 0 <= i < j < r.len() ==> (#[trigger] r[i])@ != (#[trigger] r[j])@
            &&& forall|i: int|
                0 <= i < r.len() ==> m.contains_key((#[trigger] r[i])@) && m[r[i]@].spec_state() is Loaded
                    && key_among(keys, keys.len() as int, r[i]@)
        }),
    decreases keys.len(),
{
    if keys.len() > 0 {
        let init = keys.drop_last();
        let k = keys.last();
        lemma_newly_invalidated_once(m, init);
        let prev = newly_invalidated(m, init);
        let r = newly_invalidated(m, keys);
        assert forall|i: int| 0 <= i < prev.len() implies key_among(keys, keys.len() as int, (#[trigger] prev[i])@) by {
            let j = choose|j: int| 0 <= j < init.len() && (#[trigger] init[j])@ == prev[i]@;
            assert(keys[j] == init[j]);
        }
        if r != prev {
            assert(r == prev.push(k));
            assert(keys[keys.len() - 1] == k);
            assert forall|i: int| 0 <= i < prev.len() implies (#[trigger] prev[i])@ != k@ by {
                let j = choose|j: int| 0 <= j < init.len() && (#[trigger] init[j])@ == prev[i]@;
                assert(keys[j] == init[j]);
            }
            assert forall|i: int, j: int| 0 <= i < j < r.len() implies (#[trigger] r[i])@ != (#[trigger] r[j])@ by {
                if j == r.len() - 1 {
                    assert(r[i] == prev[i]);
                } else {
                    assert(r[i] == prev[i] && r[j] == prev[j]);
                }
            }
            assert forall|i: int| 0 <= i < r.len() implies m.contains_key((#[trigger] r[i])@)
                && m[r[i]@].spec_state() is Loaded && key_among(keys, keys.len() as int, r[i]@) by {
                if i < prev.len() {
                    assert(r[i] == prev[i]);
                }
            }
        }
    }
}

/// One step of invalidating keys in turn keeps the account of which keys were
/// invalidated, and which states changed.
proof fn lemma_invalidate_step<K: View, V>(
    start: Map<K::V, Query<K, V>>,
    before: Map<K::V, Query<K, V>>,
    after: Map<K::V, Query<K, V>>,
    taken: Seq<K>,
    key: K,
    hit: bool,
)
    requires
        before.dom() == start.dom(),
        forall|k: K::V| #[trigger] before.contains_key(k) ==> {
            &&& start[k].same_but_state(&before[k])
            &&& before[k].spec_state() == if key_among(taken, taken.len() as int, k) {
                start[k].spec_state().spec_invalidated()
            } else {
                start[k].spec_state()
            }
        },
        hit == (before.contains_key(key@) && before[key@].spec_state() is Loaded),
        !before.contains_key(key@) ==> after == before,
        before.contains_key(key@) ==> replaced_state(
            before,
            after,
            key@,
            before[key@].spec_state().spec_invalidated(),
        ),
    ensures
        after.dom() == start.dom(),
        forall|k: K::V| #[trigger] after.contains_key(k) ==> {
            &&& start[k].same_but_state(&after[k])
            &&& after[k].spec_state() == if key_among(taken.push(key), taken.len() + 1int, k) {
                start[k].spec_state().spec_invalidated()
            } else {
                start[k].spec_state()
            }
        },
        newly_invalidated(start, taken.push(key)) == if hit {
            newly_invalidated(start, taken).push(key)
        } else {
            newly_invalidated(start, taken)
        },
{
    let t2 = taken.push(key);
    assert(t2.drop_last() == taken);
    assert(t2.last() == key);
    assert forall|k: K::V| key_among(t2, t2.len() as int, k) <==> (key_among(
        taken,
        taken.len() as int,
        k,
    ) || k == key@) by {
        if key_among(taken, taken.len() as int, k) {
            let j = choose|j: int| 0 <= j < taken.len() && (#[trigger] taken[j])@ == k;
            assert(t2[j] == taken[j]);
        }
        if k == key@ {
            assert(t2[taken.len() as int] == key);
        }
        if key_among(t2, t2.len() as int, k) && k != key@ {
            let j = choose|j: int| 0 <= j < t2.len() && (#[trigger] t2[j])@ == k;
            assert(j < taken.len());
            assert(t2[j] == taken[j]);
        }
    }
    assert((exists|j: int| 0 <= j < t2.len() - 1 && (#[trigger] t2[j])@ == key@) <==> key_among(
        taken,
        taken.len() as int,
        key@,
    )) by {
        if exists|j: int| 0 <= j < t2.len() - 1 && (#[trigger] t2[j])@ == key@ {
            let j = choose|j: int| 0 <= j < t2.len() - 1 && (#[trigger] t2[j])@ == key@;
            assert(t2[j] == taken[j]);
        }
        if key_among(taken, taken.len() as int, key@) {
            let j = choose|j: int| 0 <= j < taken.len() && (#[trigger] taken[j])@ == key@;
            assert(t2[j] == taken[j]);
        }
    }
    assert forall|k: K::V| #[trigger] after.contains_key(k) implies {
        &&& start[k].same_but_state(&after[k])
        &&& after[k].spec_state() == if key_among(t2, t2.len() as int, k) {
            start[k].spec_state().spec_invalidated()
        } else {
            start[k].spec_state()
        }
    } by {
        if k == key@ {
            assert(before.contains_key(k));
        } else if before.contains_key(key@) {
            assert(after[k] == before[k]);
        }
    }
}

/// With distinct keys, the query at position `i` is the one filed under its key.
proof fn lemma_index_unique<K: View, V>(qs: Seq<Query<K, V>>, i: int)
    requires
        keys_distinct(qs),
        0 <= i < qs.len(),
    ensures
        has_key(qs, qs[i].spec_key()@),
        key_index(qs, qs[i].spec_key()@) == i,
        cache_map(qs).contains_key(qs[i].spec_key()@),
        cache_map(qs)[qs[i].spec_key()@] == qs[i],
{
    let k = qs[i].spec_key()@;
    assert(has_key(qs, k));
    let j = key_index(qs, k);
    assert(qs[j].spec_key()@ == k);
}

/// Appending a query with a new key files it under that key.
proof fn lemma_map_push<K: View, V>(qs: Seq<Query<K, V>>, q: Query<K, V>)
    requires
        keys_distinct(qs),
        !has_key(qs, q.spec_key()@),
    ensures
        keys_distinct(qs.push(q)),
        cache_map(qs.push(q)) == cache_map(qs).insert(q.spec_key()@, q),
{
    let qs2 = qs.push(q);
    assert forall|i: int, j: int|
        0 <= i < qs2.len() && 0 <= j < qs2.len() && i != j implies (#[trigger] qs2[i]).spec_key()@
        != (#[trigger] qs2[j]).spec_key()@ by {
        if i == qs.len() {
            assert(qs2[j] == qs[j]);
        } else if j == qs.len() {
            assert(qs2[i] == qs[i]);
        } else {
            assert(qs2[i] == qs[i]);
            assert(qs2[j] == qs[j]);
        }
    }
    let m1 = cache_map(qs2);
    let m2 = cache_map(qs).insert(q.spec_key()@, q);
    assert forall|k: K::V| m1.contains_key(k) <==> m2.contains_key(k) by {
        if has_key(qs2, k) {
            let i = choose|i: int| 0 <= i < qs2.len() && (#[trigger] qs2[i]).spec_key()@ == k;
            if i < qs.len() {
                assert(qs2[i] == qs[i]);
            }
        }
        if has_key(qs, k) {
            let i = choose|i: int| 0 <= i < qs.len() && (#[trigger] qs[i]).spec_key()@ == k;
            assert(qs2[i] == qs[i]);
        }
        if k == q.spec_key()@ {
            assert(qs2[qs.len() as int] == q);
        }
    }
    assert forall|k: K::V| m1.contains_key(k) implies m1[k] == m2[k] by {
        if k == q.spec_key()@ {
            lemma_index_unique(qs2, qs.len() as int);
        } else {
            let i = key_index(qs2, k);
            assert(i < qs.len());
            assert(qs2[i] == qs[i]);
            lemma_index_unique(qs2, i);
            lemma_index_unique(qs, i);
        }
    }
    assert(m1 =~= m2);
}

/// Replacing the query at position `i` by one with the same key re-files it under that key.
proof fn lemma_update_wf<K: View, V>(qs: Seq<Query<K, V>>, i: int, q: Query<K, V>)
    requires
        keys_distinct(qs),
        0 <= i < qs.len(),
    ensures
        q.spec_key()@ == qs[i].spec_key()@ ==> keys_distinct(qs.update(i, q)),
        q.spec_key()@ == qs[i].spec_key()@ ==> cache_map(qs.update(i, q)) == cache_map(qs).insert(
            q.spec_key()@,
            q,
        ),
{
    let qs2 = qs.update(i, q);
    if q.spec_key()@ == qs[i].spec_key()@ {
        assert forall|a: int, b: int|
            0 <= a < qs2.len() && 0 <= b < qs2.len() && a != b implies (#[trigger] qs2[a]).spec_key()@
            != (#[trigger] qs2[b]).spec_key()@ by {
            if a == i {
                assert(qs2[b] == qs[b]);
            } else if b == i {
                assert(qs2[a] == qs[a]);
            } else {
                assert(qs2[a] == qs[a]);
                assert(qs2[b] == qs[b]);
            }
        }
        let m1 = cache_map(qs2);
        let m2 = cache_map(qs).insert(q.spec_key()@, q);
        assert forall|k: K::V| m1.contains_key(k) <==> m2.contains_key(k) by {
            if has_key(qs2, k) {
                let j = choose|j: int| 0 <= j < qs2.len() && (#[trigger] qs2[j]).spec_key()@ == k;
                if j != i {
                    assert(qs2[j] == qs[j]);
                }
            }
            if has_key(qs, k) {
                let j = choose|j: int| 0 <= j < qs.len() && (#[trigger] qs[j]).spec_key()@ == k;
                if j != i {
                    assert(qs2[j] == qs[j]);
                } else {
                    assert(qs2[i] == q);
                }
            }
            if k == q.spec_key()@ {
                assert(qs2[i] == q);
            }
        }
        assert forall|k: K::V| m1.contains_key(k) implies m1[k] == m2[k] by {
            let j = key_index(qs2, k);
            lemma_index_unique(qs2, j);
            if j != i {
                assert(qs2[j] == qs[j]);
                lemma_index_unique(qs, j);
            }
        }
        assert(m1 =~= m2);
    }
}

/// Removing the query at position `i` removes its key.
proof fn lemma_map_remove<K: View, V>(qs: Seq<Query<K, V>>, i: int)
    requires
        keys_distinct(qs),
        0 <= i < qs.len(),
    ensures
        keys_distinct(qs.remove(i)),
        cache_map(qs.remove(i)) == cache_map(qs).remove(qs[i].spec_key()@),
{
    let qs2 = qs.remove(i);
    let key = qs[i].spec_key()@;
    assert forall|a: int| 0 <= a < qs2.len() implies qs2[a] == qs[if a < i {
        a
    } else {
        a + 1
    }] by {}
    assert forall|a: int, b: int|
        0 <= a < qs2.len() && 0 <= b < qs2.len() && a != b implies (#[trigger] qs2[a]).spec_key()@
        != (#[trigger] qs2[b]).spec_key()@ by {
        let a1 = if a < i {
            a
        } else {
            a + 1
        };
        let b1 = if b < i {
            b
        } else {
            b + 1
        };
        assert(qs2[a] == qs[a1]);
        assert(qs2[b] == qs[b1]);
    }
    let m1 = cache_map(qs2);
    let m2 = cache_map(qs).remove(key);
    assert forall|k: K::V| m1.contains_key(k) <==> m2.contains_key(k) by {
        if has_key(qs2, k) {
            let j = choose|j: int| 0 <= j < qs2.len() && (#[trigger] qs2[j]).spec_key()@ == k;
            let j1 = if j < i {
                j
            } else {
                j + 1
            };
            assert(qs2[j] == qs[j1]);
            assert(j1 != i);
        }
        if has_key(qs, k) && k != key {
            let j = choose|j: int| 0 <= j < qs.len() && (#[trigger] qs[j]).spec_key()@ == k;
            assert(j != i);
            let j2 = if j < i {
                j
            } else {
                j - 1
            };
            assert(qs2[j2] == qs[j]);
        }
    }
    assert forall|k: K::V| m1.contains_key(k) implies m1[k] == m2[k] by {
        let j = key_index(qs2, k);
        lemma_index_unique(qs2, j);
        let j1 = if j < i {
            j
        } else {
            j + 1
        };
        assert(qs2[j] == qs[j1]);
        lemma_index_unique(qs, j1);
    }
    assert(m1 =~= m2);
}

/// A cache with distinct keys holds as many keys as queries.
proof fn lemma_map_size<K: View, V>(qs: Seq<Query<K, V>>)
    requires
        keys_distinct(qs),
    ensures
        cache_map(qs).dom().finite(),
        cache_map(qs).dom().len() == qs.len(),
    decreases qs.len(),
{
    if qs.len() == 0 {
        assert(cache_map(qs).dom() =~= Set::<K::V>::empty());
    } else {
        let init = qs.drop_last();
        assert(keys_distinct(init)) by {
            assert forall|a: int, b: int|
                0 <= a < init.len() && 0 <= b < init.len() && a != b implies (#[trigger] init[a]).spec_key()@
                != (#[trigger] init[b]).spec_key()@ by {
                assert(init[a] == qs[a]);
                assert(init[b] == qs[b]);
            }
        }
        lemma_map_size(init);
        assert(!has_key(init, qs.last().spec_key()@)) by {
            if has_key(init, qs.last().spec_key()@) {
                let j = choose|j: int| 0 <= j < init.len() && (#[trigger] init[j]).spec_key()@ == qs.last().spec_key()@;
                assert(init[j] == qs[j]);
            }
        }
        lemma_map_push(init, qs.last());
        assert(init.push(qs.last()) == qs);
    }
}

} // verus!
