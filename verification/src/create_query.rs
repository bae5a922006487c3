use std::marker::PhantomData;

use vstd::prelude::*;

use crate::instant::Instant;
use crate::query_cache::{
    data_stored, data_updated, key_among, newly_invalidated, replaced_state, updater_arg_for, QueryCache,
    SetResult,
};
use crate::query::data_replaced;
use crate::query_key::QueryKey;
use crate::query_options::QueryOptions;
use crate::query_state::{QueryData, QueryState};

verus! {

/// Creates a [`QueryScope`] for queries with one key type and one value type,
/// fetched by `fetcher` and configured by `options`.
pub fn create_query<K, V, F>(fetcher: F, options: QueryOptions<V>) -> (r: QueryScope<K, V, F>)
    ensures
        r.spec_fetcher() == fetcher,
        r.spec_options() == options,
{
    QueryScope { fetcher, options, key_type: PhantomData }
}

/// A scope for managing the queries of one key type and one value type: their
/// fetcher, their default options, and typed access to their cache.
pub struct QueryScope<K, V, F> {
    fetcher: F,
    options: QueryOptions<V>,
    key_type: PhantomData<K>,
}

impl<K, V, F> QueryScope<K, V, F> {
    /// The scope's fetcher.
    pub closed spec fn spec_fetcher(&self) -> F {
        self.fetcher
    }

    /// The scope's default options.
    pub closed spec fn spec_options(&self) -> QueryOptions<V> {
        self.options
    }
}

impl<K: QueryKey, V, F> QueryScope<K, V, F> {
    /// The default options for this scope.
    pub fn get_options(&self) -> (r: &QueryOptions<V>)
        ensures
            *r == self.spec_options(),
    {
        &self.options
    }

    /// The fetcher for this scope.
    pub fn make_fetcher(&self) -> (r: &F)
        ensures
            *r == self.spec_fetcher(),
    {
        &self.fetcher
    }

    /// Invalidates the query for `key`, so it is refetched.
    /// Returns whether it was invalidated.
    pub fn invalidate_query(&self, cache: &mut QueryCache<K, V>, key: &K) -> (r: bool)
        requires
            old(cache).wf(),
        ensures
            final(cache).wf(),
            r == (old(cache)@.contains_key(key@) && old(cache)@[key@].spec_state() is Loaded),
            !old(cache)@.contains_key(key@) ==> final(cache)@ == old(cache)@,
            old(cache)@.contains_key(key@) ==> replaced_state(
                old(cache)@,
                final(cache)@,
                key@,
                old(cache)@[key@].spec_state().spec_invalidated(),
            ),
    {
        cache.invalidate_query(key)
    }

    /// Invalidates the queries for `keys`, in turn, if the scope's queries have
    /// a cache. Returns the keys whose query was invalidated, or `None` when no
    /// query was invalidated.
    pub fn invalidate_queries(&self, cache: Option<&mut QueryCache<K, V>>, keys: Vec<K>) -> (r:
        Option<Vec<K>>)
        requires
            cache matches Some(c) ==> (*c).wf(),
        ensures
            cache is None ==> r is None,
            cache matches Some(c) ==> {
                &&& final(c).wf()
                &&& r is None <==> newly_invalidated((*c)@, keys@).len() == 0
                &&& r matches Some(v) ==> v@ == newly_invalidated((*c)@, keys@)
                &&& final(c)@.dom() == (*c)@.dom()
                &&& forall|k: K::V| #[trigger] final(c)@.contains_key(k) ==> {
                    &&& (*c)@[k].same_but_state(&final(c)@[k])
                    &&& final(c)@[k].spec_state() == if key_among(keys@, keys@.len() as int, k) {
                        (*c)@[k].spec_state().spec_invalidated()
                    } else {
                        (*c)@[k].spec_state()
                    }
                }
            },
    {
        match cache {
            Some(c) => {
                let invalidated = c.invalidate_queries(keys);
                if invalidated.len() == 0 {
                    None
                } else {
                    Some(invalidated)
                }
            },
            None => None,
        }
    }

    /// The state of the cached query for `key`, if any.
    pub fn peek_query_state<'a>(&self, cache: &'a QueryCache<K, V>, key: &K) -> (r: Option<
        &'a QueryState<V>,
    >)
        requires
            cache.wf(),
        ensures
            r matches Some(s) ==> cache@.contains_key(key@) && *s == cache@[key@].spec_state(),
            r is None <==> !cache@.contains_key(key@),
    {
        match cache.get_query(key) {
            Some(q) => Some(q.get_state()),
            None => None,
        }
    }

    /// Invalidates all queries of this scope's types.
    pub fn invalidate_all_queries(&self, cache: &mut QueryCache<K, V>)
        requires
            old(cache).wf(),
        ensures
            final(cache).wf(),
            final(cache)@.dom() == old(cache)@.dom(),
            forall|k: K::V| #[trigger] final(cache)@.contains_key(k) ==> {
                &&& old(cache)@[k].same_but_state(&final(cache)@[k])
                &&& final(cache)@[k].spec_state() == old(cache)@[k].spec_state().spec_invalidated()
            },
    {
        cache.invalidate_all_queries()
    }

    /// Hands the data cached for `key` to `updater`, and stores what it
    /// returns, stamped with `now`, the current time.
    pub fn update_query_data<U: FnOnce(Option<&V>) -> Option<V>>(
        &self,
        cache: &mut QueryCache<K, V>,
        key: K,
        updater: U,
        now: Instant,
    ) -> (r: SetResult)
        requires
            old(cache).wf(),
            updater.requires((updater_arg_for(&old(cache)@, key@),)),
        ensures
            final(cache).wf(),
            data_updated(old(cache)@, final(cache)@, key, updater, now, r),
    {
        cache.update_query_data(key, updater, now)
    }

    /// Stores `data` for `key`, stamped with `now`, the current time.
    pub fn set_query_data(&self, cache: &mut QueryCache<K, V>, key: K, data: V, now: Instant) -> (r:
        SetResult)
        requires
            old(cache).wf(),
        ensures
            final(cache).wf(),
            data_stored(old(cache)@, final(cache)@, key, data, now, r),
            final(cache)@.contains_key(key@),
            final(cache)@[key@].spec_state().spec_query_data() == Some(
                QueryData { data, updated_at: now },
            ),
    {
        cache.set_query_data(key, data, now)
    }

    /// Mutates the data cached for `key` in place, if there is any.
    /// Returns whether it did.
    pub fn update_query_data_mut<U: FnOnce(&mut V)>(
        &self,
        cache: &mut QueryCache<K, V>,
        key: &K,
        updater: U,
    ) -> (r: bool)
        requires
            old(cache).wf(),
            forall|x: &mut V| updater.requires((x,)),
        ensures
            final(cache).wf(),
            r == (old(cache)@.contains_key(key@) && old(cache)@[key@].spec_state().spec_query_data() is Some),
            final(cache)@.dom() == old(cache)@.dom(),
            forall|k: K::V| #[trigger] final(cache)@.contains_key(k) && k != key@ ==> final(cache)@[k]
                == old(cache)@[k],
            old(cache)@.contains_key(key@) ==> data_replaced(old(cache)@[key@], final(cache)@[key@]),
            old(cache)@.contains_key(key@) ==> (old(cache)@[key@].spec_state().spec_query_data() matches Some(d)
                ==> exists|x: &mut V|
                *x == d.data && updater.ensures((x,), ()) && final(cache)@[key@].spec_state()
                    == old(cache)@[key@].spec_state().spec_with_data(*final(x))),
    {
        cache.update_query_data_mut(key, updater)
    }

    /// Cancels the fetch in flight for `key`. Returns whether there was one.
    pub fn cancel_query(&self, cache: &mut QueryCache<K, V>, key: &K) -> (r: bool)
        requires
            old(cache).wf(),
        ensures
            final(cache).wf(),
            r == (old(cache)@.contains_key(key@) && old(cache)@[key@].spec_in_flight()),
            final(cache)@.dom() == old(cache)@.dom(),
            forall|k: K::V| #[trigger] final(cache)@.contains_key(k) && k != key@ ==> final(cache)@[k]
                == old(cache)@[k],
            old(cache)@.contains_key(key@) ==> !final(cache)@[key@].spec_in_flight()
                && final(cache)@[key@].spec_state() == old(cache)@[key@].spec_state(),
    {
        cache.cancel_query(key)
    }
}

} // verus!
