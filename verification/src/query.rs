use vstd::prelude::*;

use crate::garbage_collector::{GarbageCollector, GcTime};
use crate::instant::Instant;
use crate::query_options::QueryOptions;
use crate::query_state::{QueryData, QueryState};
use crate::util::{spec_time_until_stale, time_until_stale};

verus! {

/// Identifies an observer of a query.
#[derive(Clone, Copy, Debug, PartialEq, Eq, Hash, Structural)]
pub struct ObserverKey(pub u32);

/// Hands out the next observer id from `counter`, and advances it.
pub fn next_id(counter: &mut u32) -> (r: ObserverKey)
    requires
        *old(counter) < u32::MAX,
    ensures
        r.0 == *old(counter),
        *final(counter) == *old(counter) + 1,
{
    let current_id = *counter;
    *counter = current_id + 1;
    ObserverKey(current_id)
}

/// What a query keeps of one of its observers.
#[derive(Clone, Copy, Debug)]
pub struct ObserverEntry {
    /// The observer's id.
    pub id: ObserverKey,
    /// The observer's stale time, in milliseconds.
    pub stale_time: Option<u64>,
    /// The observer's gc time, in milliseconds.
    pub gc_time: Option<u64>,
    /// Whether the observer can fetch the query's data.
    pub has_fetcher: bool,
}

impl ObserverEntry {
    /// The entry for an observer with the given id and options.
    pub fn new<V>(id: ObserverKey, options: &QueryOptions<V>, has_fetcher: bool) -> (r: Self)
        ensures
            r.id == id,
            r.stale_time == options.stale_time,
            r.gc_time == options.gc_time,
            r.has_fetcher == has_fetcher,
    {
        ObserverEntry {
            id,
            stale_time: options.stale_time,
            gc_time: options.gc_time,
            has_fetcher,
        }
    }
}

/// Whether no two observers share an id.
pub open spec fn ids_distinct(observers: Seq<ObserverEntry>) -> bool {
    forall|i: int, j: int|
        0 <= i < observers.len() && 0 <= j < observers.len() && i != j ==> observers[i].id
            != observers[j].id
}

/// Whether an observer with `id` is registered.
pub open spec fn has_observer(observers: Seq<ObserverEntry>, id: ObserverKey) -> bool {
    exists|i: int| 0 <= i < observers.len() && observers[i].id == id
}

/// Whether some observer can fetch.
pub open spec fn any_fetcher(observers: Seq<ObserverEntry>) -> bool {
    exists|i: int| 0 <= i < observers.len() && observers[i].has_fetcher
}

/// The observers left once the one with `id` has gone.
pub open spec fn without_observer(observers: Seq<ObserverEntry>, id: ObserverKey) -> Seq<
    ObserverEntry,
> {
    observers.filter(|e: ObserverEntry| e.id != id)
}

/// The smaller of two optional durations, where a missing one does not count.
pub open spec fn min_option(a: Option<u64>, b: Option<u64>) -> Option<u64> {
    match (a, b) {
        (Some(x), Some(y)) => Some(if y < x { y } else { x }),
        (Some(x), None) => Some(x),
        (None, y) => y,
    }
}

/// The stale time in force: the minimum over the observers that set one.
pub open spec fn min_stale_time(observers: Seq<ObserverEntry>) -> Option<u64>
    decreases observers.len(),
{
    if observers.len() == 0 {
        None
    } else {
        min_option(min_stale_time(observers.drop_last()), observers.last().stale_time)
    }
}

/// Whether data in `state` is stale at `now`, given the stale time in force.
pub open spec fn state_is_stale<V>(
    state: QueryState<V>,
    stale_time: Option<u64>,
    now: Instant,
) -> bool {
    match (state.spec_query_data(), stale_time) {
        (Some(d), Some(s)) => d.updated_at.0 + s <= now.0,
        _ => false,
    }
}

/// The state a fetch of the data leaves when it is first loaded or fetched again.
pub open spec fn fetch_started<V>(state: QueryState<V>) -> Option<(QueryState<V>, bool)> {
    match state {
        QueryState::Created => Some((QueryState::Loading, true)),
        QueryState::Loaded(d) => Some((QueryState::Fetching(d), false)),
        QueryState::Invalid(d) => Some((QueryState::Fetching(d), false)),
        QueryState::Loading | QueryState::Fetching(_) => None,
    }
}

/// The state a fetch leaves when it ends: the new data if it arrived; if it
/// was cancelled, a first load goes back to `Created` and a later one keeps
/// the data it had.
pub open spec fn fetch_finished<V>(
    state: QueryState<V>,
    first_load: bool,
    fetched: Option<V>,
    now: Instant,
) -> QueryState<V> {
    match fetched {
        Some(data) => QueryState::Loaded(QueryData { data, updated_at: now }),
        None => if first_load {
            QueryState::Created
        } else {
            match state {
                QueryState::Fetching(d) => QueryState::Loaded(d),
                other => other,
            }
        },
    }
}

/// Whether `after` is `before` once `observer` has subscribed: a new observer
/// is added last, stops the eviction countdown and may lengthen the gc time;
/// one already registered changes nothing.
pub open spec fn subscribed<K, V>(before: Query<K, V>, after: Query<K, V>, observer: ObserverEntry) -> bool {
    if has_observer(before.spec_observers(), observer.id) {
        after == before
    } else {
        &&& after.spec_key() == before.spec_key()
        &&& after.spec_state() == before.spec_state()
        &&& after.spec_in_flight() == before.spec_in_flight()
        &&& after.spec_observers() == before.spec_observers().push(observer)
        &&& after.spec_gc().spec_gc_time() == before.spec_gc().spec_gc_time().spec_updated(
            observer.gc_time,
        )
        &&& !after.spec_gc().spec_timer_set()
    }
}

/// Whether `after` is `before` once the observer `id` has left at `now`, with
/// `delay` the eviction delay to wait for: the last observer to leave starts
/// the countdown, unless one is running or there is nothing to evict by.
pub open spec fn unsubscribed<K, V>(
    before: Query<K, V>,
    after: Query<K, V>,
    id: ObserverKey,
    now: Instant,
    delay: Option<u64>,
) -> bool {
    &&& after.spec_observers() == without_observer(before.spec_observers(), id)
    &&& after.spec_key() == before.spec_key()
    &&& after.spec_state() == before.spec_state()
    &&& after.spec_in_flight() == before.spec_in_flight()
    &&& after.spec_gc().spec_gc_time() == before.spec_gc().spec_gc_time()
    &&& after.spec_observers().len() > 0 ==> delay is None && after.spec_gc() == before.spec_gc()
    &&& after.spec_observers().len() == 0 ==> {
        (before.spec_gc().spec_timer_set() ==> delay is None && after.spec_gc() == before.spec_gc())
            && (!before.spec_gc().spec_timer_set() ==> match (
            before.spec_gc().spec_gc_time(),
            before.spec_state().spec_query_data(),
        ) {
            (GcTime::After(t), Some(d)) => delay == Some(
                spec_time_until_stale(d.updated_at.0 as int, t as int, now.0 as int) as u64,
            ) && after.spec_gc().spec_timer_set(),
            _ => delay is None && !after.spec_gc().spec_timer_set(),
        })
    }
}

/// Whether `after` is `before` with the data it holds, if any, replaced in
/// place: the variant and the timestamp stay, and a query without data is left
/// as it was.
pub open spec fn data_replaced<K, V>(before: Query<K, V>, after: Query<K, V>) -> bool {
    &&& before.same_but_state(&after)
    &&& match before.spec_state().spec_query_data() {
        None => after.spec_state() == before.spec_state(),
        Some(d) => exists|v: V| after.spec_state() == before.spec_state().spec_with_data(v),
    }
}

/// A cached query: its key, its state, its observers, whether a fetch is in
/// flight, and when it may be evicted.
#[derive(Clone, Debug)]
pub struct Query<K, V> {
    key: K,
    state: QueryState<V>,
    in_flight: bool,
    observers: Vec<ObserverEntry>,
    gc: GarbageCollector,
}

impl<K, V> Query<K, V> {
    /// The query's key.
    pub closed spec fn spec_key(&self) -> K {
        self.key
    }

    /// The query's state.
    pub closed spec fn spec_state(&self) -> QueryState<V> {
        self.state
    }

    /// Whether a fetch is in flight.
    pub closed spec fn spec_in_flight(&self) -> bool {
        self.in_flight
    }

    /// The query's observers, in the order they subscribed.
    pub closed spec fn spec_observers(&self) -> Seq<ObserverEntry> {
        self.observers@
    }

    /// The query's eviction state.
    pub closed spec fn spec_gc(&self) -> GarbageCollector {
        self.gc
    }

    /// The query's invariant: every observer is registered once.
    pub open spec fn wf(&self) -> bool {
        ids_distinct(self.spec_observers())
    }

    /// Whether the query's data is stale at `now`.
    pub open spec fn spec_is_stale(&self, now: Instant) -> bool {
        state_is_stale(self.spec_state(), min_stale_time(self.spec_observers()), now)
    }

    /// Whether the query is to be fetched on its next use at `now`.
    pub open spec fn spec_needs_execute(&self, now: Instant) -> bool {
        ||| self.spec_state() is Created
        ||| self.spec_state() is Invalid
        ||| self.spec_is_stale(now)
    }

    /// Whether this is a query for `key` that was just created: never loaded,
    /// unobserved, with nothing in flight and no eviction scheduled.
    pub open spec fn spec_fresh(&self, key: K) -> bool {
        &&& self.spec_state() is Created
        &&& self.spec_new_with_state(key, self.spec_state())
    }

    /// Whether this is a query for `key` that holds `state` and nothing else:
    /// unobserved, with nothing in flight and no eviction scheduled.
    pub open spec fn spec_new_with_state(&self, key: K, state: QueryState<V>) -> bool {
        &&& self.spec_key() == key
        &&& self.spec_state() == state
        &&& !self.spec_in_flight()
        &&& self.spec_observers() == Seq::<ObserverEntry>::empty()
        &&& self.spec_gc().spec_gc_time() == GcTime::Unset
        &&& !self.spec_gc().spec_timer_set()
        &&& self.wf()
    }

    /// Whether `other` differs from `self` in its state alone.
    pub open spec fn same_but_state(&self, other: &Self) -> bool {
        &&& other.spec_key() == self.spec_key()
        &&& other.spec_in_flight() == self.spec_in_flight()
        &&& other.spec_observers() == self.spec_observers()
        &&& other.spec_gc() == self.spec_gc()
    }

    /// A new query for `key`, created and unobserved.
    pub fn new(key: K) -> (r: Self)
        ensures
            r.spec_fresh(key),
    {
        Query {
            key,
            state: QueryState::Created,
            in_flight: false,
            observers: Vec::new(),
            gc: GarbageCollector::new(),
        }
    }

    /// The query's key.
    pub fn get_key(&self) -> (r: &K)
        ensures
            *r == self.spec_key(),
    {
        &self.key
    }

    /// The query's state.
    pub fn get_state(&self) -> (r: &QueryState<V>)
        ensures
            *r == self.spec_state(),
    {
        &self.state
    }

    /// When the query's data was last updated, if it holds any.
    pub fn get_updated_at(&self) -> (r: Option<Instant>)
        ensures
            r matches Some(t) ==> (self.spec_state().spec_query_data() matches Some(d)
                && d.updated_at == t),
            r is None <==> self.spec_state().spec_query_data() is None,
    {
        self.state.updated_at()
    }

    /// The query's eviction state.
    pub fn get_gc(&self) -> (r: GarbageCollector)
        ensures
            r == self.spec_gc(),
    {
        self.gc
    }

    /// Whether the query is to be fetched again at once: it was invalidated
    /// while some observer that can fetch is using it.
    pub open spec fn spec_refetch_now(&self) -> bool {
        self.spec_state() is Invalid && any_fetcher(self.spec_observers())
    }

    /// Whether the query is to be fetched again at once: it was invalidated
    /// while some observer that can fetch is using it.
    pub fn refetch_now(&self) -> (r: bool)
        ensures
            r == self.spec_refetch_now(),
    {
        let invalid = match &self.state {
            QueryState::Invalid(_) => true,
            _ => false,
        };
        invalid && self.has_fetcher()
    }

    /// Whether the query is to be evicted when its eviction timer fires: no
    /// observer has come back since the countdown started.
    pub open spec fn spec_evictable(&self) -> bool {
        self.spec_observers().len() == 0 && self.spec_gc().spec_timer_set()
    }

    /// Whether the query is to be evicted when its eviction timer fires.
    pub fn is_evictable(&self) -> (r: bool)
        ensures
            r == self.spec_evictable(),
    {
        self.observers.len() == 0 && self.gc.timer_set()
    }

    /// Whether a fetch is in flight.
    pub fn is_executing(&self) -> (r: bool)
        ensures
            r == self.spec_in_flight(),
    {
        self.in_flight
    }

    /// How many observers the query has.
    pub fn observer_count(&self) -> (r: usize)
        ensures
            r == self.spec_observers().len(),
    {
        self.observers.len()
    }

    /// Replaces the state. Returns whether the new state is invalid, in which
    /// case the query is to be fetched again.
    pub fn set_state(&mut self, state: QueryState<V>) -> (r: bool)
        ensures
            final(self).spec_state() == state,
            old(self).same_but_state(&*final(self)),
            r == state is Invalid,
    {
        let invalid = match &state {
            QueryState::Invalid(_) => true,
            _ => false,
        };
        self.state = state;
        invalid
    }

    /// Offers the state to `update_fn`. If it returns `Ok`, that becomes the
    /// state; if it returns `Err`, the state it hands back is kept.
    /// Returns whether the state was replaced.
    pub fn maybe_map_state<F: FnOnce(QueryState<V>) -> Result<QueryState<V>, QueryState<V>>>(
        &mut self,
        update_fn: F,
    ) -> (r: bool)
        requires
            update_fn.requires((old(self).spec_state(),)),
        ensures
            old(self).same_but_state(&*final(self)),
            exists|res: Result<QueryState<V>, QueryState<V>>|
                update_fn.ensures((old(self).spec_state(),), res) && match res {
                    Ok(s) => r && final(self).spec_state() == s,
                    Err(s) => !r && final(self).spec_state() == s,
                },
    {
        let mut current = QueryState::Created;
        std::mem::swap(&mut current, &mut self.state);
        let ghost arg = current;
        let res = update_fn(current);
        proof {
            assert(update_fn.ensures((arg,), res));
        }
        match res {
            Ok(new_state) => {
                self.state = new_state;
                true
            },
            Err(old_state) => {
                self.state = old_state;
                false
            },
        }
    }

    /// Marks loaded data as invalid, so it is refetched on next use.
    /// Returns whether the state changed.
    pub fn mark_invalid(&mut self) -> (r: bool)
        ensures
            old(self).same_but_state(&*final(self)),
            final(self).spec_state() == old(self).spec_state().spec_invalidated(),
            r == old(self).spec_state() is Loaded,
            old(self).spec_state() matches QueryState::Loaded(d) ==> (r && final(self).spec_state() == QueryState::Invalid(d)),
            !(old(self).spec_state() is Loaded) ==> (!r && final(self).spec_state() == old(self).spec_state()),
    {
        let mut state = QueryState::Created;
        std::mem::swap(&mut state, &mut self.state);
        match state {
            QueryState::Loaded(data) => {
                self.state = QueryState::Invalid(data);
                true
            },
            other => {
                self.state = other;
                false
            },
        }
    }

    /// Mutates the data in place, if the query holds data.
    /// Returns whether it did; the variant and timestamp are kept.
    pub fn update_data_mut<F: FnOnce(&mut V)>(&mut self, updater: F) -> (r: bool)
        requires
            forall|x: &mut V| updater.requires((x,)),
        ensures
            r == old(self).spec_state().spec_query_data() is Some,
            data_replaced(*old(self), *final(self)),
            old(self).spec_state().spec_query_data() matches Some(d) ==> exists|x: &mut V|
                *x == d.data && updater.ensures((x,), ()) && final(self).spec_state()
                    == old(self).spec_state().spec_with_data(*final(x)),
    {
        match self.state.data_mut() {
            Some(data) => {
                updater(data);
                true
            },
            None => false,
        }
    }

    /// Registers an observer, unless one with the same id is registered.
    ///
    /// A new observer stops the eviction countdown and may lengthen the gc
    /// time. Returns whether the observer was added.
    pub fn subscribe(&mut self, observer: ObserverEntry) -> (r: bool)
        requires
            old(self).wf(),
        ensures
            final(self).wf(),
            r == !has_observer(old(self).spec_observers(), observer.id),
            subscribed(*old(self), *final(self), observer),
    {
        if self.has_observer(observer.id) {
            return false;
        }
        self.observers.push(observer);
        self.gc.disable_gc();
        self.gc.update_gc_time(observer.gc_time);
        proof {
            assert forall|i: int, j: int|
                0 <= i < self.observers@.len() && 0 <= j < self.observers@.len() && i != j
                implies self.observers@[i].id != self.observers@[j].id by {
                if i == self.observers@.len() - 1 {
                    assert(self.observers@[j] == old(self).observers@[j]);
                } else if j == self.observers@.len() - 1 {
                    assert(self.observers@[i] == old(self).observers@[i]);
                } else {
                    assert(self.observers@[i] == old(self).observers@[i]);
                    assert(self.observers@[j] == old(self).observers@[j]);
                }
            }
        }
        true
    }

    /// Whether an observer with `id` is registered.
    pub fn has_observer(&self, id: ObserverKey) -> (r: bool)
        ensures
            r == has_observer(self.spec_observers(), id),
    {
        let mut i: usize = 0;
        while i < self.observers.len()
            invariant
                0 <= i <= self.observers@.len(),
                forall|j: int| 0 <= j < i ==> self.observers@[j].id != id,
            decreases self.observers@.len() - i,
        {
            if self.observers[i].id == id {
                return true;
            }
            i = i + 1;
        }
        false
    }

    /// Removes the observer with `id`. When no observer is left, the eviction
    /// countdown starts.
    ///
    /// Returns whether the observer was registered, and the delay after which
    /// the query is to be evicted when a timer is to be set.
    pub fn unsubscribe(&mut self, id: ObserverKey, now: Instant) -> (r: (bool, Option<u64>))
        requires
            old(self).wf(),
        ensures
            final(self).wf(),
            r.0 == has_observer(old(self).spec_observers(), id),
            !has_observer(final(self).spec_observers(), id),
            unsubscribed(*old(self), *final(self), id, now, r.1),
    {
        let ghost old_obs = self.observers@;
        let mut kept: Vec<ObserverEntry> = Vec::new();
        let mut removed = false;
        let mut i: usize = 0;
        while i < self.observers.len()
            invariant
                0 <= i <= self.observers@.len(),
                self.observers@ == old_obs,
                ids_distinct(old_obs),
                kept@ == old_obs.take(i as int).filter(|e: ObserverEntry| e.id != id),
                removed == has_observer(old_obs.take(i as int), id),
            decreases self.observers@.len() - i,
        {
            let entry = self.observers[i];
            proof {
                let pred = |e: ObserverEntry| e.id != id;
                assert(old_obs.take(i + 1) == old_obs.take(i as int).push(entry));
                old_obs.take(i as int).lemma_filter_push(entry, pred);
                if has_observer(old_obs.take(i + 1), id) && !has_observer(
                    old_obs.take(i as int),
                    id,
                ) {
                    assert(entry.id == id);
                }
                if has_observer(old_obs.take(i as int), id) {
                    let k = choose|k: int| 0 <= k < i && old_obs.take(i as int)[k].id == id;
                    assert(old_obs.take(i + 1)[k].id == id);
                }
                if entry.id == id {
                    assert(old_obs.take(i + 1)[i as int].id == id);
                }
            }
            if entry.id == id {
                removed = true;
            } else {
                kept.push(entry);
            }
            i = i + 1;
        }
        proof {
            assert(old_obs.take(old_obs.len() as int) == old_obs);
            lemma_filter_keeps_distinct(old_obs, id);
        }
        self.observers = kept;
        let delay = if self.observers.len() == 0 {
            let updated_at = self.state.updated_at();
            self.gc.enable_gc(updated_at, now)
        } else {
            None
        };
        proof {
            lemma_without_observer_lacks(old_obs, id);
        }
        (removed, delay)
    }

    /// Whether some observer can fetch the query's data.
    pub fn has_fetcher(&self) -> (r: bool)
        ensures
            r == any_fetcher(self.spec_observers()),
    {
        let mut i: usize = 0;
        while i < self.observers.len()
            invariant
                0 <= i <= self.observers@.len(),
                forall|j: int| 0 <= j < i ==> !self.observers@[j].has_fetcher,
            decreases self.observers@.len() - i,
        {
            if self.observers[i].has_fetcher {
                return true;
            }
            i = i + 1;
        }
        false
    }

    /// The stale time in force: the minimum stale time of the observers.
    pub fn stale_time(&self) -> (r: Option<u64>)
        ensures
            r == min_stale_time(self.spec_observers()),
    {
        let mut best: Option<u64> = None;
        let mut i: usize = 0;
        while i < self.observers.len()
            invariant
                0 <= i <= self.observers@.len(),
                best == min_stale_time(self.observers@.take(i as int)),
            decreases self.observers@.len() - i,
        {
            proof {
                assert(self.observers@.take(i + 1).drop_last() == self.observers@.take(i as int));
            }
            let s = self.observers[i].stale_time;
            best = match (best, s) {
                (Some(x), Some(y)) => Some(if y < x { y } else { x }),
                (Some(x), None) => Some(x),
                (None, y) => y,
            };
            i = i + 1;
        }
        proof {
            assert(self.observers@.take(self.observers@.len() as int) == self.observers@);
        }
        best
    }

    /// Whether the data is stale at `now`: its age has reached the stale time in force.
    pub fn is_stale(&self, now: Instant) -> (r: bool)
        ensures
            r == self.spec_is_stale(now),
    {
        let stale_time = self.stale_time();
        let updated_at = self.state.updated_at();
        match (updated_at, stale_time) {
            (Some(updated_at), Some(stale_time)) => time_until_stale(
                updated_at,
                stale_time,
                now,
            ) == 0,
            _ => false,
        }
    }

    /// Whether the query is to be fetched on its next use: it was never
    /// loaded, it was invalidated, or its data is stale.
    pub fn needs_execute(&self, now: Instant) -> (r: bool)
        ensures
            r == self.spec_needs_execute(now),
    {
        match &self.state {
            QueryState::Created => true,
            QueryState::Invalid(_) => true,
            _ => self.is_stale(now),
        }
    }

    /// Starts a fetch, unless loading is suppressed or a fetch is already in
    /// flight.
    ///
    /// Returns `Some(first_load)` when the fetch is to run: a first load moves
    /// the query to `Loading`, a refetch to `Fetching` with the data it had.
    pub fn begin_execution(&mut self, suppressed: bool) -> (r: Option<bool>)
        ensures
            final(self).spec_key() == old(self).spec_key(),
            final(self).spec_observers() == old(self).spec_observers(),
            final(self).spec_gc() == old(self).spec_gc(),
            (suppressed || old(self).spec_in_flight() || fetch_started(old(self).spec_state()) is None)
                ==> r is None && *final(self) == *old(self),
            (!suppressed && !old(self).spec_in_flight()) ==> match fetch_started(
                old(self).spec_state(),
            ) {
                Some((s, first)) => r == Some(first) && final(self).spec_state() == s && final(self).spec_in_flight(),
                None => true,
            },
    {
        if suppressed || self.in_flight {
            return None;
        }
        let mut state = QueryState::Created;
        std::mem::swap(&mut state, &mut self.state);
        match state {
            QueryState::Created => {
                self.state = QueryState::Loading;
                self.in_flight = true;
                Some(true)
            },
            QueryState::Loaded(d) => {
                self.state = QueryState::Fetching(d);
                self.in_flight = true;
                Some(false)
            },
            QueryState::Invalid(d) => {
                self.state = QueryState::Fetching(d);
                self.in_flight = true;
                Some(false)
            },
            other => {
                self.state = other;
                None
            },
        }
    }

    /// Ends a fetch begun by `begin_execution`. `fetched` is the data, or
    /// `None` when the fetch was cancelled.
    pub fn finish_execution(&mut self, first_load: bool, fetched: Option<V>, now: Instant)
        ensures
            final(self).spec_key() == old(self).spec_key(),
            final(self).spec_observers() == old(self).spec_observers(),
            final(self).spec_gc() == old(self).spec_gc(),
            !final(self).spec_in_flight(),
            final(self).spec_state() == fetch_finished(
                old(self).spec_state(),
                first_load,
                fetched,
                now,
            ),
    {
        match fetched {
            Some(data) => {
                self.state = QueryState::Loaded(QueryData { data, updated_at: now });
            },
            None => {
                if first_load {
                    self.state = QueryState::Created;
                } else {
                    let mut state = QueryState::Created;
                    std::mem::swap(&mut state, &mut self.state);
                    self.state = match state {
                        QueryState::Fetching(d) => QueryState::Loaded(d),
                        other => other,
                    };
                }
            },
        }
        self.in_flight = false;
    }

    /// Cancels the fetch in flight. Returns whether there was one.
    pub fn cancel(&mut self) -> (r: bool)
        ensures
            r == old(self).spec_in_flight(),
            !final(self).spec_in_flight(),
            final(self).spec_key() == old(self).spec_key(),
            final(self).spec_state() == old(self).spec_state(),
            final(self).spec_observers() == old(self).spec_observers(),
            final(self).spec_gc() == old(self).spec_gc(),
    {
        let had_request = self.in_flight;
        self.in_flight = false;
        had_request
    }

    /// Keeps the maximum gc time.
    pub fn update_gc_time(&mut self, gc_time: Option<u64>)
        ensures
            final(self).spec_gc().spec_gc_time() == old(self).spec_gc().spec_gc_time().spec_updated(
                gc_time,
            ),
            final(self).spec_gc().spec_timer_set() == old(self).spec_gc().spec_timer_set(),
            final(self).spec_key() == old(self).spec_key(),
            final(self).spec_state() == old(self).spec_state(),
            final(self).spec_in_flight() == old(self).spec_in_flight(),
            final(self).spec_observers() == old(self).spec_observers(),
    {
        self.gc.update_gc_time(gc_time);
    }

    /// Starts the eviction countdown; returns the delay when a timer is to be set.
    pub fn enable_gc(&mut self, now: Instant) -> (r: Option<u64>)
        ensures
            final(self).spec_key() == old(self).spec_key(),
            final(self).spec_state() == old(self).spec_state(),
            final(self).spec_in_flight() == old(self).spec_in_flight(),
            final(self).spec_observers() == old(self).spec_observers(),
            final(self).spec_gc().spec_gc_time() == old(self).spec_gc().spec_gc_time(),
            old(self).spec_gc().spec_timer_set() ==> r is None && final(self).spec_gc() == old(self).spec_gc(),
            !old(self).spec_gc().spec_timer_set() ==> match (
                old(self).spec_gc().spec_gc_time(),
                old(self).spec_state().spec_query_data(),
            ) {
                (GcTime::After(t), Some(d)) => r == Some(
                    spec_time_until_stale(d.updated_at.0 as int, t as int, now.0 as int) as u64,
                ) && final(self).spec_gc().spec_timer_set(),
                _ => r is None && !final(self).spec_gc().spec_timer_set(),
            },
    {
        let updated_at = self.state.updated_at();
        self.gc.enable_gc(updated_at, now)
    }

    /// Stops the eviction countdown; returns whether a timer is to be cleared.
    pub fn disable_gc(&mut self) -> (r: bool)
        ensures
            r == old(self).spec_gc().spec_timer_set(),
            !final(self).spec_gc().spec_timer_set(),
            final(self).spec_gc().spec_gc_time() == old(self).spec_gc().spec_gc_time(),
            final(self).spec_key() == old(self).spec_key(),
            final(self).spec_state() == old(self).spec_state(),
            final(self).spec_in_flight() == old(self).spec_in_flight(),
            final(self).spec_observers() == old(self).spec_observers(),
    {
        self.gc.disable_gc()
    }
}

/// A fetch that delivers data leaves the query loaded with that data, stamped
/// with the time it arrived; a cancelled first load leaves the query as it was
/// created, and a cancelled refetch leaves it loaded with the data it had.
pub proof fn lemma_fetch_round_trip<V>(state: QueryState<V>, fetched: Option<V>, now: Instant)
    requires
        fetch_started(state) is Some,
    ensures
        ({
            let (during, first_load) = fetch_started(state)->0;
            &&& fetched matches Some(v) ==> fetch_finished(during, first_load, fetched, now)
                == QueryState::Loaded(QueryData { data: v, updated_at: now })
            &&& fetched is None ==> fetch_finished(during, first_load, fetched, now) == match state {
                QueryState::Created => QueryState::Created,
                QueryState::Loaded(d) | QueryState::Invalid(d) => QueryState::Loaded(d),
                other => other,
            }
        }),
{
}

/// Invalidation overrides the stale time: a query whose loaded data is marked
/// invalid is due for a fetch at any time, whatever its observers' stale times.
pub proof fn lemma_invalidated_needs_execute<K, V>(before: Query<K, V>, after: Query<K, V>, now: Instant)
    requires
        before.spec_state() is Loaded,
        after.spec_state() == before.spec_state().spec_invalidated(),
    ensures
        after.spec_needs_execute(now),
        after.spec_state().spec_query_data() == before.spec_state().spec_query_data(),
{
}

/// A query in use is fetched again at once when its loaded data is
/// invalidated, as long as one of its observers can fetch.
pub proof fn lemma_invalidated_in_use_is_refetched<K, V>(before: Query<K, V>, after: Query<K, V>)
    requires
        before.spec_state() is Loaded,
        any_fetcher(before.spec_observers()),
        before.same_but_state(&after),
        after.spec_state() == before.spec_state().spec_invalidated(),
    ensures
        after.spec_refetch_now(),
{
}

/// A fetch that begins is always visible: a query never loaded moves to
/// `Loading`, and a query holding data (loaded or invalidated) moves to
/// `Fetching` with that same data, so `is_fetching` holds while any fetch
/// runs. Only a query already loading or fetching starts nothing.
pub proof fn lemma_started_fetch_is_visible<V>(state: QueryState<V>)
    ensures
        fetch_started(state) is None <==> (state is Loading || state is Fetching),
        fetch_started(state) matches Some((during, first_load)) ==> {
            &&& first_load <==> state is Created
            &&& during is Loading || during is Fetching
            &&& during is Loading <==> first_load
            &&& during.spec_query_data() == state.spec_query_data()
        },
{
}

/// Removing an observer keeps the others registered once each.
proof fn lemma_filter_keeps_distinct(observers: Seq<ObserverEntry>, id: ObserverKey)
    requires
        ids_distinct(observers),
    ensures
        ids_distinct(without_observer(observers, id)),
    decreases observers.len(),
{
    let pred = |e: ObserverEntry| e.id != id;
    if observers.len() > 0 {
        let init = observers.drop_last();
        assert(ids_distinct(init));
        lemma_filter_keeps_distinct(init, id);
        assert(observers == init.push(observers.last()));
        init.lemma_filter_push(observers.last(), pred);
        let f = without_observer(init, id);
        if pred(observers.last()) {
            assert forall|k: int| 0 <= k < f.len() implies f[k].id != observers.last().id by {
                assert(f.contains(f[k]));
                init.lemma_filter_contains_rev(pred, f[k]);
                let m = choose|m: int| 0 <= m < init.len() && init[m] == f[k];
                assert(observers[m] == init[m]);
            }
        }
    }
}

/// No observer with `id` is left once it is removed.
proof fn lemma_without_observer_lacks(observers: Seq<ObserverEntry>, id: ObserverKey)
    ensures
        !has_observer(without_observer(observers, id), id),
{
    let pred = |e: ObserverEntry| e.id != id;
    broadcast use vstd::seq_lib::group_filter_ensures;
}

/// Removing an observer that is not registered leaves the observers as they are.
proof fn lemma_without_absent_observer(observers: Seq<ObserverEntry>, id: ObserverKey)
    requires
        !has_observer(observers, id),
    ensures
        without_observer(observers, id) == observers,
    decreases observers.len(),
{
    let pred = |e: ObserverEntry| e.id != id;
    if observers.len() > 0 {
        let init = observers.drop_last();
        assert(!has_observer(init, id)) by {
            if has_observer(init, id) {
                let k = choose|k: int| 0 <= k < init.len() && init[k].id == id;
                assert(observers[k] == init[k]);
            }
        }
        lemma_without_absent_observer(init, id);
        assert(observers == init.push(observers.last()));
        init.lemma_filter_push(observers.last(), pred);
        assert(observers[observers.len() - 1] == observers.last());
    }
}

/// An observer that was not registered, subscribes and then leaves, gives
/// the query back the observers, key, state and fetch in flight it had.
pub proof fn lemma_subscribe_unsubscribe_round_trip<K, V>(
    before: Query<K, V>,
    during: Query<K, V>,
    after: Query<K, V>,
    observer: ObserverEntry,
    now: Instant,
    delay: Option<u64>,
)
    requires
        !has_observer(before.spec_observers(), observer.id),
        subscribed(before, during, observer),
        unsubscribed(during, after, observer.id, now, delay),
    ensures
        after.spec_observers() == before.spec_observers(),
        after.spec_key() == before.spec_key(),
        after.spec_state() == before.spec_state(),
        after.spec_in_flight() == before.spec_in_flight(),
{
    let pred = |e: ObserverEntry| e.id != observer.id;
    before.spec_observers().lemma_filter_push(observer, pred);
    lemma_without_absent_observer(before.spec_observers(), observer.id);
}

/// The stale time in force is the least stale time any observer sets.
pub proof fn lemma_min_stale_time_is_least(observers: Seq<ObserverEntry>)
    ensures
        min_stale_time(observers) matches Some(m) ==> (exists|i: int|
            0 <= i < observers.len() && observers[i].stale_time == Some(m)),
        min_stale_time(observers) matches Some(m) ==> (forall|i: int|
            0 <= i < observers.len() && observers[i].stale_time is Some ==> m
                <= observers[i].stale_time->0),
        min_stale_time(observers) is None <==> (forall|i: int|
            0 <= i < observers.len() ==> observers[i].stale_time is None),
    decreases observers.len(),
{
    if observers.len() > 0 {
        let init = observers.drop_last();
        lemma_min_stale_time_is_least(init);
        let last = observers.len() - 1;
        assert forall|i: int| 0 <= i < init.len() implies init[i] == observers[i] by {}
        if min_stale_time(observers) is None {
            assert forall|i: int| 0 <= i < observers.len() implies observers[i].stale_time is None by {
                if i < last {
                    assert(init[i] == observers[i]);
                }
            }
        }
        if let Some(m) = min_stale_time(init) {
            let k = choose|k: int| 0 <= k < init.len() && init[k].stale_time == Some(m);
            assert(observers[k].stale_time == Some(m));
        }
        if !(forall|i: int| 0 <= i < observers.len() ==> observers[i].stale_time is None) {
            let k = choose|k: int| 0 <= k < observers.len() && !(observers[k].stale_time is None);
            if k < last {
                assert(init[k] == observers[k]);
            }
        }
    }
}

/// Data is stale exactly when some observer's stale time has passed since its update.
pub proof fn lemma_stale_iff_some_observer_expired<V>(
    state: QueryState<V>,
    observers: Seq<ObserverEntry>,
    now: Instant,
)
    ensures
        state_is_stale(state, min_stale_time(observers), now) <==> (state.spec_query_data() matches Some(d)
            && exists|i: int|
            0 <= i < observers.len() && (#[trigger] observers[i].stale_time matches Some(s)
                && d.updated_at.0 + s <= now.0)),
{
    lemma_min_stale_time_is_least(observers);
    if let Some(d) = state.spec_query_data() {
        if exists|i: int|
            0 <= i < observers.len() && (#[trigger] observers[i].stale_time matches Some(s)
                && d.updated_at.0 + s <= now.0) {
            let i = choose|i: int|
                0 <= i < observers.len() && (#[trigger] observers[i].stale_time matches Some(s)
                    && d.updated_at.0 + s <= now.0);
            assert(observers[i].stale_time is Some);
        }
    }
}

} // verus!
