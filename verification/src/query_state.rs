use vstd::prelude::*;

use crate::instant::Instant;

verus! {

/// The latest data for a query.
#[derive(Clone, Debug, PartialEq, Eq)]
pub struct QueryData<V> {
    /// The data.
    pub data: V,
    /// The instant this data was retrieved.
    pub updated_at: Instant,
}

impl<V> QueryData<V> {
    /// Creates a new `QueryData` with the given data, stamped with `now`, the
    /// current time.
    pub fn now(data: V, now: Instant) -> (r: Self)
        ensures
            r.data == data,
            r.updated_at == now,
    {
        QueryData { data, updated_at: now }
    }
}

/// The lifecycle of a query.
///
/// Each variant corresponds to a state of a query, from creation through
/// loading, refetching and invalidation.
#[derive(Clone, Debug, PartialEq, Eq)]
pub enum QueryState<V> {
    /// The query exists, but no fetch has started yet.
    Created,
    /// The query is fetching for the first time.
    Loading,
    /// The query is fetching again; it holds the data of the previous fetch.
    Fetching(QueryData<V>),
    /// The query has finished fetching and holds the loaded data.
    Loaded(QueryData<V>),
    /// The query holds data that was marked invalid and must be refetched.
    Invalid(QueryData<V>),
}

impl<V> Default for QueryState<V> {
    fn default() -> (r: Self)
        ensures
            r is Created,
    {
        QueryState::Created
    }
}

impl<V> QueryState<V> {
    /// The query data held in this state, if any.
    pub open spec fn spec_query_data(self) -> Option<QueryData<V>> {
        match self {
            QueryState::Created | QueryState::Loading => None,
            QueryState::Fetching(d) | QueryState::Loaded(d) | QueryState::Invalid(d) => Some(d),
        }
    }

    /// Returns the query data for the current state, if present.
    pub fn query_data(&self) -> (r: Option<&QueryData<V>>)
        ensures
            r matches Some(d) ==> self.spec_query_data() == Some(*d),
            r is None <==> self.spec_query_data() is None,
    {
        match self {
            QueryState::Created | QueryState::Loading => None,
            QueryState::Fetching(data) | QueryState::Loaded(data) | QueryState::Invalid(data) => {
                Some(data)
            },
        }
    }

    /// Returns the data contained within the state, if present.
    pub fn data(&self) -> (r: Option<&V>)
        ensures
            r matches Some(v) ==> (self.spec_query_data() matches Some(d) && d.data == *v),
            r is None <==> self.spec_query_data() is None,
    {
        match self.query_data() {
            Some(d) => Some(&d.data),
            None => None,
        }
    }

    /// Returns the last updated timestamp for the state, if present.
    pub fn updated_at(&self) -> (r: Option<Instant>)
        ensures
            r matches Some(t) ==> (self.spec_query_data() matches Some(d) && d.updated_at == t),
            r is None <==> self.spec_query_data() is None,
    {
        match self.query_data() {
            Some(d) => Some(d.updated_at),
            None => None,
        }
    }

    /// This state with the data it holds, if any, replaced by `data`; the
    /// variant and timestamp are kept.
    pub open spec fn spec_with_data(self, data: V) -> QueryState<V> {
        match self {
            QueryState::Fetching(d) => QueryState::Fetching(QueryData { data, updated_at: d.updated_at }),
            QueryState::Loaded(d) => QueryState::Loaded(QueryData { data, updated_at: d.updated_at }),
            QueryState::Invalid(d) => QueryState::Invalid(QueryData { data, updated_at: d.updated_at }),
            other => other,
        }
    }

    /// The data held in this state, for changing it in place.
    pub fn data_mut(&mut self) -> (r: Option<&mut V>)
        ensures
            r is None <==> old(self).spec_query_data() is None,
            r is None ==> *final(self) == *old(self),
            r matches Some(v) ==> (old(self).spec_query_data() matches Some(d) && *v == d.data
                && *final(self) == old(self).spec_with_data(*final(v))),
    {
        match self {
            QueryState::Created | QueryState::Loading => None,
            QueryState::Fetching(data) => Some(&mut data.data),
            QueryState::Loaded(data) => Some(&mut data.data),
            QueryState::Invalid(data) => Some(&mut data.data),
        }
    }

    /// The data to show for this state: the data it holds, or else
    /// `default_value`.
    pub fn data_or<'a>(&'a self, default_value: &'a Option<V>) -> (r: Option<&'a V>)
        ensures
            self.spec_query_data() matches Some(d) ==> (r matches Some(v) && *v == d.data),
            self.spec_query_data() is None ==> (r is None <==> default_value is None),
            self.spec_query_data() is None ==> (r matches Some(v) ==> *default_value == Some(*v)),
    {
        match self.data() {
            Some(v) => Some(v),
            None => match default_value {
                Some(v) => Some(v),
                None => None,
            },
        }
    }

    /// Whether the query is fetching for the first time.
    pub fn is_loading(&self) -> (r: bool)
        ensures
            r == self is Loading,
    {
        match self {
            QueryState::Loading => true,
            _ => false,
        }
    }

    /// Whether a fetch is under way, the first one or a later one.
    pub fn is_fetching(&self) -> (r: bool)
        ensures
            r == (self is Loading || self is Fetching),
    {
        match self {
            QueryState::Loading | QueryState::Fetching(_) => true,
            _ => false,
        }
    }

    /// Whether the data was marked invalid.
    pub fn is_invalid(&self) -> (r: bool)
        ensures
            r == self is Invalid,
    {
        match self {
            QueryState::Invalid(_) => true,
            _ => false,
        }
    }

    /// The state after loaded data is marked invalid; any other state is kept.
    pub open spec fn spec_invalidated(self) -> QueryState<V> {
        match self {
            QueryState::Loaded(d) => QueryState::Invalid(d),
            other => other,
        }
    }

    /// Whether `other` is this state with its data, if any, replaced.
    pub open spec fn same_variant<R>(self, other: QueryState<R>) -> bool {
        match (self, other) {
            (QueryState::Created, QueryState::Created) => true,
            (QueryState::Loading, QueryState::Loading) => true,
            (QueryState::Fetching(_), QueryState::Fetching(_)) => true,
            (QueryState::Loaded(_), QueryState::Loaded(_)) => true,
            (QueryState::Invalid(_), QueryState::Invalid(_)) => true,
            _ => false,
        }
    }

    /// Transforms the data held in the state, keeping the variant and timestamp.
    pub fn map_data<R, F: Fn(&V) -> R>(&self, mapper: F) -> (r: QueryState<R>)
        requires
            self.spec_query_data() matches Some(d) ==> mapper.requires((&d.data,)),
        ensures
            self.same_variant(r),
            self.spec_query_data() is None <==> r.spec_query_data() is None,
            self.spec_query_data() matches Some(d) ==> (r.spec_query_data() matches Some(e)
                && e.updated_at == d.updated_at && mapper.ensures((&d.data,), e.data)),
    {
        match self {
            QueryState::Created => QueryState::Created,
            QueryState::Loading => QueryState::Loading,
            QueryState::Fetching(d) => QueryState::Fetching(
                QueryData { data: mapper(&d.data), updated_at: d.updated_at },
            ),
            QueryState::Loaded(d) => QueryState::Loaded(
                QueryData { data: mapper(&d.data), updated_at: d.updated_at },
            ),
            QueryState::Invalid(d) => QueryState::Invalid(
                QueryData { data: mapper(&d.data), updated_at: d.updated_at },
            ),
        }
    }
}

/// Invalidating is idempotent, keeps the data, and never leaves loaded data behind.
pub proof fn lemma_invalidate_idempotent<V>(state: QueryState<V>)
    ensures
        state.spec_invalidated().spec_invalidated() == state.spec_invalidated(),
        !(state.spec_invalidated() is Loaded),
        state.spec_invalidated().spec_query_data() == state.spec_query_data(),
{
}

/// An error met while fetching, with the data loaded before it.
#[derive(Clone, Debug, PartialEq, Eq)]
pub struct QueryError<V, E> {
    /// The error.
    pub error: E,
    /// How many fetches have failed in a row.
    pub error_count: usize,
    /// The instant of the latest failure.
    pub updated_at: Instant,
    /// The data loaded before the failures, if any.
    pub prev_data: Option<QueryData<V>>,
}

} // verus!
