use vstd::prelude::*;

use crate::query_state::{QueryData, QueryState};

verus! {

/// Serialized query data, as a persister stores it.
#[derive(Clone, Debug, PartialEq, Eq)]
pub struct PersistQueryData {
    /// The serialized query data.
    pub value: String,
    /// The time the query was last updated, in milliseconds.
    pub updated_at: u64,
}

impl PersistQueryData {
    /// The stored form of serialized query data.
    pub fn from_query_data(data: QueryData<String>) -> (r: PersistQueryData)
        ensures
            r.value == data.data,
            r.updated_at == data.updated_at.0,
    {
        PersistQueryData { value: data.data, updated_at: data.updated_at.0 }
    }

    /// The stored form of a serialized query state. Only loaded data is stored.
    pub fn from_state(state: QueryState<String>) -> (r: Option<PersistQueryData>)
        ensures
            state matches QueryState::Loaded(d) ==> r == Some(
                PersistQueryData { value: d.data, updated_at: d.updated_at.0 },
            ),
            !(state is Loaded) ==> r is None,
    {
        match state {
            QueryState::Loaded(data) => Some(PersistQueryData::from_query_data(data)),
            _ => None,
        }
    }
}

} // verus!
