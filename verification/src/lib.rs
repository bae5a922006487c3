//! Query state, caching and invalidation logic with verified contracts.

pub mod cache_observer;
pub mod devtools;
pub mod devtools_list;
pub mod create_query;
pub mod garbage_collector;
pub mod instant;
pub mod query;
pub mod query_cache;
pub mod query_key;
pub mod query_observer;
pub mod query_options;
pub mod query_persister;
pub mod query_state;
pub mod resource_data;
pub mod schedule;
pub mod util;

pub use instant::Instant;
pub use query_options::{
    ensure_valid_stale_time, DefaultQueryOptions, QueryOptions, ResourceOption, DEFAULT_GC_TIME,
    DEFAULT_STALE_TIME,
};
pub use query_state::{QueryData, QueryError, QueryState};
pub use garbage_collector::{GarbageCollector, GcTime};
pub use query::{next_id, ObserverEntry, ObserverKey, Query};
pub use query_key::{QueryKey, QueryValue};
pub use query_observer::{ObserverUpdate, QueryObserver};
pub use query_cache::{QueryCache, SetResult};
pub use create_query::{create_query, QueryScope};
pub use cache_observer::{
    data_event, observer_move_events, persist_action, CacheEvent, ObserverAdded, PersistAction, QueryCacheKey, SerializedQuery,
};
pub use devtools::{DevtoolsEntry, DevtoolsState};
pub use devtools_list::SortOption;
pub use query_persister::PersistQueryData;
pub use resource_data::ResourceData;
