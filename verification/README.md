# leptos_query

Query state management for Leptos applications: caching, request
de-duplication, invalidation, background refetching, eviction of unused
queries, cancellation and persistence of loaded data.

The crate is written in Verus. The functions in `src/` are verified against
their contracts, but for one trusted wrapper, `make_cache_key`, which formats
a key through its `Debug` impl and promises nothing of the text. The library
never reads the clock: functions that depend on the current time take it as
an argument, and `app/` reads it. Durations are whole milliseconds (`u64`) and
instants are milliseconds since the Unix epoch.

## Layout

- `src/query_options.rs`: query options, client defaults, and their validation
  (the stale time never exceeds the gc time).
- `src/query_state.rs`: the lifecycle of a query (`Created`, `Loading`,
  `Fetching`, `Loaded`, `Invalid`) and its data.
- `src/garbage_collector.rs`: when an unused query is evicted; the longest gc
  time of its observers wins.
- `src/query.rs`: one cached query: its observers, staleness, the fetch in
  flight, and eviction.
- `src/query_cache.rs`: the queries of one key and value type, viewed as a map
  from keys to queries; invalidation and manual updates.
- `src/query_observer.rs`: an observer that follows one query of a cache.
- `src/create_query.rs`: `QueryScope`, typed access to one kind of query.
- `src/cache_observer.rs`, `src/query_persister.rs`: cache events and what a
  persister stores of them.
- `src/devtools.rs`, `src/devtools_list.rs`: what the devtools gather of the
  cache from its events, and the filtered, sorted list they show.
- `src/resource_data.rs`: the serialized form of a query's resource value.
- `src/schedule.rs`: composable retry schedules.
- `app/`: the reactive and browser side: the query client in the Leptos
  context with its cache events, the task that awaits a fetcher, `use_query`,
  eviction timers and the local-storage persister.
