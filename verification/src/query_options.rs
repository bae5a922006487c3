use vstd::prelude::*;

verus! {

/// Ten seconds, in milliseconds: how long data stays fresh unless told otherwise.
pub const DEFAULT_STALE_TIME: u64 = 10_000;

/// Five minutes, in milliseconds: how long an unused query stays cached unless told otherwise.
pub const DEFAULT_GC_TIME: u64 = 300_000;

/// Determines which type of resource to use.
#[derive(Clone, Copy, Debug, PartialEq, Eq, Structural)]
pub enum ResourceOption {
    /// A resource that does not block rendering.
    NonBlocking,
    /// A resource that blocks rendering until it resolves.
    Blocking,
    /// A resource that only ever resolves on the client.
    Local,
}

impl Default for ResourceOption {
    fn default() -> (r: ResourceOption)
        ensures
            r == ResourceOption::NonBlocking,
    {
        ResourceOption::NonBlocking
    }
}

/// Default options for all queries under a client.
///
/// Only differs from [`QueryOptions`] in that it holds no default value.
/// All durations are in milliseconds.
#[derive(Clone, Copy, Debug)]
pub struct DefaultQueryOptions {
    /// Time before a query is considered stale.
    pub stale_time: Option<u64>,
    /// Time before an inactive query is removed from the cache.
    pub gc_time: Option<u64>,
    /// Time between background refetches.
    pub refetch_interval: Option<u64>,
    /// Determines which type of resource to use.
    pub resource_option: ResourceOption,
}

impl Default for DefaultQueryOptions {
    fn default() -> (r: DefaultQueryOptions)
        ensures
            r.stale_time == Some(DEFAULT_STALE_TIME),
            r.gc_time == Some(DEFAULT_GC_TIME),
            r.refetch_interval is None,
            r.resource_option == ResourceOption::NonBlocking,
    {
        DefaultQueryOptions {
            stale_time: Some(DEFAULT_STALE_TIME),
            gc_time: Some(DEFAULT_GC_TIME),
            refetch_interval: None,
            resource_option: ResourceOption::NonBlocking,
        }
    }
}

/// Options for a query. All durations are in milliseconds.
#[derive(Clone, Debug)]
pub struct QueryOptions<V> {
    /// Placeholder value to use while the query is loading for the first time.
    pub default_value: Option<V>,
    /// The duration that should pass before a query is considered stale.
    /// If the query is stale, it will be refetched on its next use.
    /// With no stale time, the query is never considered stale.
    /// The stale time can never be greater than the gc time.
    /// If different stale times are used for the same key, the minimum is used.
    pub stale_time: Option<u64>,
    /// The amount of time an unused query stays cached.
    /// With no gc time, the query is never removed from the cache.
    /// If different gc times are used for the same key, the maximum is used.
    pub gc_time: Option<u64>,
    /// With no refetch interval, the query is never refetched in the background.
    pub refetch_interval: Option<u64>,
    /// Determines which type of resource to use.
    pub resource_option: Option<ResourceOption>,
}

/// The stale time that `validate` keeps: never later than the gc time.
///
/// A missing stale time means "never stale", which is later than any gc time,
/// so it becomes the gc time when there is one.
pub open spec fn valid_stale_time(stale_time: Option<u64>, gc_time: Option<u64>) -> Option<u64> {
    match (stale_time, gc_time) {
        (Some(s), Some(g)) => Some(if s > g { g } else { s }),
        (None, Some(g)) => Some(g),
        (s, None) => s,
    }
}

/// Whether a stale time fits a gc time: fresh data never outlives its cache entry.
pub open spec fn stale_within_gc(stale_time: Option<u64>, gc_time: Option<u64>) -> bool {
    match gc_time {
        Some(g) => stale_time matches Some(s) && s <= g,
        None => true,
    }
}

/// Clamps a stale time to the gc time.
pub fn ensure_valid_stale_time(stale_time: &Option<u64>, gc_time: &Option<u64>) -> (r: Option<u64>)
    ensures
        r == valid_stale_time(*stale_time, *gc_time),
{
    match (stale_time, gc_time) {
        (Some(stale), Some(gc)) => {
            if *stale > *gc {
                Some(*gc)
            } else {
                Some(*stale)
            }
        },
        (None, Some(gc)) => Some(*gc),
        (stale, None) => *stale,
    }
}

impl<V> QueryOptions<V> {
    /// Whether the stale time never exceeds the gc time.
    pub open spec fn is_valid(&self) -> bool {
        stale_within_gc(self.stale_time, self.gc_time)
    }

    /// Options with nothing set.
    pub fn empty() -> (r: Self)
        ensures
            r.default_value is None,
            r.stale_time is None,
            r.gc_time is None,
            r.refetch_interval is None,
            r.resource_option == Some(ResourceOption::NonBlocking),
    {
        QueryOptions {
            default_value: None,
            stale_time: None,
            gc_time: None,
            refetch_interval: None,
            resource_option: Some(ResourceOption::NonBlocking),
        }
    }

    /// Options with a custom stale time, and the default gc time. The stale
    /// time is clamped to the gc time, as `validate` does.
    pub fn stale_time(stale_time: u64) -> (r: Self)
        ensures
            r.default_value is None,
            r.stale_time == valid_stale_time(Some(stale_time), Some(DEFAULT_GC_TIME)),
            r.stale_time == Some(if stale_time > DEFAULT_GC_TIME { DEFAULT_GC_TIME } else { stale_time }),
            r.gc_time == Some(DEFAULT_GC_TIME),
            r.refetch_interval is None,
            r.resource_option == Some(ResourceOption::NonBlocking),
            r.is_valid(),
    {
        QueryOptions {
            default_value: None,
            stale_time: Some(stale_time),
            gc_time: Some(DEFAULT_GC_TIME),
            refetch_interval: None,
            resource_option: Some(ResourceOption::NonBlocking),
        }.validate()
    }

    /// Options with a custom refetch interval; data is stale at once and kept
    /// for the default gc time.
    pub fn refetch_interval(refetch_interval: u64) -> (r: Self)
        ensures
            r.default_value is None,
            r.stale_time == Some(0u64),
            r.gc_time == Some(DEFAULT_GC_TIME),
            r.refetch_interval == Some(refetch_interval),
            r.resource_option == Some(ResourceOption::NonBlocking),
            r.is_valid(),
    {
        QueryOptions {
            default_value: None,
            stale_time: Some(0),
            gc_time: Some(DEFAULT_GC_TIME),
            refetch_interval: Some(refetch_interval),
            resource_option: Some(ResourceOption::NonBlocking),
        }
    }

    /// The default options of a query: those of the client it belongs to,
    /// validated. There is no `Default` impl, since the defaults depend on the
    /// client; `DefaultQueryOptions::default()` gives the library's own.
    pub fn from_defaults(defaults: DefaultQueryOptions) -> (r: Self)
        ensures
            r.default_value is None,
            r.stale_time == valid_stale_time(defaults.stale_time, defaults.gc_time),
            r.gc_time == defaults.gc_time,
            r.refetch_interval == defaults.refetch_interval,
            r.resource_option == Some(defaults.resource_option),
            r.is_valid(),
    {
        QueryOptions {
            default_value: None,
            stale_time: defaults.stale_time,
            gc_time: defaults.gc_time,
            refetch_interval: defaults.refetch_interval,
            resource_option: Some(defaults.resource_option),
        }.validate()
    }

    /// Sets the default value.
    pub fn set_default_value(self, default_value: Option<V>) -> (r: Self)
        ensures
            r.default_value == default_value,
            r.stale_time == self.stale_time,
            r.gc_time == self.gc_time,
            r.refetch_interval == self.refetch_interval,
            r.resource_option == self.resource_option,
    {
        QueryOptions { default_value, ..self }
    }

    /// Sets the stale time.
    pub fn set_stale_time(self, stale_time: Option<u64>) -> (r: Self)
        ensures
            r.default_value == self.default_value,
            r.stale_time == stale_time,
            r.gc_time == self.gc_time,
            r.refetch_interval == self.refetch_interval,
            r.resource_option == self.resource_option,
    {
        QueryOptions { stale_time, ..self }
    }

    /// Sets the gc time.
    pub fn set_gc_time(self, gc_time: Option<u64>) -> (r: Self)
        ensures
            r.default_value == self.default_value,
            r.stale_time == self.stale_time,
            r.gc_time == gc_time,
            r.refetch_interval == self.refetch_interval,
            r.resource_option == self.resource_option,
    {
        QueryOptions { gc_time, ..self }
    }

    /// Sets the refetch interval.
    pub fn set_refetch_interval(self, refetch_interval: Option<u64>) -> (r: Self)
        ensures
            r.default_value == self.default_value,
            r.stale_time == self.stale_time,
            r.gc_time == self.gc_time,
            r.refetch_interval == refetch_interval,
            r.resource_option == self.resource_option,
    {
        QueryOptions { refetch_interval, ..self }
    }

    /// Sets the resource option.
    pub fn set_resource_option(self, resource_option: Option<ResourceOption>) -> (r: Self)
        ensures
            r.default_value == self.default_value,
            r.stale_time == self.stale_time,
            r.gc_time == self.gc_time,
            r.refetch_interval == self.refetch_interval,
            r.resource_option == resource_option,
    {
        QueryOptions { resource_option, ..self }
    }

    /// Transforms the default value, keeping every other option.
    pub fn map_value<R, F: FnOnce(V) -> R>(self, func: F) -> (r: QueryOptions<R>)
        requires
            self.default_value matches Some(v) ==> func.requires((v,)),
        ensures
            self.default_value is None ==> r.default_value is None,
            self.default_value matches Some(v) ==> (r.default_value matches Some(w) && func.ensures((v,), w)),
            r.stale_time == self.stale_time,
            r.gc_time == self.gc_time,
            r.refetch_interval == self.refetch_interval,
            r.resource_option == self.resource_option,
    {
        let default_value = match self.default_value {
            Some(v) => Some(func(v)),
            None => None,
        };
        QueryOptions {
            default_value,
            stale_time: self.stale_time,
            gc_time: self.gc_time,
            refetch_interval: self.refetch_interval,
            resource_option: self.resource_option,
        }
    }

    /// Ensures that the gc time is at least the stale time, clamping the stale time.
    pub fn validate(self) -> (r: Self)
        ensures
            r.default_value == self.default_value,
            r.stale_time == valid_stale_time(self.stale_time, self.gc_time),
            r.gc_time == self.gc_time,
            r.refetch_interval == self.refetch_interval,
            r.resource_option == self.resource_option,
            r.is_valid(),
    {
        let stale_time = ensure_valid_stale_time(&self.stale_time, &self.gc_time);
        QueryOptions {
            default_value: self.default_value,
            stale_time,
            gc_time: self.gc_time,
            refetch_interval: self.refetch_interval,
            resource_option: self.resource_option,
        }
    }
}

/// Validation changes nothing in options that are already valid.
pub proof fn lemma_validate_keeps_valid_options(stale_time: Option<u64>, gc_time: Option<u64>)
    requires
        stale_within_gc(stale_time, gc_time),
    ensures
        valid_stale_time(stale_time, gc_time) == stale_time,
{
}

/// Validating twice gives the same stale time as validating once.
pub proof fn lemma_validate_idempotent(stale_time: Option<u64>, gc_time: Option<u64>)
    ensures
        valid_stale_time(valid_stale_time(stale_time, gc_time), gc_time) == valid_stale_time(
            stale_time,
            gc_time,
        ),
        stale_within_gc(valid_stale_time(stale_time, gc_time), gc_time),
{
}

/// Validation never makes data stay fresh longer.
pub proof fn lemma_validate_never_extends(stale_time: Option<u64>, gc_time: Option<u64>)
    ensures
        stale_time matches Some(s) ==> (valid_stale_time(stale_time, gc_time) matches Some(v)
            && v <= s),
{
}

} // verus!
