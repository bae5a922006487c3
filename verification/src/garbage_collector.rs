use vstd::prelude::*;

use crate::instant::Instant;
use crate::util::{spec_time_until_stale, time_until_stale};

verus! {

/// The gc time a query has collected from its observers.
#[derive(Clone, Copy, Debug, PartialEq, Eq, Structural)]
pub enum GcTime {
    /// No gc time set yet.
    Unset,
    /// Evict this many milliseconds after the last update.
    After(u64),
    /// Never evict.
    Never,
}

/// The order in which gc times grow: unset, then finite times by length, then never.
pub open spec fn gc_time_le(a: GcTime, b: GcTime) -> bool {
    match (a, b) {
        (GcTime::Unset, _) => true,
        (GcTime::After(x), GcTime::After(y)) => x <= y,
        (GcTime::After(_), GcTime::Never) => true,
        (GcTime::Never, GcTime::Never) => true,
        _ => false,
    }
}

impl GcTime {
    /// A gc time read from an option: a missing time leaves it unset.
    pub open spec fn spec_from_option(duration: Option<u64>) -> GcTime {
        match duration {
            Some(d) => GcTime::After(d),
            None => GcTime::Unset,
        }
    }

    /// The gc time after an observer with `gc_time` subscribes: the longest
    /// time wins, and an observer without a gc time, which never evicts, makes
    /// the query never evict, whether it comes first or later.
    pub open spec fn spec_updated(self, gc_time: Option<u64>) -> GcTime {
        match (self, gc_time) {
            (GcTime::Unset, Some(g)) => GcTime::After(g),
            (GcTime::Unset, None) => GcTime::Never,
            (GcTime::After(current), Some(g)) => GcTime::After(if g > current { g } else { current }),
            (GcTime::After(_), None) => GcTime::Never,
            (GcTime::Never, _) => GcTime::Never,
        }
    }

    /// Reads a gc time from an option.
    pub fn from_option(duration: Option<u64>) -> (r: GcTime)
        ensures
            r == GcTime::spec_from_option(duration),
    {
        match duration {
            Some(d) => GcTime::After(d),
            None => GcTime::Unset,
        }
    }
}

/// Decides when an unused query is evicted from the cache.
///
/// It tracks the gc time gathered from observers, and whether an eviction
/// timer is currently set; the timer itself lives with the caller.
#[derive(Clone, Copy, Debug)]
pub struct GarbageCollector {
    gc_time: GcTime,
    timer_set: bool,
}

impl GarbageCollector {
    /// The gc time gathered so far.
    pub closed spec fn spec_gc_time(self) -> GcTime {
        self.gc_time
    }

    /// Whether an eviction timer is set.
    pub closed spec fn spec_timer_set(self) -> bool {
        self.timer_set
    }

    /// A collector with no gc time and no timer.
    pub fn new() -> (r: Self)
        ensures
            r.spec_gc_time() == GcTime::Unset,
            !r.spec_timer_set(),
    {
        GarbageCollector { gc_time: GcTime::Unset, timer_set: false }
    }

    /// The gc time gathered so far.
    pub fn gc_time(&self) -> (r: GcTime)
        ensures
            r == self.spec_gc_time(),
    {
        self.gc_time
    }

    /// Whether an eviction timer is set.
    pub fn timer_set(&self) -> (r: bool)
        ensures
            r == self.spec_timer_set(),
    {
        self.timer_set
    }

    /// Keeps the maximum gc time.
    pub fn update_gc_time(&mut self, gc_time: Option<u64>)
        ensures
            final(self).spec_gc_time() == old(self).spec_gc_time().spec_updated(gc_time),
            final(self).spec_timer_set() == old(self).spec_timer_set(),
    {
        match (self.gc_time, gc_time) {
            (GcTime::Unset, Some(g)) => {
                self.gc_time = GcTime::After(g);
            },
            (GcTime::Unset, None) => {
                self.gc_time = GcTime::Never;
            },
            (GcTime::After(current), Some(g)) => {
                if g > current {
                    self.gc_time = GcTime::After(g);
                }
            },
            (GcTime::After(_), None) => {
                self.gc_time = GcTime::Never;
            },
            (GcTime::Never, _) => {},
        }
    }

    /// Starts the eviction countdown for a query last updated at `updated_at`.
    ///
    /// Returns the delay after which the query is to be evicted, measured from
    /// `now`, when a timer is to be set: only if none is set yet, the gc time is
    /// finite and the query holds data.
    pub fn enable_gc(&mut self, updated_at: Option<Instant>, now: Instant) -> (r: Option<u64>)
        ensures
            old(self).spec_timer_set() ==> r is None && *final(self) == *old(self),
            !old(self).spec_timer_set() ==> match (old(self).spec_gc_time(), updated_at) {
                (GcTime::After(t), Some(u)) => r == Some(
                    spec_time_until_stale(u.0 as int, t as int, now.0 as int) as u64,
                ) && final(self).spec_timer_set(),
                _ => r is None && !final(self).spec_timer_set(),
            },
            final(self).spec_gc_time() == old(self).spec_gc_time(),
    {
        if self.timer_set {
            return None;
        }
        match (self.gc_time, updated_at) {
            (GcTime::After(gc_time), Some(updated_at)) => {
                let delay = time_until_stale(updated_at, gc_time, now);
                self.timer_set = true;
                Some(delay)
            },
            _ => None,
        }
    }

    /// Stops the eviction countdown. Returns whether a timer was set and is to be cleared.
    pub fn disable_gc(&mut self) -> (r: bool)
        ensures
            r == old(self).spec_timer_set(),
            !final(self).spec_timer_set(),
            final(self).spec_gc_time() == old(self).spec_gc_time(),
    {
        let was_set = self.timer_set;
        self.timer_set = false;
        was_set
    }
}

/// Subscribing observers never shortens how long a query is kept.
pub proof fn lemma_gc_time_only_grows(current: GcTime, gc_time: Option<u64>)
    ensures
        gc_time_le(current, current.spec_updated(gc_time)),
{
}

/// Once a query is kept forever, no later observer changes that.
pub proof fn lemma_gc_never_is_final(gc_time: Option<u64>)
    ensures
        GcTime::Never.spec_updated(gc_time) == GcTime::Never,
{
}

/// An observer without a gc time makes the query never evict, whether it
/// subscribes before or after one with a gc time.
pub proof fn lemma_gc_never_wins(gc_time: Option<u64>)
    ensures
        GcTime::Unset.spec_updated(None).spec_updated(gc_time) == GcTime::Never,
        GcTime::Unset.spec_updated(gc_time).spec_updated(None) == GcTime::Never,
{
}

/// Between two finite gc times, the longer one is kept, whatever the order.
pub proof fn lemma_gc_keeps_longest(first: u64, second: u64)
    ensures
        GcTime::Unset.spec_updated(Some(first)).spec_updated(Some(second)) == GcTime::Unset.spec_updated(
            Some(second),
        ).spec_updated(Some(first)),
        GcTime::Unset.spec_updated(Some(first)).spec_updated(Some(second)) == GcTime::After(
            if first >= second { first } else { second },
        ),
{
}

} // verus!
