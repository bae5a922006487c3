use std::marker::PhantomData;
use std::rc::Rc;

use vstd::prelude::*;

verus! {

/// A retry schedule: each failure asks it for the delay, in milliseconds,
/// before the next attempt, or `None` to stop retrying.
pub trait Schedule: Sized {
    /// The error a failed attempt reports.
    type Error;

    /// Whether the schedule can answer any error, now and after any step.
    spec fn spec_ready(self) -> bool;

    /// Whether answering `error` may take the schedule to `next` and return `delay`.
    spec fn spec_step(self, error: Self::Error, next: Self, delay: Option<u64>) -> bool;

    /// The delay before the next attempt, after a failure with `error`.
    fn next(&mut self, error: &Self::Error) -> (r: Option<u64>)
        requires
            old(self).spec_ready(),
        ensures
            old(self).spec_step(*error, *final(self), r),
            final(self).spec_ready(),
    ;

    /// Answers with the shorter delay of both schedules, as long as either goes on.
    fn union<U>(self, other: U) -> (r: Union<Self, U>)
        ensures
            r.spec_first() == self,
            r.spec_second() == other,
    {
        Union { a: self, b: other }
    }

    /// Answers with the longer delay of both schedules, as long as both go on.
    fn intersect<U>(self, other: U) -> (r: Intersect<Self, U>)
        ensures
            r.spec_first() == self,
            r.spec_second() == other,
    {
        Intersect { a: self, b: other }
    }

    /// Runs this schedule until it stops, then `other`.
    fn concat<U>(self, other: U) -> (r: Sequence<Self, U>)
        ensures
            r.spec_first() == self,
            r.spec_second() == other,
    {
        Sequence { a: self, b: other }
    }

    /// Passes each answer through `func`, together with the error.
    fn map<F>(self, func: F) -> (r: Mapped<Self, Rc<F>>)
        ensures
            r.spec_schedule() == self,
            *r.spec_func() == func,
    {
        Mapped { schedule: self, func: Rc::new(func) }
    }

    /// Answers at most `n` times, then stops.
    fn take(self, n: u32) -> (r: Take<Self>)
        ensures
            r.spec_schedule() == self,
            r.spec_remaining() == n,
    {
        Take { schedule: self, n }
    }

    /// Stops as soon as `func` rejects an answer.
    fn take_while<F>(self, func: F) -> (r: TakeWhile<Self, Rc<F>>)
        ensures
            r.spec_schedule() == self,
            *r.spec_func() == func,
    {
        TakeWhile { schedule: self, func: Rc::new(func) }
    }

    /// Keeps every delay between `min` and `max`.
    fn clamp(self, min: u64, max: u64) -> (r: Clamp<Self>)
        ensures
            r.spec_schedule() == self,
            r.spec_min() == Some(min),
            r.spec_max() == Some(max),
    {
        Clamp { schedule: self, min: Some(min), max: Some(max) }
    }

    /// Keeps every delay at most `duration`.
    fn clamp_max(self, duration: u64) -> (r: Clamp<Self>)
        ensures
            r.spec_schedule() == self,
            r.spec_min() is None,
            r.spec_max() == Some(duration),
    {
        Clamp { schedule: self, min: None, max: Some(duration) }
    }

    /// Keeps every delay at least `duration`.
    fn clamp_min(self, duration: u64) -> (r: Clamp<Self>)
        ensures
            r.spec_schedule() == self,
            r.spec_min() == Some(duration),
            r.spec_max() is None,
    {
        Clamp { schedule: self, min: Some(duration), max: None }
    }
}

/// The shorter of two optional delays; a missing one does not count.
pub open spec fn shorter(a: Option<u64>, b: Option<u64>) -> Option<u64> {
    match (a, b) {
        (Some(x), Some(y)) => Some(if x <= y { x } else { y }),
        (Some(x), None) => Some(x),
        (None, Some(y)) => Some(y),
        (None, None) => None,
    }
}

/// The longer of two delays, only when both are there.
pub open spec fn longer(a: Option<u64>, b: Option<u64>) -> Option<u64> {
    match (a, b) {
        (Some(x), Some(y)) => Some(if x >= y { x } else { y }),
        _ => None,
    }
}

/// A delay brought within the optional bounds; the lower bound is applied
/// first, then the upper one.
pub open spec fn clamped(d: u64, min: Option<u64>, max: Option<u64>) -> u64 {
    let bottom = match min {
        Some(m) => if m >= d { m } else { d },
        None => d,
    };
    match max {
        Some(m) => if m <= bottom { m } else { bottom },
        None => bottom,
    }
}

/// Retries right away, a fixed number of times.
pub struct Recur<E> {
    n: u32,
    error_type: PhantomData<E>,
}

impl<E> Recur<E> {
    /// How many retries are left.
    pub closed spec fn spec_remaining(self) -> u32 {
        self.n
    }
}

impl<E> Clone for Recur<E> {
    fn clone(&self) -> (r: Self)
        ensures
            r.spec_remaining() == self.spec_remaining(),
    {
        Recur { n: self.n, error_type: PhantomData }
    }
}

impl<E> Schedule for Recur<E> {
    type Error = E;

    open spec fn spec_ready(self) -> bool {
        true
    }

    open spec fn spec_step(self, error: E, next: Self, delay: Option<u64>) -> bool {
        if self.spec_remaining() > 0 {
            delay == Some(0u64) && next.spec_remaining() == self.spec_remaining() - 1
        } else {
            delay is None && next.spec_remaining() == 0
        }
    }

    fn next(&mut self, error: &E) -> (r: Option<u64>) {
        if self.n > 0 {
            self.n = self.n - 1;
            Some(0)
        } else {
            None
        }
    }
}

/// Retries forever, always after the same delay.
pub struct Spaced<E> {
    duration: u64,
    error_type: PhantomData<E>,
}

impl<E> Spaced<E> {
    /// The delay between retries.
    pub closed spec fn spec_duration(self) -> u64 {
        self.duration
    }
}

impl<E> Clone for Spaced<E> {
    fn clone(&self) -> (r: Self)
        ensures
            r.spec_duration() == self.spec_duration(),
    {
        Spaced { duration: self.duration, error_type: PhantomData }
    }
}

impl<E> Schedule for Spaced<E> {
    type Error = E;

    open spec fn spec_ready(self) -> bool {
        true
    }

    open spec fn spec_step(self, error: E, next: Self, delay: Option<u64>) -> bool {
        delay == Some(self.spec_duration()) && next.spec_duration() == self.spec_duration()
    }

    fn next(&mut self, error: &E) -> (r: Option<u64>) {
        Some(self.duration)
    }
}

/// One schedule, then another once the first stops.
#[derive(Clone)]
pub struct Sequence<A, B> {
    a: A,
    b: B,
}

impl<A, B> Sequence<A, B> {
    /// The schedule that runs first.
    pub closed spec fn spec_first(self) -> A {
        self.a
    }

    /// The schedule that runs once the first stops.
    pub closed spec fn spec_second(self) -> B {
        self.b
    }
}

impl<A: Schedule, B: Schedule<Error = A::Error>> Schedule for Sequence<A, B> {
    type Error = A::Error;

    open spec fn spec_ready(self) -> bool {
        self.spec_first().spec_ready() && self.spec_second().spec_ready()
    }

    open spec fn spec_step(self, error: A::Error, next: Self, delay: Option<u64>) -> bool {
        exists|a_delay: Option<u64>|
            #[trigger] self.spec_first().spec_step(error, next.spec_first(), a_delay) && if a_delay is Some {
                delay == a_delay && next.spec_second() == self.spec_second()
            } else {
                self.spec_second().spec_step(error, next.spec_second(), delay)
            }
    }

    fn next(&mut self, error: &A::Error) -> (r: Option<u64>) {
        let a = self.a.next(error);
        let ghost first_after = self.spec_first();
        proof {
            assert(old(self).spec_first().spec_step(*error, first_after, a));
        }
        if a.is_some() {
            proof {
                assert(self.spec_second() == old(self).spec_second());
            }
            a
        } else {
            let b = self.b.next(error);
            proof {
                assert(old(self).spec_second().spec_step(*error, self.spec_second(), b));
                assert(self.spec_first() == first_after);
                assert(old(self).spec_first().spec_step(*error, self.spec_first(), a));
            }
            b
        }
    }
}

/// Two schedules side by side; the shorter delay wins.
#[derive(Clone)]
pub struct Union<A, B> {
    a: A,
    b: B,
}

impl<A, B> Union<A, B> {
    /// The first schedule.
    pub closed spec fn spec_first(self) -> A {
        self.a
    }

    /// The second schedule.
    pub closed spec fn spec_second(self) -> B {
        self.b
    }
}

impl<A: Schedule, B: Schedule<Error = A::Error>> Schedule for Union<A, B> {
    type Error = A::Error;

    open spec fn spec_ready(self) -> bool {
        self.spec_first().spec_ready() && self.spec_second().spec_ready()
    }

    open spec fn spec_step(self, error: A::Error, next: Self, delay: Option<u64>) -> bool {
        exists|a_delay: Option<u64>, b_delay: Option<u64>|
            #[trigger] self.spec_first().spec_step(error, next.spec_first(), a_delay)
                && #[trigger] self.spec_second().spec_step(error, next.spec_second(), b_delay)
                && delay == shorter(a_delay, b_delay)
    }

    fn next(&mut self, error: &A::Error) -> (r: Option<u64>) {
        let a = self.a.next(error);
        let b = self.b.next(error);
        proof {
            assert(old(self).spec_first().spec_step(*error, self.spec_first(), a));
            assert(old(self).spec_second().spec_step(*error, self.spec_second(), b));
        }
        match (a, b) {
            (Some(x), Some(y)) => Some(if x <= y { x } else { y }),
            (Some(x), None) => Some(x),
            (None, Some(y)) => Some(y),
            (None, None) => None,
        }
    }
}

/// Two schedules side by side; the longer delay wins, and either stopping stops both.
#[derive(Clone)]
pub struct Intersect<A, B> {
    a: A,
    b: B,
}

impl<A, B> Intersect<A, B> {
    /// The first schedule.
    pub closed spec fn spec_first(self) -> A {
        self.a
    }

    /// The second schedule.
    pub closed spec fn spec_second(self) -> B {
        self.b
    }
}

impl<A: Schedule, B: Schedule<Error = A::Error>> Schedule for Intersect<A, B> {
    type Error = A::Error;

    open spec fn spec_ready(self) -> bool {
        self.spec_first().spec_ready() && self.spec_second().spec_ready()
    }

    open spec fn spec_step(self, error: A::Error, next: Self, delay: Option<u64>) -> bool {
        exists|a_delay: Option<u64>, b_delay: Option<u64>|
            #[trigger] self.spec_first().spec_step(error, next.spec_first(), a_delay)
                && #[trigger] self.spec_second().spec_step(error, next.spec_second(), b_delay)
                && delay == longer(a_delay, b_delay)
    }

    fn next(&mut self, error: &A::Error) -> (r: Option<u64>) {
        let a = self.a.next(error);
        let b = self.b.next(error);
        proof {
            assert(old(self).spec_first().spec_step(*error, self.spec_first(), a));
            assert(old(self).spec_second().spec_step(*error, self.spec_second(), b));
        }
        match (a, b) {
            (Some(x), Some(y)) => Some(if x >= y { x } else { y }),
            _ => None,
        }
    }
}

/// A recur schedule retries right away: while retries are left it answers
/// with no delay and uses one up, and once none is left it stops for good.
pub proof fn lemma_recur_retries_at_once<E>(r: Recur<E>, error: E, next: Recur<E>, delay: Option<u64>)
    requires
        r.spec_step(error, next, delay),
    ensures
        delay is Some <==> r.spec_remaining() > 0,
        delay matches Some(d) ==> d == 0,
        r.spec_remaining() > 0 ==> next.spec_remaining() + 1 == r.spec_remaining(),
        r.spec_remaining() == 0 ==> next.spec_remaining() == 0,
{
}

/// A spaced schedule never stops, and always waits the same delay.
pub proof fn lemma_spaced_never_stops<E>(r: Spaced<E>, error: E, next: Spaced<E>, delay: Option<u64>)
    requires
        r.spec_step(error, next, delay),
    ensures
        delay == Some(r.spec_duration()),
        next.spec_duration() == r.spec_duration(),
{
}

/// A sequence answers as its first schedule does while that one goes on,
/// keeping the second untouched; once the first stops, the second answers.
pub proof fn lemma_sequence_runs_first_then_second<A: Schedule, B: Schedule<Error = A::Error>>(
    u: Sequence<A, B>,
    error: A::Error,
    next: Sequence<A, B>,
    delay: Option<u64>,
)
    requires
        u.spec_step(error, next, delay),
    ensures
        exists|a: Option<u64>|
            {
                &&& #[trigger] u.spec_first().spec_step(error, next.spec_first(), a)
                &&& a is Some ==> delay == a && next.spec_second() == u.spec_second()
                &&& a is None ==> u.spec_second().spec_step(error, next.spec_second(), delay)
            },
{
    let a = choose|a: Option<u64>|
        #[trigger] u.spec_first().spec_step(error, next.spec_first(), a) && if a is Some {
            delay == a && next.spec_second() == u.spec_second()
        } else {
            u.spec_second().spec_step(error, next.spec_second(), delay)
        };
    assert(u.spec_first().spec_step(error, next.spec_first(), a));
}

/// A schedule limited to `n` answers stops, and stays stopped, once they
/// are used up; before that each answer uses one up.
pub proof fn lemma_take_limits_answers<A: Schedule>(u: Take<A>, error: A::Error, next: Take<A>, delay: Option<u64>)
    requires
        u.spec_step(error, next, delay),
    ensures
        u.spec_remaining() == 0 ==> delay is None && next.spec_remaining() == 0,
        u.spec_remaining() > 0 ==> next.spec_remaining() + 1 == u.spec_remaining()
            && u.spec_schedule().spec_step(error, next.spec_schedule(), delay),
{
}

/// A union goes on as long as either schedule goes on: each answer comes
/// from one of the two schedules' answers to the same error, is no longer
/// than either of them, and is missing only when both are.
pub proof fn lemma_union_goes_on_while_either_does<A: Schedule, B: Schedule<Error = A::Error>>(
    u: Union<A, B>,
    error: A::Error,
    next: Union<A, B>,
    delay: Option<u64>,
)
    requires
        u.spec_step(error, next, delay),
    ensures
        exists|a: Option<u64>, b: Option<u64>|
            {
                &&& #[trigger] u.spec_first().spec_step(error, next.spec_first(), a)
                &&& #[trigger] u.spec_second().spec_step(error, next.spec_second(), b)
                &&& delay is None <==> (a is None && b is None)
                &&& delay matches Some(x) ==> (a matches Some(y) ==> x <= y) && (b matches Some(z)
                    ==> x <= z) && (a == Some(x) || b == Some(x))
            },
{
    let (a, b) = choose|a: Option<u64>, b: Option<u64>|
        #[trigger] u.spec_first().spec_step(error, next.spec_first(), a)
            && #[trigger] u.spec_second().spec_step(error, next.spec_second(), b)
            && delay == shorter(a, b);
    assert(u.spec_first().spec_step(error, next.spec_first(), a));
    assert(u.spec_second().spec_step(error, next.spec_second(), b));
}

/// An intersection stops as soon as either schedule stops; while both go on,
/// it answers with the longer of their two answers.
pub proof fn lemma_intersect_stops_when_either_does<A: Schedule, B: Schedule<Error = A::Error>>(
    u: Intersect<A, B>,
    error: A::Error,
    next: Intersect<A, B>,
    delay: Option<u64>,
)
    requires
        u.spec_step(error, next, delay),
    ensures
        exists|a: Option<u64>, b: Option<u64>|
            {
                &&& #[trigger] u.spec_first().spec_step(error, next.spec_first(), a)
                &&& #[trigger] u.spec_second().spec_step(error, next.spec_second(), b)
                &&& delay is Some <==> (a is Some && b is Some)
                &&& delay matches Some(x) ==> (a matches Some(y) && x >= y) && (b matches Some(z)
                    && x >= z) && (a == Some(x) || b == Some(x))
            },
{
    let (a, b) = choose|a: Option<u64>, b: Option<u64>|
        #[trigger] u.spec_first().spec_step(error, next.spec_first(), a)
            && #[trigger] u.spec_second().spec_step(error, next.spec_second(), b)
            && delay == longer(a, b);
    assert(u.spec_first().spec_step(error, next.spec_first(), a));
    assert(u.spec_second().spec_step(error, next.spec_second(), b));
}

/// A schedule whose answers pass through a function.
#[derive(Clone)]
pub struct Mapped<A, F> {
    schedule: A,
    func: F,
}

impl<A, F> Mapped<A, F> {
    /// The underlying schedule.
    pub closed spec fn spec_schedule(self) -> A {
        self.schedule
    }

    /// The function answers pass through.
    pub closed spec fn spec_func(self) -> F {
        self.func
    }
}

impl<A: Schedule, F: Fn((&A::Error, Option<u64>)) -> Option<u64>> Schedule for Mapped<A, Rc<F>> {
    type Error = A::Error;

    open spec fn spec_ready(self) -> bool {
        &&& self.spec_schedule().spec_ready()
        &&& forall|e: &A::Error, d: Option<u64>| #[trigger] (*self.spec_func()).requires(((e, d),))
    }

    open spec fn spec_step(self, error: A::Error, next: Self, delay: Option<u64>) -> bool {
        &&& next.spec_func() == self.spec_func()
        &&& exists|inner: Option<u64>|
            #[trigger] self.spec_schedule().spec_step(error, next.spec_schedule(), inner)
                && (*self.spec_func()).ensures(((&error, inner),), delay)
    }

    fn next(&mut self, error: &A::Error) -> (r: Option<u64>) {
        let next = self.schedule.next(error);
        proof {
            assert(old(self).spec_schedule().spec_step(*error, self.spec_schedule(), next));
            assert(self.spec_func() == old(self).spec_func());
            assert((*old(self).spec_func()).requires(((error, next),)));
        }
        (self.func)((error, next))
    }
}

/// A schedule that answers a limited number of times.
#[derive(Clone)]
pub struct Take<A> {
    schedule: A,
    n: u32,
}

impl<A> Take<A> {
    /// The underlying schedule.
    pub closed spec fn spec_schedule(self) -> A {
        self.schedule
    }

    /// How many answers are left.
    pub closed spec fn spec_remaining(self) -> u32 {
        self.n
    }
}

impl<A: Schedule> Schedule for Take<A> {
    type Error = A::Error;

    open spec fn spec_ready(self) -> bool {
        self.spec_schedule().spec_ready()
    }

    open spec fn spec_step(self, error: A::Error, next: Self, delay: Option<u64>) -> bool {
        if self.spec_remaining() > 0 {
            next.spec_remaining() == self.spec_remaining() - 1 && self.spec_schedule().spec_step(
                error,
                next.spec_schedule(),
                delay,
            )
        } else {
            delay is None && next == self
        }
    }

    fn next(&mut self, error: &A::Error) -> (r: Option<u64>) {
        if self.n > 0 {
            self.n = self.n - 1;
            self.schedule.next(error)
        } else {
            None
        }
    }
}

/// A schedule that stops as soon as a predicate rejects an answer.
#[derive(Clone)]
pub struct TakeWhile<A, F> {
    schedule: A,
    func: F,
}

impl<A, F> TakeWhile<A, F> {
    /// The underlying schedule.
    pub closed spec fn spec_schedule(self) -> A {
        self.schedule
    }

    /// The predicate answers must meet.
    pub closed spec fn spec_func(self) -> F {
        self.func
    }
}

impl<A: Schedule, F: Fn((&A::Error, u64)) -> bool> Schedule for TakeWhile<A, Rc<F>> {
    type Error = A::Error;

    open spec fn spec_ready(self) -> bool {
        &&& self.spec_schedule().spec_ready()
        &&& forall|e: &A::Error, d: u64| #[trigger] (*self.spec_func()).requires(((e, d),))
    }

    open spec fn spec_step(self, error: A::Error, next: Self, delay: Option<u64>) -> bool {
        &&& next.spec_func() == self.spec_func()
        &&& exists|inner: Option<u64>|
            #[trigger] self.spec_schedule().spec_step(error, next.spec_schedule(), inner)
                && match inner {
                Some(d) => exists|keep: bool|
                    (*self.spec_func()).ensures(((&error, d),), keep) && delay == if keep {
                        Some(d)
                    } else {
                        None
                    },
                None => delay is None,
            }
    }

    fn next(&mut self, error: &A::Error) -> (r: Option<u64>) {
        let next = self.schedule.next(error);
        proof {
            assert(old(self).spec_schedule().spec_step(*error, self.spec_schedule(), next));
        }
        match next {
            Some(d) => {
                proof {
                    assert(self.spec_func() == old(self).spec_func());
                    assert((*old(self).spec_func()).requires(((error, d),)));
                }
                let keep = (self.func)((error, d));
                proof {
                    assert(self.spec_func() == old(self).spec_func());
                    assert(self.spec_schedule().spec_ready());
                    assert(self.spec_ready());
                }
                if keep {
                    Some(d)
                } else {
                    None
                }
            },
            None => None,
        }
    }
}

/// A schedule whose delays are kept within bounds.
#[derive(Clone)]
pub struct Clamp<A> {
    schedule: A,
    min: Option<u64>,
    max: Option<u64>,
}

impl<A> Clamp<A> {
    /// The underlying schedule.
    pub closed spec fn spec_schedule(self) -> A {
        self.schedule
    }

    /// The lower bound.
    pub closed spec fn spec_min(self) -> Option<u64> {
        self.min
    }

    /// The upper bound.
    pub closed spec fn spec_max(self) -> Option<u64> {
        self.max
    }
}

impl<A: Schedule> Schedule for Clamp<A> {
    type Error = A::Error;

    open spec fn spec_ready(self) -> bool {
        self.spec_schedule().spec_ready()
    }

    open spec fn spec_step(self, error: A::Error, next: Self, delay: Option<u64>) -> bool {
        &&& next.spec_min() == self.spec_min()
        &&& next.spec_max() == self.spec_max()
        &&& exists|inner: Option<u64>|
            #[trigger] self.spec_schedule().spec_step(error, next.spec_schedule(), inner)
                && delay == match inner {
                Some(d) => Some(clamped(d, self.spec_min(), self.spec_max())),
                None => None,
            }
    }

    fn next(&mut self, error: &A::Error) -> (r: Option<u64>) {
        let next = self.schedule.next(error);
        proof {
            assert(old(self).spec_schedule().spec_step(*error, self.spec_schedule(), next));
        }
        match next {
            Some(d) => {
                let bottom = match self.min {
                    Some(min) => if min >= d {
                        min
                    } else {
                        d
                    },
                    None => d,
                };
                let top = match self.max {
                    Some(max) => if max <= bottom {
                        max
                    } else {
                        bottom
                    },
                    None => bottom,
                };
                Some(top)
            },
            None => None,
        }
    }
}

/// Constructors for the basic schedules.
pub struct Schedules();

impl Schedules {
    /// Retries right away, `n` times.
    pub fn recur<E>(n: u32) -> (r: Recur<E>)
        ensures
            r.spec_remaining() == n,
    {
        Recur { n, error_type: PhantomData }
    }

    /// Retries forever, `d` milliseconds apart.
    pub fn spaced<E>(d: u64) -> (r: Spaced<E>)
        ensures
            r.spec_duration() == d,
    {
        Spaced { duration: d, error_type: PhantomData }
    }
}

/// A clamped delay never leaves its bounds, when the bounds are ordered.
pub proof fn lemma_clamped_within_bounds(d: u64, min: Option<u64>, max: Option<u64>)
    ensures
        min matches Some(lo) ==> (max matches Some(hi) ==> lo <= hi) ==> lo <= clamped(d, min, max),
        max matches Some(hi) ==> clamped(d, min, max) <= hi,
        (min matches Some(lo) ==> lo <= d) && (max matches Some(hi) ==> d <= hi) ==> clamped(
            d,
            min,
            max,
        ) == d,
{
}

} // verus!
