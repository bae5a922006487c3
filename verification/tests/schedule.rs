use leptos_query::schedule::{Schedule, Schedules};

#[test]
fn test_recurs() {
    let mut r = Schedules::recur(2);
    assert_eq!(Some(0), r.next(&()));
    assert_eq!(Some(0), r.next(&()));
    assert_eq!(None, r.next(&()));
}

#[test]
fn test_spaced() {
    let d = 500;
    let mut schedule = Schedules::recur(2).intersect(Schedules::spaced(d));
    assert_eq!(Some(d), schedule.next(&()));
    assert_eq!(Some(d), schedule.next(&()));
    assert_eq!(None, schedule.next(&()));
}

#[test]
fn test_sequence() {
    let d = 500;
    let left = Schedules::recur(2).intersect(Schedules::spaced(d));
    let right = Schedules::recur(2);
    let mut schedule = left.concat(right);

    assert_eq!(Some(d), schedule.next(&()));
    assert_eq!(Some(d), schedule.next(&()));
    assert_eq!(Some(0), schedule.next(&()));
    assert_eq!(Some(0), schedule.next(&()));
    assert_eq!(None, schedule.next(&()));
}

#[test]
fn union_takes_the_shorter_delay() {
    let mut schedule = Schedules::spaced::<()>(300).union(Schedules::spaced(100));
    assert_eq!(Some(100), schedule.next(&()));
    let mut until_recur_stops = Schedules::recur::<()>(1).union(Schedules::spaced(50).take(2));
    assert_eq!(Some(0), until_recur_stops.next(&()));
    assert_eq!(Some(50), until_recur_stops.next(&()));
    assert_eq!(None, until_recur_stops.next(&()));
}

#[test]
fn take_limits_answers() {
    let mut schedule = Schedules::spaced::<()>(10).take(3);
    assert_eq!(Some(10), schedule.next(&()));
    assert_eq!(Some(10), schedule.next(&()));
    assert_eq!(Some(10), schedule.next(&()));
    assert_eq!(None, schedule.next(&()));
    assert_eq!(None, schedule.next(&()));
}

#[test]
fn clamp_keeps_delays_within_bounds() {
    let mut low = Schedules::spaced::<()>(100).clamp_min(1000);
    assert_eq!(Some(1000), low.next(&()));
    let mut high = Schedules::spaced::<()>(5000).clamp_max(4000);
    assert_eq!(Some(4000), high.next(&()));
    let mut both = Schedules::spaced::<()>(2000).clamp(1000, 4000);
    assert_eq!(Some(2000), both.next(&()));
    let mut stopped = Schedules::recur::<()>(0).clamp(1000, 4000);
    assert_eq!(None, stopped.next(&()));
}

#[test]
fn map_and_take_while_see_the_error() {
    let mut doubled = Schedules::spaced::<u32>(10).map(|(e, d): (&u32, Option<u64>)| {
        d.map(|d| d * (*e as u64))
    });
    assert_eq!(Some(30), doubled.next(&3));
    assert_eq!(Some(50), doubled.next(&5));

    let mut while_small = Schedules::spaced::<u32>(10).take_while(|(e, _d): (&u32, u64)| *e < 3);
    assert_eq!(Some(10), while_small.next(&1));
    assert_eq!(None, while_small.next(&7));
}
