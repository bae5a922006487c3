use leptos_query::{GarbageCollector, GcTime, Instant};

#[test]
fn test_gc() {
    let mut gc = GarbageCollector::new();
    assert_eq!(gc.gc_time(), GcTime::Unset);

    gc.update_gc_time(Some(10_000));
    assert_eq!(gc.gc_time(), GcTime::After(10_000));

    gc.update_gc_time(Some(5_000));
    assert_eq!(gc.gc_time(), GcTime::After(10_000));

    gc.update_gc_time(None);
    assert_eq!(gc.gc_time(), GcTime::Never);
}

#[test]
fn gc_time_first_observer_without_gc_time_never_evicts() {
    let mut gc = GarbageCollector::new();
    gc.update_gc_time(None);
    assert_eq!(gc.gc_time(), GcTime::Never);
    gc.update_gc_time(Some(10_000));
    assert_eq!(gc.gc_time(), GcTime::Never);

    let mut gc = GarbageCollector::new();
    gc.update_gc_time(Some(3));
    assert_eq!(gc.gc_time(), GcTime::After(3));
    gc.update_gc_time(Some(9));
    assert_eq!(gc.gc_time(), GcTime::After(9));
    gc.update_gc_time(None);
    gc.update_gc_time(Some(100));
    assert_eq!(gc.gc_time(), GcTime::Never);
    assert_eq!(GcTime::from_option(Some(4)), GcTime::After(4));
    assert_eq!(GcTime::from_option(None), GcTime::Unset);
}

#[test]
fn gc_timer_is_set_once() {
    let mut gc = GarbageCollector::new();
    assert_eq!(gc.enable_gc(Some(Instant(1_000)), Instant(1_500)), None);
    gc.update_gc_time(Some(2_000));
    assert_eq!(gc.enable_gc(None, Instant(1_500)), None);
    assert!(!gc.timer_set());
    assert_eq!(gc.enable_gc(Some(Instant(1_000)), Instant(1_500)), Some(1_500));
    assert!(gc.timer_set());
    assert_eq!(gc.enable_gc(Some(Instant(1_000)), Instant(1_500)), None);
    assert!(gc.disable_gc());
    assert!(!gc.disable_gc());
    assert_eq!(gc.enable_gc(Some(Instant(1_000)), Instant(9_000)), Some(0));
}

#[test]
fn gc_never_sets_no_timer() {
    let mut gc = GarbageCollector::new();
    gc.update_gc_time(Some(1));
    gc.update_gc_time(None);
    assert_eq!(gc.enable_gc(Some(Instant(0)), Instant(0)), None);
    assert!(!gc.timer_set());
}
