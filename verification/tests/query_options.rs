use leptos_query::query_options::{ensure_valid_stale_time, DEFAULT_GC_TIME, DEFAULT_STALE_TIME};
use leptos_query::{DefaultQueryOptions, QueryOptions, ResourceOption};

fn secs(n: u64) -> u64 {
    n * 1000
}

#[test]
fn validate_stale_time_less_than_gc_time() {
    let options = QueryOptions::<i32> {
        default_value: None,
        stale_time: Some(secs(5)),
        gc_time: Some(secs(10)),
        refetch_interval: None,
        resource_option: None,
    }
    .validate();

    assert_eq!(options.stale_time, Some(secs(5)), "Stale_time should remain unchanged");
    assert_eq!(options.gc_time, Some(secs(10)), "GC time should remain unchanged");
}

#[test]
fn validate_stale_time_greater_than_gc_time() {
    let options = QueryOptions::<i32> {
        default_value: None,
        stale_time: Some(secs(15)),
        gc_time: Some(secs(10)),
        refetch_interval: None,
        resource_option: None,
    }
    .validate();

    assert_eq!(options.stale_time, Some(secs(10)), "Stale_time should be adjusted to GC time");
    assert_eq!(options.gc_time, Some(secs(10)), "GC time should remain unchanged");
}

#[test]
fn validate_stale_time_without_gc_time() {
    let options = QueryOptions::<i32> {
        default_value: None,
        stale_time: Some(secs(5)),
        gc_time: None,
        refetch_interval: None,
        resource_option: None,
    }
    .validate();

    assert_eq!(options.stale_time, Some(secs(5)), "Stale_time should remain unchanged");
    assert_eq!(options.gc_time, None, "GC time should remain None");
}

#[test]
fn validate_gc_time_without_stale_time() {
    let options = QueryOptions::<i32> {
        default_value: None,
        stale_time: None,
        gc_time: Some(secs(10)),
        refetch_interval: None,
        resource_option: None,
    }
    .validate();
    assert_eq!(options.stale_time, Some(secs(10)), "Stale_time should become gc_time");
    assert_eq!(options.gc_time, Some(secs(10)), "GC time should remain unchanged");
}

#[test]
fn validate_none_stale_and_gc_time() {
    let options = QueryOptions::<i32> {
        default_value: None,
        stale_time: None,
        gc_time: None,
        refetch_interval: None,
        resource_option: None,
    }
    .validate();

    assert_eq!(options.stale_time, None, "Stale_time should remain None");
    assert_eq!(options.gc_time, None, "GC time should remain None");
}

#[test]
fn test_default() {
    let client_defaults = DefaultQueryOptions {
        stale_time: Some(secs(1)),
        gc_time: Some(secs(2)),
        refetch_interval: Some(secs(3)),
        resource_option: ResourceOption::NonBlocking,
    };

    let default_options: QueryOptions<()> = QueryOptions::from_defaults(client_defaults);

    assert_eq!(
        default_options.stale_time,
        Some(secs(1)),
        "Default stale_time should match the provided QueryClient's default"
    );
    assert_eq!(
        default_options.gc_time,
        Some(secs(2)),
        "Default gc_time should match the provided QueryClient's default"
    );
    assert_eq!(
        default_options.refetch_interval,
        Some(secs(3)),
        "Default refetch_interval should match the provided QueryClient's default"
    );
    assert_eq!(
        default_options.resource_option,
        Some(ResourceOption::NonBlocking),
        "Default resource_option should match the provided QueryClient's default"
    );
    assert!(
        default_options.gc_time.unwrap() >= default_options.stale_time.unwrap(),
        "After validation, gc_time should not be less than stale_time"
    );
}

#[test]
fn default_options_without_client() {
    let options: QueryOptions<u8> = QueryOptions::from_defaults(DefaultQueryOptions::default());
    assert_eq!(options.stale_time, Some(DEFAULT_STALE_TIME));
    assert_eq!(options.gc_time, Some(DEFAULT_GC_TIME));
    assert_eq!(options.refetch_interval, None);
    assert_eq!(options.resource_option, Some(ResourceOption::NonBlocking));
    assert_eq!(DEFAULT_STALE_TIME, 10_000);
    assert_eq!(DEFAULT_GC_TIME, 300_000);
    let d = DefaultQueryOptions::default();
    assert_eq!(d.stale_time, Some(10_000));
    assert_eq!(d.gc_time, Some(300_000));
    assert_eq!(ResourceOption::default(), ResourceOption::NonBlocking);
}

#[test]
fn client_defaults_are_validated() {
    let client_defaults = DefaultQueryOptions {
        stale_time: Some(secs(20)),
        gc_time: Some(secs(2)),
        refetch_interval: None,
        resource_option: ResourceOption::Blocking,
    };
    let options: QueryOptions<()> = QueryOptions::from_defaults(client_defaults);
    assert_eq!(options.stale_time, Some(secs(2)));
    assert_eq!(options.resource_option, Some(ResourceOption::Blocking));
}

#[test]
fn validate_is_idempotent() {
    let once = QueryOptions::<i32>::empty()
        .set_stale_time(Some(15))
        .set_gc_time(Some(10))
        .validate();
    let twice = once.clone().validate();
    assert_eq!(once.stale_time, Some(10));
    assert_eq!(twice.stale_time, once.stale_time);
    assert_eq!(twice.gc_time, once.gc_time);
}

#[test]
fn ensure_valid_stale_time_cases() {
    assert_eq!(ensure_valid_stale_time(&Some(3), &Some(7)), Some(3));
    assert_eq!(ensure_valid_stale_time(&Some(7), &Some(7)), Some(7));
    assert_eq!(ensure_valid_stale_time(&Some(8), &Some(7)), Some(7));
    assert_eq!(ensure_valid_stale_time(&None, &Some(7)), Some(7));
    assert_eq!(ensure_valid_stale_time(&Some(8), &None), Some(8));
    assert_eq!(ensure_valid_stale_time(&None, &None), None);
}

#[test]
fn setters_replace_one_option() {
    let options = QueryOptions::<i32>::empty()
        .set_default_value(Some(4))
        .set_stale_time(Some(1))
        .set_gc_time(Some(2))
        .set_refetch_interval(Some(3))
        .set_resource_option(Some(ResourceOption::Local));
    assert_eq!(options.default_value, Some(4));
    assert_eq!(options.stale_time, Some(1));
    assert_eq!(options.gc_time, Some(2));
    assert_eq!(options.refetch_interval, Some(3));
    assert_eq!(options.resource_option, Some(ResourceOption::Local));

    let mapped = options.map_value(|v| format!("value {v}"));
    assert_eq!(mapped.default_value, Some("value 4".to_string()));
    assert_eq!(mapped.stale_time, Some(1));
    assert_eq!(mapped.gc_time, Some(2));
    assert_eq!(mapped.refetch_interval, Some(3));
    assert_eq!(mapped.resource_option, Some(ResourceOption::Local));

    let none: QueryOptions<i32> = QueryOptions::empty();
    let mapped_none = none.map_value(|v| v + 1);
    assert_eq!(mapped_none.default_value, None);
}

#[test]
fn option_constructors() {
    let e = QueryOptions::<u8>::empty();
    assert_eq!(e.stale_time, None);
    assert_eq!(e.gc_time, None);
    assert_eq!(e.resource_option, Some(ResourceOption::NonBlocking));

    let s = QueryOptions::<u8>::stale_time(500);
    assert_eq!(s.stale_time, Some(500));
    assert_eq!(s.gc_time, Some(DEFAULT_GC_TIME));
    assert_eq!(s.refetch_interval, None);

    // A stale time above the gc time is clamped to it.
    let long = QueryOptions::<u8>::stale_time(600_000);
    assert_eq!(long.stale_time, Some(DEFAULT_GC_TIME));
    assert_eq!(long.gc_time, Some(DEFAULT_GC_TIME));

    let r = QueryOptions::<u8>::refetch_interval(700);
    assert_eq!(r.stale_time, Some(0));
    assert_eq!(r.gc_time, Some(DEFAULT_GC_TIME));
    assert_eq!(r.refetch_interval, Some(700));
}
