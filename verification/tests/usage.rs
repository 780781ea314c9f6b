use prompt_cache::json::{Number, Value};
use prompt_cache::profile::{CacheBreakpoint, CacheProfile};
use prompt_cache::usage::{apply_usage, split_cache_creation_tokens, usage_fits, CacheUsage};

fn object(members: Vec<(&str, Value)>) -> Value {
    Value::Object(members.into_iter().map(|(k, v)| (k.to_string(), v)).collect())
}

fn cache_usage(creation: i32, short: i32, long: i32, read: i32) -> CacheUsage {
    CacheUsage {
        cache_creation_input_tokens: creation,
        cache_creation_5m_input_tokens: short,
        cache_creation_1h_input_tokens: long,
        cache_read_input_tokens: read,
    }
}

fn profile(points: &[(i32, u64)], total: i32) -> CacheProfile {
    CacheProfile {
        breakpoints: points
            .iter()
            .map(|(cumulative_tokens, ttl)| CacheBreakpoint {
                fingerprint: String::new(),
                cumulative_tokens: *cumulative_tokens,
                ttl: *ttl,
            })
            .collect(),
        total_input_tokens: total,
        model: String::new(),
    }
}

#[test]
fn test_apply_usage_reports_cache_read_and_creation_separately() {
    let mut usage = object(vec![
        ("input_tokens", Value::integer(2000)),
        ("output_tokens", Value::integer(12)),
    ]);

    apply_usage(
        &mut usage,
        CacheUsage {
            cache_creation_input_tokens: 1200,
            cache_creation_5m_input_tokens: 400,
            cache_creation_1h_input_tokens: 800,
            cache_read_input_tokens: 300,
        },
    );

    let number = |key: &str| usage.get(key).and_then(|v| v.as_i64());
    assert_eq!(number("input_tokens"), Some(500));
    assert_eq!(number("output_tokens"), Some(12));
    assert_eq!(number("cache_read_input_tokens"), Some(300));
    assert_eq!(number("cache_creation_input_tokens"), Some(1200));
    let creation = usage.get("cache_creation").unwrap();
    assert_eq!(creation.get("ephemeral_5m_input_tokens").and_then(|v| v.as_i64()), Some(400));
    assert_eq!(creation.get("ephemeral_1h_input_tokens").and_then(|v| v.as_i64()), Some(800));
}

#[test]
fn what_the_split_leaves_out_counts_as_five_minutes() {
    let mut usage = object(vec![("input_tokens", Value::integer(100))]);
    apply_usage(&mut usage, cache_usage(50, 10, 15, 0));
    assert_eq!(
        usage,
        object(vec![
            ("input_tokens", Value::integer(50)),
            ("cache_creation_input_tokens", Value::integer(50)),
            ("cache_read_input_tokens", Value::integer(0)),
            (
                "cache_creation",
                object(vec![
                    ("ephemeral_5m_input_tokens", Value::integer(35)),
                    ("ephemeral_1h_input_tokens", Value::integer(15)),
                ])
            ),
        ])
    );
}

#[test]
fn without_writing_there_is_no_split() {
    let mut usage = object(vec![("input_tokens", Value::integer(100))]);
    apply_usage(&mut usage, cache_usage(0, 0, 0, 30));
    assert_eq!(usage.get("cache_creation"), None);
    assert_eq!(usage.get("input_tokens").and_then(|v| v.as_i64()), Some(70));
}

#[test]
fn billed_input_is_never_negative() {
    let mut usage = object(vec![("input_tokens", Value::integer(10))]);
    apply_usage(&mut usage, cache_usage(8, 8, 0, 9));
    assert_eq!(usage.get("input_tokens").and_then(|v| v.as_i64()), Some(0));
    let mut usage = object(vec![("input_tokens", Value::String("10".to_string()))]);
    apply_usage(&mut usage, cache_usage(0, 0, 0, 0));
    assert_eq!(usage.get("input_tokens").and_then(|v| v.as_i64()), Some(0));
    let mut usage = object(vec![]);
    apply_usage(&mut usage, cache_usage(0, 0, 0, 4));
    assert_eq!(usage.get("input_tokens").and_then(|v| v.as_i64()), Some(0));
}

#[test]
fn what_is_no_object_stays_as_it_is() {
    let mut usage = Value::Array(vec![Value::Null]);
    apply_usage(&mut usage, cache_usage(1, 1, 0, 1));
    assert_eq!(usage, Value::Array(vec![Value::Null]));
}

#[test]
fn reports_out_of_range_are_told() {
    let report = object(vec![("input_tokens", Value::Number(Number::NegInt(i64::MIN)))]);
    assert!(usage_fits(&report, cache_usage(0, 0, 0, 0)));
    assert!(!usage_fits(&report, cache_usage(1, 1, 0, 0)));
    assert!(!usage_fits(&report, cache_usage(0, 0, 0, 1)));
    let report = object(vec![]);
    assert!(usage_fits(&report, cache_usage(1200, 400, 800, 300)));
    assert!(!usage_fits(&report, cache_usage(0, i32::MAX, 1, 0)));
    assert!(!usage_fits(&report, cache_usage(0, i32::MIN, -1, 0)));
    assert!(!usage_fits(&report, cache_usage(i32::MAX, 0, -1, 0)));
    assert!(usage_fits(&Value::Null, cache_usage(0, i32::MAX, 1, 0)));
}

#[test]
fn nothing_written_is_split_into_nothing() {
    let p = profile(&[(100, 300)], 100);
    assert_eq!(split_cache_creation_tokens(&p, 0, 0), (0, 0));
    assert_eq!(split_cache_creation_tokens(&p, 50, -5), (0, 0));
}

#[test]
fn written_tokens_are_split_by_life() {
    let p = profile(&[(100, 3600), (250, 300), (400, 7200)], 1000);
    assert_eq!(split_cache_creation_tokens(&p, 0, 400), (150, 250));
    assert_eq!(split_cache_creation_tokens(&p, 50, 100), (50, 50));
    assert_eq!(split_cache_creation_tokens(&p, 100, 300), (150, 150));
    assert_eq!(split_cache_creation_tokens(&p, 300, 200), (100, 100));
    assert_eq!(split_cache_creation_tokens(&p, 500, 100), (100, 0));
    let short = profile(&[(100, 3600)], 60);
    assert_eq!(split_cache_creation_tokens(&short, 0, 80), (20, 60));
    let falling = profile(&[(100, 3600), (50, 300), (120, 300)], 1000);
    assert_eq!(split_cache_creation_tokens(&falling, 0, 120), (20, 100));
}

#[test]
fn by_default_nothing_is_used() {
    assert_eq!(CacheUsage::default(), cache_usage(0, 0, 0, 0));
}
