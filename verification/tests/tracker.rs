use prompt_cache::json::Value;
use prompt_cache::profile::{build_profile, CacheBreakpoint, CacheProfile};
use prompt_cache::tracker::{compute, update, Moment, PromptCacheTracker};
use prompt_cache::types::{CacheControl, Message, MessagesRequest, SystemMessage};
use prompt_cache::usage::CacheUsage;

fn text(s: &str) -> Value {
    Value::String(s.to_string())
}

fn object(members: Vec<(&str, Value)>) -> Value {
    Value::Object(members.into_iter().map(|(k, v)| (k.to_string(), v)).collect())
}

fn count_tokens(text: &str) -> u64 {
    text.chars().count() as u64 / 4
}

fn cached_request(body: String) -> MessagesRequest {
    MessagesRequest {
        model: "sonnet-4-5-20250929".to_string(),
        messages: vec![Message {
            role: "user".to_string(),
            content: Value::Array(vec![object(vec![
                ("type", text("text")),
                ("text", text(&body)),
                ("cache_control", object(vec![("type", text("ephemeral"))])),
            ])]),
            cache_control: None,
        }],
        system: None,
        tools: None,
    }
}

fn at(seconds: u64) -> Moment {
    Moment { seconds, nanos: 0 }
}

fn profile(points: &[(&str, i32, u64)], total: i32) -> CacheProfile {
    CacheProfile {
        breakpoints: points
            .iter()
            .map(|(fingerprint, cumulative_tokens, ttl)| CacheBreakpoint {
                fingerprint: fingerprint.to_string(),
                cumulative_tokens: *cumulative_tokens,
                ttl: *ttl,
            })
            .collect(),
        total_input_tokens: total,
        model: "sonnet".to_string(),
    }
}

fn usage(creation_5m: i32, creation_1h: i32, read: i32) -> CacheUsage {
    CacheUsage {
        cache_creation_input_tokens: creation_5m + creation_1h,
        cache_creation_5m_input_tokens: creation_5m,
        cache_creation_1h_input_tokens: creation_1h,
        cache_read_input_tokens: read,
    }
}

#[test]
fn test_prompt_cache_tracker_reports_creation_then_read() {
    let mut tracker = PromptCacheTracker::new();
    let req = cached_request("stable prefix ".repeat(500));
    let profile = build_profile(&req, 2000, &count_tokens);
    let first = compute(&mut tracker, "account-a", profile.as_ref());
    update(&mut tracker, "account-a", profile.as_ref());
    let second = compute(&mut tracker, "account-a", profile.as_ref());

    assert!(first.cache_creation_input_tokens > 0);
    assert_eq!(first.cache_read_input_tokens, 0);
    assert_eq!(second.cache_creation_input_tokens, 0);
    assert!(second.cache_read_input_tokens > 0);

    assert_eq!(first, usage(1700, 0, 0));
    assert_eq!(second, usage(0, 0, 1700));
}

#[test]
fn test_message_level_cache_control_on_array_content_is_cacheable() {
    let mut tracker = PromptCacheTracker::new();
    let mut req = cached_request("stable prefix ".repeat(500));
    req.messages[0].content = Value::Array(vec![object(vec![
        ("type", text("text")),
        ("text", text(&"stable prefix ".repeat(500))),
    ])]);
    req.messages[0].cache_control = Some(CacheControl {
        cache_type: "ephemeral".to_string(),
        ttl: None,
    });

    let profile = build_profile(&req, 2000, &count_tokens);
    let usage = compute(&mut tracker, "account-message-level", profile.as_ref());

    assert!(usage.cache_creation_input_tokens > 0);
}

#[test]
fn test_long_system_without_cache_control_gets_default_cache_profile() {
    let mut tracker = PromptCacheTracker::new();
    let mut req = cached_request("Hello".to_string());
    req.system = Some(vec![SystemMessage {
        text: "stable system prefix ".repeat(500),
        cache_control: None,
    }]);
    req.messages[0].content = text("Hello");

    let profile = build_profile(&req, 2000, &count_tokens);
    let usage = compute(&mut tracker, "account-auto-system", profile.as_ref());

    assert!(usage.cache_creation_input_tokens > 0);
}

#[test]
fn test_short_request_without_cache_control_does_not_get_default_cache_profile() {
    let req = MessagesRequest {
        model: "sonnet-4-5-20250929".to_string(),
        messages: vec![Message {
            role: "user".to_string(),
            content: text("short"),
            cache_control: None,
        }],
        system: None,
        tools: None,
    };

    assert!(build_profile(&req, 32, &count_tokens).is_none());
}

#[test]
fn nothing_is_reported_without_a_profile_or_an_account() {
    let mut tracker = PromptCacheTracker::new();
    let p = profile(&[("a", 2000, 300)], 3000);
    let empty = profile(&[], 3000);
    tracker.update("", Some(&p), at(0));
    tracker.update("x", None, at(0));
    tracker.update("x", Some(&empty), at(0));
    assert_eq!(tracker.compute("", Some(&p), at(1)), CacheUsage::default());
    assert_eq!(tracker.compute("x", None, at(1)), CacheUsage::default());
    assert_eq!(tracker.compute("x", Some(&empty), at(1)), CacheUsage::default());
    assert_eq!(tracker.compute("x", Some(&p), at(1)), usage(2000, 0, 0));
}

#[test]
fn at_most_85_percent_are_cacheable() {
    for total in [1i32, 2, 19, 20, 99, 100, 101, 1999, 2000, 123_456_789, i32::MAX - 1, i32::MAX] {
        let mut tracker = PromptCacheTracker::new();
        let p = profile(&[("a", i32::MAX, 300)], total);
        let seen = tracker.compute_with("x", &p, 0, at(0));
        let expected = (total as f64 * 0.85).floor() as i32;
        assert_eq!(seen, usage(expected, 0, 0), "{total}");
    }
    let p = profile(&[("a", 1500, 300)], 2000);
    assert_eq!(PromptCacheTracker::new().compute("x", Some(&p), at(0)), usage(1500, 0, 0));
}

#[test]
fn a_small_prompt_is_not_cached() {
    let mut tracker = PromptCacheTracker::new();
    let small = profile(&[("a", 1023, 300)], 3000);
    assert_eq!(tracker.compute("x", Some(&small), at(0)), usage(0, 0, 0));
    tracker.update("x", Some(&small), at(0));
    assert_eq!(tracker.compute("x", Some(&small), at(1)), usage(1023, 0, 0));
    let enough = profile(&[("b", 1024, 300)], 3000);
    tracker.update("x", Some(&enough), at(1));
    assert_eq!(tracker.compute("x", Some(&enough), at(2)), usage(0, 0, 1024));
}

#[test]
fn the_largest_models_cache_from_4096_tokens_on() {
    let mut tracker = PromptCacheTracker::new();
    let mut p = profile(&[("a", 4095, 300)], 10_000);
    p.model = "OPUS".to_string();
    assert_eq!(tracker.compute("x", Some(&p), at(0)), usage(0, 0, 0));
    p.breakpoints[0].cumulative_tokens = 4096;
    assert_eq!(tracker.compute("x", Some(&p), at(0)), usage(4096, 0, 0));
}

#[test]
fn entries_live_to_the_end_of_their_life_and_are_prolonged_by_use() {
    let mut tracker = PromptCacheTracker::new();
    let p = profile(&[("a", 2000, 300)], 3000);
    tracker.update("x", Some(&p), at(10));
    assert_eq!(tracker.compute("x", Some(&p), at(310)), usage(0, 0, 2000));
    assert_eq!(tracker.compute("x", Some(&p), at(610)), usage(0, 0, 2000));
    let late = Moment { seconds: 910, nanos: 1 };
    assert_eq!(tracker.compute("x", Some(&p), late), usage(2000, 0, 0));
}

#[test]
fn dead_entries_do_not_count_between_two_prunes() {
    let mut tracker = PromptCacheTracker::new();
    let p = profile(&[("a", 2000, 30)], 3000);
    let q = profile(&[("b", 2000, 300)], 3000);
    tracker.update("x", Some(&p), at(0));
    tracker.update("x", Some(&q), at(0));
    assert_eq!(tracker.compute("x", Some(&p), at(31)), usage(2000, 0, 0));
    assert_eq!(tracker.compute("x", Some(&q), at(31)), usage(0, 0, 2000));
    tracker.prune_if_needed(at(59));
    tracker.prune_if_needed(at(60));
    assert_eq!(tracker.compute("x", Some(&p), at(60)), usage(2000, 0, 0));
    assert_eq!(tracker.compute("x", Some(&q), at(60)), usage(0, 0, 2000));
}

#[test]
fn an_account_without_live_entries_is_forgotten() {
    let mut tracker = PromptCacheTracker::new();
    let p = profile(&[("a", 2000, 30)], 3000);
    tracker.update("x", Some(&p), at(0));
    let small = profile(&[("b", 500, 30)], 3000);
    assert_eq!(tracker.compute("x", Some(&small), at(59)), usage(500, 0, 0));
    assert_eq!(tracker.compute("x", Some(&small), at(61)), usage(0, 0, 0));
}

#[test]
fn the_last_cached_breakpoint_is_read() {
    let mut tracker = PromptCacheTracker::new();
    let first = profile(&[("a", 2000, 300), ("b", 3000, 3600)], 4000);
    tracker.update("x", Some(&first), at(0));
    let longer = profile(
        &[("a", 2000, 300), ("b", 3000, 3600), ("c", 4000, 3600), ("d", 5000, 300)],
        10_000,
    );
    assert_eq!(tracker.compute("x", Some(&longer), at(1)), usage(1000, 1000, 3000));
    let other = profile(&[("a", 2000, 300), ("z", 3000, 3600)], 10_000);
    assert_eq!(tracker.compute("x", Some(&other), at(1)), usage(0, 1000, 2000));
}

#[test]
fn accounts_are_separate() {
    let mut tracker = PromptCacheTracker::new();
    let p = profile(&[("a", 2000, 300)], 3000);
    tracker.update("x", Some(&p), at(0));
    assert_eq!(tracker.compute("y", Some(&p), at(1)), usage(2000, 0, 0));
    tracker.update("y", Some(&profile(&[("b", 2000, 300)], 3000)), at(1));
    assert_eq!(tracker.compute("y", Some(&p), at(2)), usage(2000, 0, 0));
    assert_eq!(tracker.compute("x", Some(&p), at(2)), usage(0, 0, 2000));
}

#[test]
fn an_account_keeps_the_200_entries_that_live_longest() {
    let mut tracker = PromptCacheTracker::new();
    let points: Vec<(String, i32, u64)> =
        (0..203).map(|i| (format!("f{i}"), 2000 + i, 1000 - i as u64)).collect();
    let refs: Vec<(&str, i32, u64)> =
        points.iter().map(|(f, n, t)| (f.as_str(), *n, *t)).collect();
    tracker.update("x", Some(&profile(&refs, 1_000_000)), at(0));
    for i in 0..203 {
        let p = profile(&[(format!("f{i}").as_str(), 2000, 5)], 10_000);
        let read = tracker.compute("x", Some(&p), at(1)).cache_read_input_tokens;
        assert_eq!(read, if i < 200 { 2000 } else { 0 }, "{i}");
    }
}

#[test]
fn a_second_update_renews_the_life() {
    let mut tracker = PromptCacheTracker::new();
    tracker.update("x", Some(&profile(&[("a", 2000, 300)], 3000)), at(0));
    let p = profile(&[("a", 2000, 10)], 3000);
    tracker.update("x", Some(&p), at(50));
    assert_eq!(tracker.compute("x", Some(&p), at(61)), usage(2000, 0, 0));
}

#[test]
fn the_clock_of_a_tracker_runs_from_its_making() {
    let tracker = PromptCacheTracker::new();
    let first = tracker.now();
    let second = tracker.now();
    assert!(first.nanos < 1_000_000_000);
    assert!(first.seconds < 10);
    assert!(first.as_nanos() <= second.as_nanos());
    assert_eq!(Moment { seconds: 2, nanos: 5 }.as_nanos(), 2_000_000_005);
}

#[test]
fn reports_and_notes_do_not_set_the_clock_back() {
    let mut tracker = PromptCacheTracker::new();
    let p = profile(&[("a", 2000, 300)], 3000);
    let mut last = tracker.now();
    for _ in 0..20 {
        update(&mut tracker, "x", Some(&p));
        compute(&mut tracker, "x", Some(&p));
        tracker.prune_if_needed(at(1000));
        let now = tracker.now();
        assert!(last.as_nanos() <= now.as_nanos());
        last = now;
    }
}
