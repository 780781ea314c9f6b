use prompt_cache::cache_policy::{
    count_message_tokens, count_tools_tokens, has_explicit_cache_control,
    should_auto_cache_message, should_auto_cache_system, should_auto_cache_tool,
    should_use_default_cache, text_of_part, value_has_cache_control,
};
use prompt_cache::json::{Number, Value};
use prompt_cache::ttl::{
    is_one_hour_ttl, min_cacheable_tokens, min_tokens_for_lowered, ttl_from_control,
    ttl_from_ttl_value, ttl_from_value,
};
use prompt_cache::types::{CacheControl, Message, MessagesRequest, SystemMessage, Tool};

fn text(s: &str) -> Value {
    Value::String(s.to_string())
}

fn object(members: Vec<(&str, Value)>) -> Value {
    Value::Object(members.into_iter().map(|(k, v)| (k.to_string(), v)).collect())
}

fn chars(text: &str) -> u64 {
    text.chars().count() as u64
}

fn control(kind: &str, ttl: Option<&str>) -> Option<CacheControl> {
    Some(CacheControl { cache_type: kind.to_string(), ttl: ttl.map(str::to_string) })
}

fn message(content: Value) -> Message {
    Message { role: "user".to_string(), content, cache_control: None }
}

fn tool(name: &str) -> Tool {
    Tool {
        name: name.to_string(),
        description: "d".to_string(),
        input_schema: object(vec![]),
        cache_control: None,
    }
}

fn request(messages: Vec<Message>) -> MessagesRequest {
    MessagesRequest { model: "m".to_string(), messages, system: None, tools: None }
}

#[test]
fn cache_controls_are_found_everywhere() {
    let plain = || request(vec![message(text("a"))]);
    assert!(!has_explicit_cache_control(&plain()));
    assert!(should_use_default_cache(&plain()));

    let mut req = plain();
    req.messages[0].cache_control = control("whatever", None);
    assert!(has_explicit_cache_control(&req));
    assert!(!should_use_default_cache(&req));

    let mut req = plain();
    req.tools = Some(vec![tool("t"), tool("u")]);
    assert!(!has_explicit_cache_control(&req));
    req.tools.as_mut().unwrap()[1].cache_control = control("ephemeral", None);
    assert!(has_explicit_cache_control(&req));

    let mut req = plain();
    req.system = Some(vec![SystemMessage { text: "s".to_string(), cache_control: None }]);
    assert!(!has_explicit_cache_control(&req));
    req.system.as_mut().unwrap()[0].cache_control = control("ephemeral", None);
    assert!(has_explicit_cache_control(&req));

    let req = request(vec![message(Value::Array(vec![
        Value::Null,
        object(vec![("cache_control", Value::Null)]),
    ]))]);
    assert!(has_explicit_cache_control(&req));
}

#[test]
fn cache_controls_in_content_are_found_in_arrays_only() {
    let marked = || object(vec![("cache_control", Value::Null)]);
    assert!(value_has_cache_control(&marked()));
    assert!(value_has_cache_control(&Value::Array(vec![
        text("a"),
        Value::Array(vec![Value::Null, marked()]),
    ])));
    assert!(!value_has_cache_control(&object(vec![("inner", marked())])));
    assert!(!value_has_cache_control(&text("cache_control")));
    assert!(!value_has_cache_control(&Value::Array(vec![])));
}

#[test]
fn content_is_measured_by_its_text() {
    assert_eq!(count_message_tokens(&text("hello"), &chars), 5);
    let parts = Value::Array(vec![
        object(vec![("text", text("abc"))]),
        object(vec![("thinking", text("de"))]),
        object(vec![("text", Value::integer(1)), ("thinking", text("unused"))]),
        object(vec![("text", text(""))]),
        Value::Null,
    ]);
    let rendered = "{\"text\":1,\"thinking\":\"unused\"}".len() as i32;
    assert_eq!(count_message_tokens(&parts, &chars), 3 + 2 + rendered + 0 + 4);
    assert_eq!(count_message_tokens(&Value::Bool(true), &chars), 4);
    assert_eq!(text_of_part(&object(vec![("thinking", text("t"))])), Some("t"));
    assert_eq!(text_of_part(&Value::Null), None);
}

#[test]
fn counts_wrap_at_32_bits() {
    let huge = |_: &str| (1u64 << 32) + 7;
    assert_eq!(count_message_tokens(&text("x"), &huge), 7);
    let negative = |_: &str| u32::MAX as u64;
    assert_eq!(count_message_tokens(&text("x"), &negative), -1);
}

#[test]
fn tools_are_measured_by_their_rendering() {
    let tools = vec![tool("one"), tool("three")];
    let first = "{\"description\":\"d\",\"input_schema\":{},\"name\":\"one\"}".len() as i32;
    assert_eq!(count_tools_tokens(&tools[..1], &chars), first);
    assert_eq!(count_tools_tokens(&tools, &chars), 2 * first + 2);
    assert_eq!(count_tools_tokens(&[], &chars), 0);
}

#[test]
fn a_long_system_prompt_is_cached_from_1024_tokens_on() {
    let mut req = request(vec![]);
    assert!(!should_auto_cache_system(&req, &chars));
    let block = |n: usize| SystemMessage { text: "x".repeat(n), cache_control: None };
    req.system = Some(vec![block(1000), block(23)]);
    assert!(!should_auto_cache_system(&req, &chars));
    req.system = Some(vec![block(1000), block(24)]);
    assert!(should_auto_cache_system(&req, &chars));
}

#[test]
fn only_the_history_is_cached_by_default() {
    let long = || message(text(&"x".repeat(1024)));
    let req = request(vec![long(), message(text("short")), long()]);
    assert!(should_auto_cache_message(&req, 0, &chars));
    assert!(!should_auto_cache_message(&req, 1, &chars));
    assert!(!should_auto_cache_message(&req, 2, &chars));
    assert!(!should_auto_cache_message(&req, 3, &chars));
    assert!(!should_auto_cache_message(&request(vec![]), 0, &chars));
    let req = request(vec![message(text(&"x".repeat(1023))), long()]);
    assert!(!should_auto_cache_message(&req, 0, &chars));
}

#[test]
fn tools_are_cached_once_they_are_long_together() {
    let mut req = request(vec![]);
    assert!(!should_auto_cache_tool(&req, 0, &chars));
    let mut big = tool("big");
    big.description = "x".repeat(960);
    req.tools = Some(vec![big, tool("small")]);
    let first = count_tools_tokens(&req.tools.as_ref().unwrap()[..1], &chars);
    assert!(first < 1024);
    assert!(!should_auto_cache_tool(&req, 0, &chars));
    assert!(should_auto_cache_tool(&req, 1, &chars));
    assert!(!should_auto_cache_tool(&req, 2, &chars));
}

#[test]
fn lives_of_controls() {
    assert_eq!(ttl_from_control(&None), None);
    assert_eq!(ttl_from_control(&control("persistent", Some("1h"))), None);
    assert_eq!(ttl_from_control(&control("ephemeral", None)), Some(300));
    assert_eq!(ttl_from_control(&control("EPHEMERAL", Some("1h"))), Some(3600));
    assert_eq!(ttl_from_control(&control("ephemeral", Some("1H"))), Some(3600));
    assert_eq!(ttl_from_control(&control("ephemeral", Some("5m"))), Some(300));
    assert_eq!(ttl_from_control(&control("ephemeral", Some("0"))), Some(300));
    assert_eq!(ttl_from_control(&control("ephemeral", Some("90"))), Some(90));
    assert_eq!(ttl_from_control(&control("ephemeral", Some("-90"))), Some(300));
}

#[test]
fn lives_of_content_blocks() {
    let part = |members: Vec<(&str, Value)>| object(vec![("cache_control", object(members))]);
    assert_eq!(ttl_from_value(&object(vec![])), None);
    assert_eq!(ttl_from_value(&text("x")), None);
    assert_eq!(ttl_from_value(&part(vec![])), None);
    assert_eq!(ttl_from_value(&part(vec![("type", Value::Null)])), None);
    assert_eq!(ttl_from_value(&part(vec![("type", text("other"))])), None);
    assert_eq!(ttl_from_value(&part(vec![("type", text("Ephemeral"))])), Some(300));
    assert_eq!(
        ttl_from_value(&part(vec![("type", text("ephemeral")), ("ttl", text("1H"))])),
        Some(3600)
    );
    assert_eq!(ttl_from_ttl_value(None), Some(300));
    assert_eq!(ttl_from_ttl_value(Some(&text("90"))), Some(300));
    assert_eq!(ttl_from_ttl_value(Some(&Value::integer(90))), Some(90));
    assert_eq!(ttl_from_ttl_value(Some(&Value::integer(0))), Some(300));
    assert_eq!(ttl_from_ttl_value(Some(&Value::integer(-90))), Some(300));
    assert_eq!(
        ttl_from_ttl_value(Some(&Value::Number(Number::Float("90.0".to_string())))),
        Some(300)
    );
}

#[test]
fn one_hour_is_long() {
    assert!(!is_one_hour_ttl(3599));
    assert!(is_one_hour_ttl(3600));
    assert!(is_one_hour_ttl(7200));
}

#[test]
fn the_largest_models_need_larger_prompts() {
    assert_eq!(min_cacheable_tokens("opus-4-8"), 4096);
    assert_eq!(min_cacheable_tokens("OPUS-4"), 4096);
    assert_eq!(min_cacheable_tokens("sonnet-4-5-20250929"), 1024);
    assert_eq!(min_cacheable_tokens(""), 1024);
    assert_eq!(min_tokens_for_lowered("opus"), 4096);
    assert_eq!(min_tokens_for_lowered("OPUS"), 1024);
}
