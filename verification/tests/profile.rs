use prompt_cache::blocks::{append_tool_block, flatten_cache_blocks, CacheableBlock};
use prompt_cache::json::Value;
use prompt_cache::profile::{
    build_profile, hash_chunk, policy_sums_in_range, profile_from_blocks, try_build_profile,
    TokenOverflow,
};
use prompt_cache::tracker::PromptCacheTracker;
use prompt_cache::types::{CacheControl, Message, MessagesRequest, SystemMessage, Tool};

fn text(s: &str) -> Value {
    Value::String(s.to_string())
}

fn object(members: Vec<(&str, Value)>) -> Value {
    Value::Object(members.into_iter().map(|(k, v)| (k.to_string(), v)).collect())
}

fn chars(text: &str) -> u64 {
    text.chars().count() as u64
}

fn ephemeral(ttl: Option<&str>) -> Option<CacheControl> {
    Some(CacheControl { cache_type: "ephemeral".to_string(), ttl: ttl.map(str::to_string) })
}

fn message(role: &str, content: Value) -> Message {
    Message { role: role.to_string(), content, cache_control: None }
}

fn block(value: &str, tokens: i32, ttl: Option<u64>) -> CacheableBlock {
    CacheableBlock { value: value.to_string(), tokens, ttl }
}

fn mixed_request() -> MessagesRequest {
    MessagesRequest {
        model: "m".to_string(),
        messages: vec![message("user", text("hi")), message("assistant", Value::Null)],
        system: Some(vec![SystemMessage { text: "be brief".to_string(), cache_control: None }]),
        tools: Some(vec![Tool {
            name: "add".to_string(),
            description: "Adds \"numbers\"".to_string(),
            input_schema: object(vec![("type", text("object")), ("properties", object(vec![]))]),
            cache_control: None,
        }]),
    }
}

#[test]
fn blocks_stand_in_the_order_of_the_prompt() {
    let mut req = mixed_request();
    req.messages[1].cache_control = ephemeral(Some("1h"));
    let blocks = flatten_cache_blocks(&req, &chars);
    let values: Vec<&str> = blocks.iter().map(|b| b.value.as_str()).collect();
    assert_eq!(
        values,
        vec![
            "{\"description\":\"Adds \\\"numbers\\\"\",\"input_schema\":{\"properties\":{},\"type\":\"object\"},\"kind\":\"tool\",\"name\":\"add\"}",
            "{\"kind\":\"system\",\"text\":\"be brief\",\"type\":\"text\"}",
            "{\"index\":0,\"kind\":\"message\",\"role\":\"user\",\"text\":\"hi\",\"type\":\"text\"}",
            "{\"content\":null,\"index\":1,\"kind\":\"message\",\"role\":\"assistant\"}",
        ]
    );
    let tokens: Vec<i32> = blocks.iter().map(|b| b.tokens).collect();
    assert_eq!(tokens, vec![110, 8, 2, 62]);
    let lives: Vec<Option<u64>> = blocks.iter().map(|b| b.ttl).collect();
    assert_eq!(lives, vec![None, None, None, Some(3600)]);
}

#[test]
fn fingerprints_are_digests_of_the_framed_blocks() {
    let mut req = mixed_request();
    req.tools.as_mut().unwrap()[0].cache_control = ephemeral(None);
    req.system.as_mut().unwrap()[0].cache_control = ephemeral(Some("1h"));
    req.messages[1].cache_control = ephemeral(Some("7"));
    let profile = build_profile(&req, 0, &chars).unwrap();
    let seen: Vec<(&str, i32, u64)> = profile
        .breakpoints
        .iter()
        .map(|b| (b.fingerprint.as_str(), b.cumulative_tokens, b.ttl))
        .collect();
    assert_eq!(
        seen,
        vec![
            ("af283f633267b92ab367f06a7a191a4e47eca4c9f8b5d63739c900f2754a4a8e", 110, 300),
            ("c77fe910a54a6512f8a20a91c05d6bcccf301332347533bbd7e08ad27054d038", 118, 3600),
            ("eb5b2e5a529a808dcaea3cbdaaad24c83b58702a71403fd53209a8feaf168bae", 182, 7),
        ]
    );
    assert_eq!(profile.total_input_tokens, 182);
    assert_eq!(profile.model, "m");
}

#[test]
fn a_content_block_with_a_control_is_a_breakpoint() {
    let part = object(vec![
        ("type", text("text")),
        ("text", text("héllo")),
        ("cache_control", object(vec![("type", text("ephemeral"))])),
    ]);
    let req = MessagesRequest {
        model: "m".to_string(),
        messages: vec![message("user", Value::Array(vec![part]))],
        system: None,
        tools: None,
    };
    let profile = build_profile(&req, 3, &chars).unwrap();
    assert_eq!(profile.breakpoints.len(), 1);
    assert_eq!(
        profile.breakpoints[0].fingerprint,
        "0f99018055a5180a0a2e28320a48aaf388b76897ea3beee526584553b5599da2"
    );
    assert_eq!(profile.breakpoints[0].cumulative_tokens, 5);
    assert_eq!(profile.total_input_tokens, 5);
}

#[test]
fn a_message_control_counts_for_the_last_content_block() {
    let part = |t: &str| object(vec![("text", text(t))]);
    let with_own = object(vec![
        ("text", text("own")),
        ("cache_control", object(vec![("type", text("ephemeral")), ("ttl", text("1h"))])),
    ]);
    let mut req = MessagesRequest {
        model: "m".to_string(),
        messages: vec![message("user", Value::Array(vec![part("one"), part("two")]))],
        system: None,
        tools: None,
    };
    req.messages[0].cache_control = ephemeral(Some("60"));
    let lives: Vec<Option<u64>> =
        flatten_cache_blocks(&req, &chars).iter().map(|b| b.ttl).collect();
    assert_eq!(lives, vec![None, Some(60)]);
    req.messages[0].content = Value::Array(vec![part("one"), with_own]);
    let lives: Vec<Option<u64>> =
        flatten_cache_blocks(&req, &chars).iter().map(|b| b.ttl).collect();
    assert_eq!(lives, vec![None, Some(3600)]);
    req.messages[0].content = Value::Array(vec![]);
    assert!(flatten_cache_blocks(&req, &chars).is_empty());
    assert!(build_profile(&req, 10, &chars).is_none());
}

#[test]
fn an_empty_text_is_measured_by_the_rendering() {
    let req = MessagesRequest {
        model: "m".to_string(),
        messages: vec![message("user", Value::Array(vec![object(vec![("text", text(""))])]))],
        system: None,
        tools: None,
    };
    let blocks = flatten_cache_blocks(&req, &chars);
    assert_eq!(blocks[0].tokens, "{\"text\":\"\"}".len() as i32);
}

#[test]
fn explicit_controls_switch_the_default_policy_off() {
    let mut req = mixed_request();
    req.system = Some(vec![SystemMessage { text: "x".repeat(2000), cache_control: None }]);
    let lives: Vec<Option<u64>> =
        flatten_cache_blocks(&req, &chars).iter().map(|b| b.ttl).collect();
    assert_eq!(lives, vec![None, Some(300), None, None]);
    req.messages[1].cache_control = Some(CacheControl {
        cache_type: "unknown".to_string(),
        ttl: None,
    });
    let lives: Vec<Option<u64>> =
        flatten_cache_blocks(&req, &chars).iter().map(|b| b.ttl).collect();
    assert_eq!(lives, vec![None, None, None, None]);
    assert!(build_profile(&req, 0, &chars).is_none());
}

#[test]
fn long_tools_and_history_get_default_breakpoints() {
    let mut req = mixed_request();
    req.tools.as_mut().unwrap()[0].description = "x".repeat(2000);
    req.messages[0].content = text(&"y".repeat(1500));
    let lives: Vec<Option<u64>> =
        flatten_cache_blocks(&req, &chars).iter().map(|b| b.ttl).collect();
    assert_eq!(lives, vec![Some(300), None, Some(300), None]);
}

#[test]
fn a_tool_block_is_appended() {
    let req = mixed_request();
    let tool = &req.tools.as_ref().unwrap()[0];
    let mut blocks = vec![block("first", 1, None)];
    append_tool_block(&mut blocks, tool, true, &chars);
    append_tool_block(&mut blocks, tool, false, &chars);
    assert_eq!(blocks.len(), 3);
    assert_eq!(blocks[0].value, "first");
    assert_eq!(blocks[1].ttl, Some(300));
    assert_eq!(blocks[2].ttl, None);
    assert_eq!(blocks[1].value, blocks[2].value);
}

#[test]
fn chunks_are_framed() {
    let mut hashed = vec![9u8];
    hash_chunk(&mut hashed, "é");
    hash_chunk(&mut hashed, "");
    let mut expected = vec![9u8];
    expected.extend_from_slice(b"2\0\xc3\xa9\x000\0\0");
    assert_eq!(hashed, expected);
}

#[test]
fn frames_keep_chunks_apart() {
    let mut one = Vec::new();
    hash_chunk(&mut one, "ab");
    hash_chunk(&mut one, "c");
    let mut other = Vec::new();
    hash_chunk(&mut other, "a");
    hash_chunk(&mut other, "bc");
    assert_ne!(one, other);
}

#[test]
fn profiles_of_blocks() {
    let one = profile_from_blocks(&vec![block("abc", 3, Some(300))], -5, "m").unwrap();
    assert_eq!(
        one.breakpoints[0].fingerprint,
        "1cf438463810127bb9d2db9d0f6bbb79f9c3d5bafce5089e104aa41dd36ecbf9"
    );
    assert_eq!(one.total_input_tokens, 3);
    let two = profile_from_blocks(
        &vec![block("abc", 3, Some(300)), block("", 0, Some(5))],
        2000,
        "m",
    )
    .unwrap();
    assert_eq!(two.breakpoints[0].fingerprint, one.breakpoints[0].fingerprint);
    assert_eq!(
        two.breakpoints[1].fingerprint,
        "aa3e289a9ede4ae539fa6e9d2f06a0f4a71aea234fbd2ad4470f9f244d0da218"
    );
    assert_eq!(two.total_input_tokens, 2000);
    let nothing = profile_from_blocks(&vec![block("", 0, Some(1))], 0, "m").unwrap();
    assert_eq!(nothing.total_input_tokens, 1);
    assert!(profile_from_blocks(&vec![block("abc", 3, None)], 10, "m").is_none());
    assert!(profile_from_blocks(&vec![], 10, "m").is_none());
}

#[test]
fn a_longer_prompt_keeps_its_first_breakpoints() {
    let mut req = mixed_request();
    req.messages[0].cache_control = ephemeral(None);
    let first = build_profile(&req, 0, &chars).unwrap();
    req.messages.push(message("user", text("more")));
    req.messages[2].cache_control = ephemeral(None);
    let longer = build_profile(&req, 0, &chars).unwrap();
    assert_eq!(first.breakpoints.len(), 1);
    assert_eq!(longer.breakpoints.len(), 2);
    assert_eq!(first.breakpoints[0].fingerprint, longer.breakpoints[0].fingerprint);
    assert_ne!(longer.breakpoints[0].fingerprint, longer.breakpoints[1].fingerprint);
}

#[test]
fn fingerprints_ignore_the_order_of_members() {
    let mut req = mixed_request();
    req.tools.as_mut().unwrap()[0].cache_control = ephemeral(None);
    let first = build_profile(&req, 0, &chars).unwrap();
    req.tools.as_mut().unwrap()[0].input_schema =
        object(vec![("properties", object(vec![])), ("type", text("object"))]);
    let second = build_profile(&req, 0, &chars).unwrap();
    assert_eq!(first.breakpoints[0].fingerprint, second.breakpoints[0].fingerprint);
    req.tools.as_mut().unwrap()[0].input_schema = object(vec![("type", text("object"))]);
    let third = build_profile(&req, 0, &chars).unwrap();
    assert_ne!(first.breakpoints[0].fingerprint, third.breakpoints[0].fingerprint);
}

#[test]
fn counts_that_cannot_be_added_up_are_refused() {
    let most = |_: &str| i32::MAX as u64;
    let mut req = mixed_request();
    assert_eq!(policy_sums_in_range(&req, &most), true);
    assert_eq!(try_build_profile(&req, 0, &most).err(), Some(TokenOverflow));
    let twice = SystemMessage { text: "b".to_string(), cache_control: None };
    req.system.as_mut().unwrap().push(twice);
    assert_eq!(policy_sums_in_range(&req, &most), false);
    assert_eq!(try_build_profile(&req, 0, &most).err(), Some(TokenOverflow));
    req.messages[1].cache_control = ephemeral(None);
    assert_eq!(policy_sums_in_range(&req, &most), true);
    assert_eq!(try_build_profile(&req, 0, &most).err(), Some(TokenOverflow));
    let tried = try_build_profile(&req, 10, &chars).unwrap().unwrap();
    let built = PromptCacheTracker::new().build_profile(&req, 10, &chars).unwrap();
    assert_eq!(tried.breakpoints[0].fingerprint, built.breakpoints[0].fingerprint);
    assert!(matches!(try_build_profile(&mixed_request(), 0, &chars), Ok(None)));
}
