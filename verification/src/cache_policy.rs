//! The default cache policy, for requests without cache controls of their own.
//!
//! Explicit `cache_control` markers always win. Where the client gave none, long and stable
//! prefixes of the request get a cache breakpoint.
use crate::assoc::lookup;
use crate::json::{get_member, items_view, lemma_view, Json, Value};
use crate::stable_json::{
    add_member, object_text, pairs_view, render_object, stable_json, stable_text, string_literal,
    to_json_string,
};
use crate::text::opt_text;
use crate::tokens::{
    counts_by, is_counter, sum_counts, sums_fit, tokens, tokens_in, total, TokenModel,
};
use crate::types::{MessagesRequest, SystemMessage, Tool};
use vstd::prelude::*;
use vstd::slice::slice_subrange;

verus! {

/// The least number of tokens that is cached without being asked for.
pub const DEFAULT_MIN_AUTO_CACHE_TOKENS: i32 = 1024;

/// A content value with a cache control: an object with the member, or an array that holds such a
/// value at any depth.
pub open spec fn marked(content: Json) -> bool
    decreases content,
{
    match content {
        Json::Object(members) => lookup(members, "cache_control"@) is Some,
        Json::Array(items) => any_marked(items),
        _ => false,
    }
}

/// One of `items` is [`marked`].
pub open spec fn any_marked(items: Seq<Json>) -> bool
    decreases items,
{
    items.len() > 0 && (any_marked(items.drop_last()) || marked(items[items.len() - 1]))
}

/// The request holds a cache control on a tool, a system block, a message or a content block.
pub open spec fn explicit(req: MessagesRequest) -> bool {
    ||| req.tools matches Some(tools) && exists|i: int|
        0 <= i < tools@.len() && (#[trigger] tools@[i]).cache_control is Some
    ||| req.system matches Some(system) && exists|i: int|
        0 <= i < system@.len() && (#[trigger] system@[i]).cache_control is Some
    ||| exists|i: int|
        0 <= i < req.messages@.len() && ((#[trigger] req.messages@[i]).cache_control is Some
            || marked(req.messages@[i].content@))
}

/// The counts of the system blocks.
pub open spec fn system_counts(system: Seq<SystemMessage>, model: TokenModel) -> Seq<i32> {
    Seq::new(system.len(), |i: int| tokens(model, system[i].text@))
}

/// The text by which a tool is measured.
pub open spec fn tool_text(tool: Tool) -> Seq<char> {
    object_text(
        seq![
            ("name"@, string_literal(tool.name@)),
            ("description"@, string_literal(tool.description@)),
            ("input_schema"@, stable_text(tool.input_schema@)),
        ],
    )
}

/// The counts of the tools.
pub open spec fn tool_counts(tools: Seq<Tool>, model: TokenModel) -> Seq<i32> {
    Seq::new(tools.len(), |i: int| tokens(model, tool_text(tools[i])))
}

/// The text of a content block: its `text`, or its `thinking` where it has no `text`.
pub open spec fn part_text(part: Json) -> Option<Seq<char>> {
    match part.get("text"@) {
        Some(text) => text.as_str(),
        None => part.get_str("thinking"@),
    }
}

/// The count of a content block: that of its text, or else of its canonical rendering.
pub open spec fn part_count(part: Json, model: TokenModel) -> i32 {
    match part_text(part) {
        Some(text) => tokens(model, text),
        None => tokens(model, stable_text(part)),
    }
}

/// The counts that make up the count of a message.
pub open spec fn content_counts(content: Json, model: TokenModel) -> Seq<i32> {
    match content {
        Json::String(text) => seq![tokens(model, text)],
        Json::Array(parts) => Seq::new(parts.len(), |i: int| part_count(parts[i], model)),
        other => seq![tokens(model, stable_text(other))],
    }
}

/// The system prompt is long enough.
pub open spec fn system_is_long(req: MessagesRequest, model: TokenModel) -> bool {
    req.system matches Some(system) && total(system_counts(system@, model))
        >= DEFAULT_MIN_AUTO_CACHE_TOKENS
}

/// The message is one of the history, and long enough.
pub open spec fn message_is_long(req: MessagesRequest, index: int, model: TokenModel) -> bool {
    index + 1 < req.messages@.len() && total(content_counts(req.messages@[index].content@, model))
        >= DEFAULT_MIN_AUTO_CACHE_TOKENS
}

/// The tools up to this one are long enough together.
pub open spec fn tools_are_long(req: MessagesRequest, index: int, model: TokenModel) -> bool {
    req.tools matches Some(tools) && index < tools@.len() && total(
        tool_counts(tools@.take(index + 1), model),
    ) >= DEFAULT_MIN_AUTO_CACHE_TOKENS
}

/// Whether `value` is an object with a cache control or an array that holds one.
pub fn value_has_cache_control(value: &Value) -> (found: bool)
    ensures
        found == marked(value@),
    decreases value,
{
    proof {
        lemma_view(*value);
    }
    match value {
        Value::Object(members) => get_member(members, "cache_control").is_some(),
        Value::Array(items) => {
            let mut n: usize = 0;
            while n < items.len()
                invariant
                    n <= items@.len(),
                    *value == Value::Array(*items),
                    value@ == Json::Array(items_view(items@)),
                    !any_marked(items_view(items@).take(n as int)),
                decreases items@.len() - n,
            {
                proof {
                    assert(items_view(items@).take(n + 1).drop_last() == items_view(items@).take(
                        n as int,
                    ));
                    assert(decreases_to!(value => value->Array_0));
                    assert(decreases_to!(value->Array_0 => value->Array_0@));
                    assert(decreases_to!(value->Array_0@ => value->Array_0@[n as int]));
                }
                if value_has_cache_control(&items[n]) {
                    proof {
                        lemma_any_marked(items_view(items@), n as int);
                    }
                    return true;
                }
                n = n + 1;
            }
            proof {
                assert(items_view(items@).take(n as int) == items_view(items@));
            }
            false
        },
        _ => false,
    }
}

/// A marked item marks the array.
pub proof fn lemma_any_marked(items: Seq<Json>, n: int)
    requires
        0 <= n < items.len(),
        marked(items[n]),
    ensures
        any_marked(items),
    decreases items.len(),
{
    if n < items.len() - 1 {
        lemma_any_marked(items.drop_last(), n);
    }
}

/// Whether the request holds a cache control anywhere.
pub fn has_explicit_cache_control(req: &MessagesRequest) -> (found: bool)
    ensures
        found == explicit(*req),
{
    if let Some(tools) = &req.tools {
        let mut n: usize = 0;
        while n < tools.len()
            invariant
                n <= tools@.len(),
                req.tools == Some(*tools),
                forall|i: int| 0 <= i < n ==> (#[trigger] tools@[i]).cache_control is None,
            decreases tools@.len() - n,
        {
            if tools[n].cache_control.is_some() {
                return true;
            }
            n = n + 1;
        }
    }
    if let Some(system) = &req.system {
        let mut n: usize = 0;
        while n < system.len()
            invariant
                n <= system@.len(),
                req.system == Some(*system),
                forall|i: int| 0 <= i < n ==> (#[trigger] system@[i]).cache_control is None,
            decreases system@.len() - n,
        {
            if system[n].cache_control.is_some() {
                return true;
            }
            n = n + 1;
        }
    }
    let mut n: usize = 0;
    while n < req.messages.len()
        invariant
            n <= req.messages@.len(),
            forall|i: int|
                0 <= i < n ==> (#[trigger] req.messages@[i]).cache_control is None && !marked(
                    req.messages@[i].content@,
                ),
        decreases req.messages@.len() - n,
    {
        if req.messages[n].cache_control.is_some() || value_has_cache_control(
            &req.messages[n].content,
        ) {
            return true;
        }
        n = n + 1;
    }
    false
}

/// Whether the default policy applies: the client gave no cache control.
pub fn should_use_default_cache(req: &MessagesRequest) -> (default: bool)
    ensures
        default == !explicit(*req),
{
    !has_explicit_cache_control(req)
}

/// The counts of the system blocks.
pub(crate) fn count_system<F: Fn(&str) -> u64>(system: &Vec<SystemMessage>, count: &F) -> (counts:
    Vec<i32>)
    requires
        is_counter(count),
    ensures
        forall|model: TokenModel| #[trigger]
            counts_by(count, model) ==> counts@ == system_counts(system@, model),
{
    let mut counts: Vec<i32> = Vec::new();
    let mut n: usize = 0;
    while n < system.len()
        invariant
            n <= system@.len(),
            is_counter(count),
            forall|model: TokenModel| #[trigger]
                counts_by(count, model) ==> counts@ == system_counts(system@, model).take(n as int),
        decreases system@.len() - n,
    {
        counts.push(tokens_in(count, system[n].text.as_str()));
        n = n + 1;
    }
    counts
}

/// Whether the system prompt is cached by default.
pub fn should_auto_cache_system<F: Fn(&str) -> u64>(req: &MessagesRequest, count: &F) -> (auto:
    bool)
    requires
        is_counter(count),
        forall|model: TokenModel| #[trigger]
            counts_by(count, model) ==> (req.system matches Some(system) ==> sums_fit(
                system_counts(system@, model),
            )),
    ensures
        forall|model: TokenModel| #[trigger]
            counts_by(count, model) ==> auto == system_is_long(*req, model),
{
    match &req.system {
        Some(system) => {
            let counts = count_system(system, count);
            sum_counts(&counts) >= DEFAULT_MIN_AUTO_CACHE_TOKENS
        },
        None => false,
    }
}

/// The text by which a tool is measured.
fn render_tool(tool: &Tool) -> (text: String)
    ensures
        text@ == tool_text(*tool),
{
    let mut members: Vec<(String, String)> = Vec::new();
    add_member(&mut members, "name", to_json_string(tool.name.as_str()).unwrap());
    add_member(&mut members, "description", to_json_string(tool.description.as_str()).unwrap());
    add_member(&mut members, "input_schema", stable_json(&tool.input_schema));
    proof {
        assert(pairs_view(members@) =~= seq![
            ("name"@, string_literal(tool.name@)),
            ("description"@, string_literal(tool.description@)),
            ("input_schema"@, stable_text(tool.input_schema@)),
        ]);
    }
    render_object(&members)
}

/// The counts of the tools.
pub(crate) fn count_tools<F: Fn(&str) -> u64>(tools: &[Tool], count: &F) -> (counts: Vec<i32>)
    requires
        is_counter(count),
    ensures
        forall|model: TokenModel| #[trigger]
            counts_by(count, model) ==> counts@ == tool_counts(tools@, model),
{
    let mut counts: Vec<i32> = Vec::new();
    let mut n: usize = 0;
    while n < tools.len()
        invariant
            n <= tools@.len(),
            is_counter(count),
            forall|model: TokenModel| #[trigger]
                counts_by(count, model) ==> counts@ == tool_counts(tools@, model).take(n as int),
        decreases tools@.len() - n,
    {
        let text = render_tool(&tools[n]);
        counts.push(tokens_in(count, text.as_str()));
        n = n + 1;
    }
    counts
}

/// The count of `tools` together.
pub fn count_tools_tokens<F: Fn(&str) -> u64>(tools: &[Tool], count: &F) -> (sum: i32)
    requires
        is_counter(count),
        forall|model: TokenModel| #[trigger]
            counts_by(count, model) ==> sums_fit(tool_counts(tools@, model)),
    ensures
        forall|model: TokenModel| #[trigger]
            counts_by(count, model) ==> sum == total(tool_counts(tools@, model)),
{
    let counts = count_tools(tools, count);
    sum_counts(&counts)
}

/// Whether a tool is cached by default: the tools up to it are long enough together.
pub fn should_auto_cache_tool<F: Fn(&str) -> u64>(
    req: &MessagesRequest,
    index: usize,
    count: &F,
) -> (auto: bool)
    requires
        is_counter(count),
        forall|model: TokenModel| #[trigger]
            counts_by(count, model) ==> (req.tools matches Some(tools) ==> (index < tools@.len()
                ==> sums_fit(tool_counts(tools@.take(index + 1), model)))),
    ensures
        forall|model: TokenModel| #[trigger]
            counts_by(count, model) ==> auto == tools_are_long(*req, index as int, model),
{
    match &req.tools {
        Some(tools) => {
            if index >= tools.len() {
                false
            } else {
                let upto = slice_subrange(tools.as_slice(), 0, index + 1);
                count_tools_tokens(upto, count) >= DEFAULT_MIN_AUTO_CACHE_TOKENS
            }
        },
        None => false,
    }
}

/// The text of a content block: its `text`, or its `thinking` where it has no `text`.
pub fn text_of_part(part: &Value) -> (text: Option<&str>)
    ensures
        opt_text(text) == part_text(part@),
{
    match part.get("text") {
        Some(text) => text.as_str(),
        None => part.get_str("thinking"),
    }
}

/// The counts that make up the count of a message.
pub(crate) fn count_content<F: Fn(&str) -> u64>(value: &Value, count: &F) -> (counts: Vec<i32>)
    requires
        is_counter(count),
    ensures
        forall|model: TokenModel| #[trigger]
            counts_by(count, model) ==> counts@ == content_counts(value@, model),
{
    proof {
        lemma_view(*value);
    }
    let mut counts: Vec<i32> = Vec::new();
    match value {
        Value::String(text) => {
            counts.push(tokens_in(count, text.as_str()));
        },
        Value::Array(parts) => {
            let mut n: usize = 0;
            while n < parts.len()
                invariant
                    n <= parts@.len(),
                    is_counter(count),
                    value@ == Json::Array(items_view(parts@)),
                    forall|model: TokenModel| #[trigger]
                        counts_by(count, model) ==> counts@ == content_counts(value@, model).take(
                            n as int,
                        ),
                decreases parts@.len() - n,
            {
                let next: i32 = match text_of_part(&parts[n]) {
                    Some(text) => tokens_in(count, text),
                    None => {
                        let text = stable_json(&parts[n]);
                        tokens_in(count, text.as_str())
                    },
                };
                counts.push(next);
                n = n + 1;
            }
        },
        other => {
            let text = stable_json(other);
            counts.push(tokens_in(count, text.as_str()));
        },
    }
    counts
}

/// The count of a message's content.
pub fn count_message_tokens<F: Fn(&str) -> u64>(value: &Value, count: &F) -> (sum: i32)
    requires
        is_counter(count),
        forall|model: TokenModel| #[trigger]
            counts_by(count, model) ==> sums_fit(content_counts(value@, model)),
    ensures
        forall|model: TokenModel| #[trigger]
            counts_by(count, model) ==> sum == total(content_counts(value@, model)),
{
    let counts = count_content(value, count);
    sum_counts(&counts)
}

/// Whether a message is cached by default. Only the history is stable enough: the last message
/// commonly changes from call to call.
pub fn should_auto_cache_message<F: Fn(&str) -> u64>(
    req: &MessagesRequest,
    index: usize,
    count: &F,
) -> (auto: bool)
    requires
        is_counter(count),
        forall|model: TokenModel| #[trigger]
            counts_by(count, model) ==> (index + 1 < req.messages@.len() ==> sums_fit(
                content_counts(req.messages@[index as int].content@, model),
            )),
    ensures
        forall|model: TokenModel| #[trigger]
            counts_by(count, model) ==> auto == message_is_long(*req, index as int, model),
{
    if index >= req.messages.len() {
        return false;
    }
    if req.messages.len() - 1 <= index {
        return false;
    }
    count_message_tokens(&req.messages[index].content, count) >= DEFAULT_MIN_AUTO_CACHE_TOKENS
}

} // verus!
