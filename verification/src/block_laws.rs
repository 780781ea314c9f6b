//! Laws of the blocks of a request: what they say, how they are measured, and how long they live.
use crate::assoc::{distinct_keys, lemma_position, lookup, position};
use crate::blocks::{
    message_blocks, messages_blocks, other_message_value, part_value, request_blocks, system_value,
    text_message_value, tool_value,
};
use crate::cache_policy::{
    any_marked, content_counts, explicit, lemma_any_marked, marked, message_is_long, part_text,
    system_counts, system_is_long, tool_counts, tool_text, tools_are_long,
};
use crate::json::{Json, NumberModel};
use crate::json_cut::sound;
use crate::json_laws::{has_counterpart, law_stable_text_identifies_value, same_json};
use crate::profile::{block_counts, request_sums_fit, stream};
use crate::request_laws::law_stream_identifies_prompt;
use crate::stable_json::{lemma_member_texts, member_texts, object_text, stable_text};
use crate::tokens::{sums_fit, total, TokenModel};
use crate::ttl::{control_ttl, value_ttl};
use crate::types::{Message, MessagesRequest, SystemMessage, Tool};
use vstd::prelude::*;

verus! {

/// What a block of a request is made of.
pub enum Content {
    Tool { name: Seq<char>, description: Seq<char>, schema: Json },
    System { text: Seq<char> },
    Text { role: Seq<char>, index: nat, text: Seq<char> },
    Part { role: Seq<char>, index: nat, block_index: nat, part: Json },
    Other { role: Seq<char>, index: nat, content: Json },
}

/// The members of the JSON object that a block is rendered from.
pub open spec fn content_members(content: Content) -> Seq<(Seq<char>, Json)> {
    match content {
        Content::Tool { name, description, schema } => seq![
            ("kind"@, Json::String("tool"@)),
            ("name"@, Json::String(name)),
            ("description"@, Json::String(description)),
            ("input_schema"@, schema),
        ],
        Content::System { text } => seq![
            ("kind"@, Json::String("system"@)),
            ("type"@, Json::String("text"@)),
            ("text"@, Json::String(text)),
        ],
        Content::Text { role, index, text } => seq![
            ("kind"@, Json::String("message"@)),
            ("role"@, Json::String(role)),
            ("index"@, Json::Number(NumberModel::PosInt(index))),
            ("type"@, Json::String("text"@)),
            ("text"@, Json::String(text)),
        ],
        Content::Part { role, index, block_index, part } => seq![
            ("kind"@, Json::String("message"@)),
            ("role"@, Json::String(role)),
            ("index"@, Json::Number(NumberModel::PosInt(index))),
            ("blockIndex"@, Json::Number(NumberModel::PosInt(block_index))),
            ("block"@, part),
        ],
        Content::Other { role, index, content } => seq![
            ("kind"@, Json::String("message"@)),
            ("role"@, Json::String(role)),
            ("index"@, Json::Number(NumberModel::PosInt(index))),
            ("content"@, content),
        ],
    }
}

/// The JSON object that a block is rendered from.
pub open spec fn content_json(content: Content) -> Json {
    Json::Object(content_members(content))
}

/// The JSON values in a block's content are sound.
pub open spec fn sound_content(content: Content) -> bool {
    match content {
        Content::Tool { name, description, schema } => sound(schema),
        Content::Part { role, index, block_index, part } => sound(part),
        Content::Other { role, index, content } => sound(content),
        _ => true,
    }
}

/// Two contents are the same but for the order of members in JSON objects.
pub open spec fn same_content(a: Content, b: Content) -> bool {
    match (a, b) {
        (
            Content::Tool { name: n, description: d, schema: s },
            Content::Tool { name: m, description: e, schema: t },
        ) => n == m && d == e && same_json(s, t),
        (Content::System { text: s }, Content::System { text: t }) => s == t,
        (
            Content::Text { role: r, index: i, text: s },
            Content::Text { role: q, index: j, text: t },
        ) => r == q && i == j && s == t,
        (
            Content::Part { role: r, index: i, block_index: k, part: s },
            Content::Part { role: q, index: j, block_index: l, part: t },
        ) => r == q && i == j && k == l && same_json(s, t),
        (
            Content::Other { role: r, index: i, content: s },
            Content::Other { role: q, index: j, content: t },
        ) => r == q && i == j && same_json(s, t),
        _ => false,
    }
}

/// How the names that blocks use begin, and how long they are.
proof fn lemma_names()
    ensures
        "kind"@.len() == 4 && "kind"@[0] == 'k',
        "name"@.len() == 4 && "name"@[0] == 'n',
        "role"@.len() == 4 && "role"@[0] == 'r',
        "type"@.len() == 4 && "type"@[0] == 't' && "type"@[1] == 'y',
        "text"@.len() == 4 && "text"@[0] == 't' && "text"@[1] == 'e',
        "index"@.len() == 5 && "index"@[0] == 'i',
        "block"@.len() == 5 && "block"@[0] == 'b',
        "content"@.len() == 7,
        "blockIndex"@.len() == 10,
        "description"@.len() == 11,
        "input_schema"@.len() == 12,
        "tool"@.len() == 4,
        "system"@.len() == 6,
        "message"@.len() == 7,
{
    reveal_strlit("kind");
    reveal_strlit("name");
    reveal_strlit("role");
    reveal_strlit("type");
    reveal_strlit("text");
    reveal_strlit("index");
    reveal_strlit("block");
    reveal_strlit("content");
    reveal_strlit("blockIndex");
    reveal_strlit("description");
    reveal_strlit("input_schema");
    reveal_strlit("tool");
    reveal_strlit("system");
    reveal_strlit("message");
}

/// The object of a block is sound if its content is.
proof fn lemma_sound_content(content: Content)
    requires
        sound_content(content),
    ensures
        sound(content_json(content)),
{
    lemma_names();
    let members = content_members(content);
    assert(distinct_keys(members));
    assert forall|i: int| #![trigger members[i]] 0 <= i < members.len() implies sound(
        members[i].1,
    ) by {}
}

/// A member of one of two objects that are the same has its counterpart in the other.
proof fn lemma_counterpart(x: Seq<(Seq<char>, Json)>, y: Seq<(Seq<char>, Json)>, i: int) -> (j: int)
    requires
        same_json(Json::Object(x), Json::Object(y)),
        0 <= i < x.len(),
    ensures
        0 <= j < y.len(),
        x[i].0 == y[j].0,
        same_json(x[i].1, y[j].1),
{
    assert(has_counterpart(x[i], y));
    choose|j: int|
        #![trigger y[j]]
        0 <= j < y.len() && x[i].0 == y[j].0 && same_json(x[i].1, y[j].1)
}

/// The text of a block identifies the content that it stands for: contents with the same text are
/// of the same kind, and the same but for the order of members in JSON objects.
pub proof fn law_block_text_identifies_content(a: Content, b: Content)
    requires
        sound_content(a),
        sound_content(b),
        stable_text(content_json(a)) == stable_text(content_json(b)),
    ensures
        same_content(a, b),
{
    lemma_sound_content(a);
    lemma_sound_content(b);
    law_stable_text_identifies_value(content_json(a), content_json(b));
    lemma_names();
    let x = content_members(a);
    let y = content_members(b);
    let kind = lemma_counterpart(x, y, 0);
    let first = lemma_counterpart(x, y, 1);
    let second = lemma_counterpart(x, y, 2);
    if x.len() > 3 {
        let third = lemma_counterpart(x, y, 3);
        if x.len() > 4 {
            let fourth = lemma_counterpart(x, y, 4);
        }
    }
}

/// The rendering of a JSON object is made of its keys and the renderings of its values.
proof fn lemma_object_from_texts(
    members: Seq<(Seq<char>, Json)>,
    texts: Seq<(Seq<char>, Seq<char>)>,
)
    requires
        texts.len() == members.len(),
        forall|i: int|
            0 <= i < members.len() ==> #[trigger] texts[i] == (
                members[i].0,
                stable_text(members[i].1),
            ),
    ensures
        stable_text(Json::Object(members)) == object_text(texts),
{
    lemma_member_texts(members);
    assert(member_texts(members) =~= texts);
}

/// The text of a tool is the rendering of its name, description and schema.
pub proof fn law_text_of_a_tool(tool: Tool)
    ensures
        tool_value(tool) == stable_text(
            content_json(
                Content::Tool {
                    name: tool.name@,
                    description: tool.description@,
                    schema: tool.input_schema@,
                },
            ),
        ),
        tool_text(tool) == stable_text(
            Json::Object(
                seq![
                    ("name"@, Json::String(tool.name@)),
                    ("description"@, Json::String(tool.description@)),
                    ("input_schema"@, tool.input_schema@),
                ],
            ),
        ),
{
    let content = Content::Tool {
        name: tool.name@,
        description: tool.description@,
        schema: tool.input_schema@,
    };
    let members = content_members(content);
    let texts = Seq::new(
        members.len(),
        |i: int| (members[i].0, stable_text(members[i].1)),
    );
    lemma_object_from_texts(members, texts);
    assert(texts =~= seq![
        ("kind"@, stable_text(Json::String("tool"@))),
        ("name"@, stable_text(Json::String(tool.name@))),
        ("description"@, stable_text(Json::String(tool.description@))),
        ("input_schema"@, stable_text(tool.input_schema@)),
    ]);
    let measured = seq![
        ("name"@, Json::String(tool.name@)),
        ("description"@, Json::String(tool.description@)),
        ("input_schema"@, tool.input_schema@),
    ];
    let measured_texts = seq![
        ("name"@, stable_text(Json::String(tool.name@))),
        ("description"@, stable_text(Json::String(tool.description@))),
        ("input_schema"@, stable_text(tool.input_schema@)),
    ];
    lemma_object_from_texts(measured, measured_texts);
}

/// The text of a system block is the rendering of its text.
pub proof fn law_text_of_a_system_block(text: Seq<char>)
    ensures
        system_value(text) == stable_text(content_json(Content::System { text })),
{
    lemma_object_from_texts(
        content_members(Content::System { text }),
        seq![
            ("kind"@, stable_text(Json::String("system"@))),
            ("type"@, stable_text(Json::String("text"@))),
            ("text"@, stable_text(Json::String(text))),
        ],
    );
}

/// The texts of the blocks of a message are the renderings of its role, its place and its content.
pub proof fn law_texts_of_a_message(
    role: Seq<char>,
    index: nat,
    block_index: nat,
    text: Seq<char>,
    part: Json,
)
    ensures
        text_message_value(role, index, text) == stable_text(
            content_json(Content::Text { role, index, text }),
        ),
        part_value(role, index, block_index, part) == stable_text(
            content_json(Content::Part { role, index, block_index, part }),
        ),
        other_message_value(role, index, part) == stable_text(
            content_json(Content::Other { role, index, content: part }),
        ),
{
    let number = Json::Number(NumberModel::PosInt(index));
    lemma_object_from_texts(
        content_members(Content::Text { role, index, text }),
        seq![
            ("kind"@, stable_text(Json::String("message"@))),
            ("role"@, stable_text(Json::String(role))),
            ("index"@, stable_text(number)),
            ("type"@, stable_text(Json::String("text"@))),
            ("text"@, stable_text(Json::String(text))),
        ],
    );
    lemma_object_from_texts(
        content_members(Content::Part { role, index, block_index, part }),
        seq![
            ("kind"@, stable_text(Json::String("message"@))),
            ("role"@, stable_text(Json::String(role))),
            ("index"@, stable_text(number)),
            ("blockIndex"@, stable_text(Json::Number(NumberModel::PosInt(block_index)))),
            ("block"@, stable_text(part)),
        ],
    );
    lemma_object_from_texts(
        content_members(Content::Other { role, index, content: part }),
        seq![
            ("kind"@, stable_text(Json::String("message"@))),
            ("role"@, stable_text(Json::String(role))),
            ("index"@, stable_text(number)),
            ("content"@, stable_text(part)),
        ],
    );
}

/// The text of a content block identifies it: two sound content blocks at the same place have the
/// same text only where they are the same but for the order of members.
pub proof fn law_part_text_identifies_part(
    role: Seq<char>,
    index: nat,
    block_index: nat,
    a: Json,
    b: Json,
)
    requires
        sound(a),
        sound(b),
        part_value(role, index, block_index, a) == part_value(role, index, block_index, b),
    ensures
        same_json(a, b),
{
    law_texts_of_a_message(role, index, block_index, role, a);
    law_texts_of_a_message(role, index, block_index, role, b);
    law_block_text_identifies_content(
        Content::Part { role, index, block_index, part: a },
        Content::Part { role, index, block_index, part: b },
    );
}

/// How many blocks a message makes up: as many as its array has items, else one.
pub open spec fn message_size(message: Message) -> nat {
    match message.content@ {
        Json::Array(parts) => parts.len(),
        _ => 1,
    }
}

/// How many blocks the first `n` messages make up.
pub open spec fn messages_size(messages: Seq<Message>, n: nat) -> nat
    decreases n,
{
    if n == 0 {
        0
    } else {
        messages_size(messages, (n - 1) as nat) + message_size(messages[n - 1])
    }
}

/// How many tools a request has.
pub open spec fn tools_size(req: MessagesRequest) -> nat {
    match req.tools {
        Some(tools) => tools@.len(),
        None => 0,
    }
}

/// How many system blocks a request has.
pub open spec fn system_size(req: MessagesRequest) -> nat {
    match req.system {
        Some(system) => system@.len(),
        None => 0,
    }
}

/// Where the blocks of message `i` begin.
pub open spec fn message_at(req: MessagesRequest, i: nat) -> nat {
    tools_size(req) + system_size(req) + messages_size(req.messages@, i)
}

/// The client put a cache control somewhere: on a tool, a system block, a message, or into the
/// content of a message.
pub open spec fn has_control(req: MessagesRequest) -> bool {
    ||| exists|i: int|
        0 <= i < tools_size(req) && (#[trigger] req.tools->0@[i]).cache_control is Some
    ||| exists|i: int|
        0 <= i < system_size(req) && (#[trigger] req.system->0@[i]).cache_control is Some
    ||| exists|i: int|
        0 <= i < req.messages@.len() && (#[trigger] req.messages@[i]).cache_control is Some
    ||| exists|i: int|
        0 <= i < req.messages@.len() && marked((#[trigger] req.messages@[i]).content@)
}

/// The default policy applies exactly where the client put a cache control nowhere.
pub proof fn law_any_control_is_explicit(req: MessagesRequest)
    ensures
        explicit(req) <==> has_control(req),
{
    if explicit(req) {
        if req.tools is Some && exists|i: int|
            0 <= i < req.tools->0@.len() && (#[trigger] req.tools->0@[i]).cache_control is Some {
            let i = choose|i: int|
                0 <= i < req.tools->0@.len() && (#[trigger] req.tools->0@[i]).cache_control is Some;
            assert(req.tools->0@[i].cache_control is Some);
        }
    }
}

/// Content is marked by the member `cache_control` of an object, or by an item of an array that is
/// marked; nothing else marks it.
pub proof fn law_content_is_marked_by_its_objects(content: Json)
    ensures
        content matches Json::Object(members) ==> (marked(content) <==> exists|i: int|
            0 <= i < members.len() && (#[trigger] members[i]).0 == "cache_control"@),
        content matches Json::Array(items) ==> (marked(content) <==> exists|i: int|
            0 <= i < items.len() && marked(#[trigger] items[i])),
        !(content is Object) && !(content is Array) ==> !marked(content),
{
    if let Json::Object(members) = content {
        lemma_position(members, "cache_control"@);
        let i = position(members, "cache_control"@);
        if i < members.len() {
            assert(members[i].0 == "cache_control"@);
        }
    }
    if let Json::Array(items) = content {
        if exists|i: int| 0 <= i < items.len() && marked(#[trigger] items[i]) {
            let i = choose|i: int| 0 <= i < items.len() && marked(#[trigger] items[i]);
            lemma_any_marked(items, i);
        }
        if any_marked(items) {
            lemma_some_marked(items);
        }
    }
}

/// A marked array holds a marked item.
proof fn lemma_some_marked(items: Seq<Json>)
    requires
        any_marked(items),
    ensures
        exists|i: int| 0 <= i < items.len() && marked(#[trigger] items[i]),
    decreases items.len(),
{
    let front = items.drop_last();
    if any_marked(front) {
        lemma_some_marked(front);
        let i = choose|i: int| 0 <= i < front.len() && marked(#[trigger] front[i]);
        assert(items[i] == front[i]);
        assert(marked(items[i]));
    } else {
        assert(marked(items[items.len() - 1]));
    }
}

/// The text of a content block: that of its `text`, or of its `thinking` where it has no `text`.
pub open spec fn own_text(part: Json) -> Option<Seq<char>> {
    match part {
        Json::Object(members) => match lookup(members, "text"@) {
            Some(Json::String(text)) => Some(text),
            Some(_) => None,
            None => match lookup(members, "thinking"@) {
                Some(Json::String(text)) => Some(text),
                _ => None,
            },
        },
        _ => None,
    }
}

/// What the policy adds up, count by count: the rendering of each tool, the text of each system
/// block, and of a message its text, the texts of its content blocks, or its rendering.
pub proof fn law_what_the_policy_adds_up(
    tools: Seq<Tool>,
    system: Seq<SystemMessage>,
    content: Json,
    model: TokenModel,
    i: int,
)
    ensures
        tool_counts(tools, model).len() == tools.len(),
        0 <= i < tools.len() ==> tool_counts(tools, model)[i] == model(
            stable_text(
                Json::Object(
                    seq![
                        ("name"@, Json::String(tools[i].name@)),
                        ("description"@, Json::String(tools[i].description@)),
                        ("input_schema"@, tools[i].input_schema@),
                    ],
                ),
            ),
        ) as i32,
        system_counts(system, model).len() == system.len(),
        0 <= i < system.len() ==> system_counts(system, model)[i] == model(system[i].text@) as i32,
        content matches Json::String(text) ==> content_counts(content, model) == seq![
            model(text) as i32,
        ],
        content matches Json::Array(parts) ==> {
            &&& content_counts(content, model).len() == parts.len()
            &&& 0 <= i < parts.len() ==> content_counts(content, model)[i] == match own_text(
                parts[i],
            ) {
                Some(text) => model(text) as i32,
                None => model(stable_text(parts[i])) as i32,
            }
        },
        !(content is String) && !(content is Array) ==> content_counts(content, model) == seq![
            model(stable_text(content)) as i32,
        ],
{
    if 0 <= i < tools.len() {
        law_text_of_a_tool(tools[i]);
    }
}

/// What the policy caches: a system prompt of 1024 tokens or more, a tool where the tools up to it
/// have as many together, and a message that is not the last one and has as many.
pub proof fn law_what_is_long_enough(req: MessagesRequest, i: int, model: TokenModel)
    requires
        0 <= i,
    ensures
        system_is_long(req, model) <==> req.system is Some && total(
            system_counts(req.system->0@, model),
        ) >= 1024,
        tools_are_long(req, i, model) <==> i < tools_size(req) && total(
            tool_counts(req.tools->0@.take(i + 1), model),
        ) >= 1024,
        message_is_long(req, i, model) <==> i < req.messages@.len() - 1 && total(
            content_counts(req.messages@[i].content@, model),
        ) >= 1024,
{
}

/// The text of a content block is that of its `text`, or of its `thinking` where it has no `text`.
pub proof fn law_text_of_a_content_block(part: Json)
    ensures
        part_text(part) == own_text(part),
{
}

/// The sums of a request fit where those over its blocks do and, if the default policy applies, those
/// over its tools, over its system prompt and over each message but the last.
pub proof fn law_sums_of_a_request(req: MessagesRequest, model: TokenModel)
    ensures
        request_sums_fit(req, model) <==> {
            let blocks = request_blocks(req, model);
            &&& sums_fit(Seq::new(blocks.len(), |i: int| blocks[i].tokens))
            &&& !has_control(req) ==> {
                &&& req.tools is Some ==> sums_fit(tool_counts(req.tools->0@, model))
                &&& req.system is Some ==> sums_fit(system_counts(req.system->0@, model))
                &&& forall|i: int|
                    0 <= i < req.messages@.len() - 1 ==> sums_fit(
                        content_counts((#[trigger] req.messages@[i]).content@, model),
                    )
            }
        },
{
    law_any_control_is_explicit(req);
    let blocks = request_blocks(req, model);
    assert(block_counts(blocks) =~= Seq::new(blocks.len(), |i: int| blocks[i].tokens));
}

/// The default life where the policy caches a block.
pub open spec fn default_life(auto: bool) -> Option<int> {
    if auto {
        Some(300int)
    } else {
        None
    }
}

/// A life that was asked for, or else the default one.
pub open spec fn asked_or_default(asked: Option<int>, auto: bool) -> Option<int> {
    if asked is Some {
        asked
    } else {
        default_life(auto)
    }
}

/// The tools come first, one block each. Without cache controls a tool is cached where the tools up
/// to it have 1024 tokens together; with one anywhere only where it asks for it.
pub proof fn law_blocks_of_tools(req: MessagesRequest, model: TokenModel, i: int)
    requires
        0 <= i < tools_size(req),
    ensures
        ({
            let tool = req.tools->0@[i];
            let block = request_blocks(req, model)[i];
            let text = stable_text(
                content_json(
                    Content::Tool {
                        name: tool.name@,
                        description: tool.description@,
                        schema: tool.input_schema@,
                    },
                ),
            );
            &&& i < request_blocks(req, model).len()
            &&& block.value == text
            &&& block.tokens == model(text) as i32
            &&& has_control(req) ==> block.ttl == control_ttl(tool.cache_control)
            &&& !has_control(req) ==> block.ttl == default_life(
                total(tool_counts(req.tools->0@.take(i + 1), model)) >= 1024,
            )
        }),
{
    law_text_of_a_tool(req.tools->0@[i]);
    law_any_control_is_explicit(req);
}

/// The system prompt stands behind the tools, one block for each of its blocks. Without cache
/// controls every one of them is cached where the whole system prompt has 1024 tokens; with one
/// anywhere only where it asks for it.
pub proof fn law_blocks_of_system(req: MessagesRequest, model: TokenModel, i: int)
    requires
        0 <= i < system_size(req),
    ensures
        ({
            let system = req.system->0@[i];
            let block = request_blocks(req, model)[tools_size(req) + i];
            &&& tools_size(req) + i < request_blocks(req, model).len()
            &&& block.value == stable_text(content_json(Content::System { text: system.text@ }))
            &&& block.tokens == model(system.text@) as i32
            &&& has_control(req) ==> block.ttl == control_ttl(system.cache_control)
            &&& !has_control(req) ==> block.ttl == default_life(
                total(system_counts(req.system->0@, model)) >= 1024,
            )
        }),
{
    law_text_of_a_system_block(req.system->0@[i].text@);
    law_any_control_is_explicit(req);
}

/// Whether the default policy caches message `i`: no cache control anywhere, not the last message,
/// and 1024 tokens at least.
pub open spec fn is_cached_by_default(req: MessagesRequest, i: int, model: TokenModel) -> bool {
    &&& !has_control(req)
    &&& i < req.messages@.len() - 1
    &&& total(content_counts(req.messages@[i].content@, model)) >= 1024
}

/// The messages make up as many blocks as they have.
proof fn lemma_messages_size(req: MessagesRequest, n: nat, model: TokenModel)
    requires
        n <= req.messages@.len(),
    ensures
        messages_blocks(req, n, model).len() == messages_size(req.messages@, n),
    decreases n,
{
    if n > 0 {
        lemma_messages_size(req, (n - 1) as nat, model);
    }
}

/// The blocks of a message stand behind those of the messages before.
proof fn lemma_message_block_at(
    req: MessagesRequest,
    n: nat,
    i: nat,
    k: int,
    model: TokenModel,
)
    requires
        i < n <= req.messages@.len(),
        0 <= k < message_size(req.messages@[i as int]),
    ensures
        messages_size(req.messages@, i) + k < messages_blocks(req, n, model).len(),
        messages_blocks(req, n, model)[messages_size(req.messages@, i) + k] == message_blocks(
            req.messages@[i as int],
            i,
            is_cached_by_default(req, i as int, model),
            model,
        )[k],
    decreases n,
{
    law_any_control_is_explicit(req);
    lemma_messages_size(req, n, model);
    lemma_messages_size(req, (n - 1) as nat, model);
    if i < n - 1 {
        lemma_message_block_at(req, (n - 1) as nat, i, k, model);
    }
}

/// The blocks of the request are those of its tools, its system prompt and its messages.
pub proof fn law_number_of_blocks(req: MessagesRequest, model: TokenModel)
    ensures
        request_blocks(req, model).len() == message_at(req, req.messages@.len()),
{
    lemma_messages_size(req, req.messages@.len(), model);
}

/// A block of a message stands in the request behind tools and system prompt.
proof fn lemma_request_block_at(req: MessagesRequest, model: TokenModel, i: nat, k: int)
    requires
        i < req.messages@.len(),
        0 <= k < message_size(req.messages@[i as int]),
    ensures
        message_at(req, i) + k < request_blocks(req, model).len(),
        request_blocks(req, model)[message_at(req, i) + k] == message_blocks(
            req.messages@[i as int],
            i,
            is_cached_by_default(req, i as int, model),
            model,
        )[k],
{
    lemma_message_block_at(req, req.messages@.len(), i, k, model);
}

/// A message whose content is a string is one block, which holds its role, its place and its text.
pub proof fn law_block_of_a_text_message(req: MessagesRequest, model: TokenModel, i: nat)
    requires
        i < req.messages@.len(),
        req.messages@[i as int].content@ is String,
    ensures
        ({
            let message = req.messages@[i as int];
            let text = message.content@->String_0;
            let block = request_blocks(req, model)[message_at(req, i) as int];
            &&& message_at(req, i) < request_blocks(req, model).len()
            &&& block.value == stable_text(
                content_json(Content::Text { role: message.role@, index: i, text }),
            )
            &&& block.tokens == model(text) as i32
            &&& block.ttl == asked_or_default(
                control_ttl(message.cache_control),
                is_cached_by_default(req, i as int, model),
            )
        }),
{
    let message = req.messages@[i as int];
    lemma_request_block_at(req, model, i, 0);
    law_texts_of_a_message(message.role@, i, 0, message.content@->String_0, Json::Null);
}

/// A message whose content is an array is one block for each item, which holds the role, the two
/// places and the item. An item lives as long as it asks for; the last one, where it asks for
/// nothing, as long as the message asks for or by default.
pub proof fn law_blocks_of_content_blocks(
    req: MessagesRequest,
    model: TokenModel,
    i: nat,
    k: nat,
)
    requires
        i < req.messages@.len(),
        req.messages@[i as int].content@ matches Json::Array(parts) && k < parts.len(),
    ensures
        ({
            let message = req.messages@[i as int];
            let parts = message.content@->Array_0;
            let part = parts[k as int];
            let block = request_blocks(req, model)[(message_at(req, i) + k) as int];
            &&& message_at(req, i) + k < request_blocks(req, model).len()
            &&& block.value == stable_text(
                content_json(
                    Content::Part { role: message.role@, index: i, block_index: k, part },
                ),
            )
            &&& block.tokens == match own_text(part) {
                Some(text) => if text.len() > 0 {
                    model(text) as i32
                } else {
                    model(stable_text(part)) as i32
                },
                None => model(stable_text(part)) as i32,
            }
            &&& value_ttl(part) is Some ==> block.ttl == value_ttl(part)
            &&& value_ttl(part) is None && k + 1 == parts.len() ==> block.ttl == asked_or_default(
                control_ttl(message.cache_control),
                is_cached_by_default(req, i as int, model),
            )
            &&& value_ttl(part) is None && k + 1 < parts.len() ==> block.ttl is None
        }),
{
    let message = req.messages@[i as int];
    let part = message.content@->Array_0[k as int];
    lemma_request_block_at(req, model, i, k as int);
    law_texts_of_a_message(message.role@, i, k, Seq::empty(), part);
}

/// A message with any other content is one block, which holds its role, its place and its content.
pub proof fn law_block_of_another_message(req: MessagesRequest, model: TokenModel, i: nat)
    requires
        i < req.messages@.len(),
        !(req.messages@[i as int].content@ is String),
        !(req.messages@[i as int].content@ is Array),
    ensures
        ({
            let message = req.messages@[i as int];
            let block = request_blocks(req, model)[message_at(req, i) as int];
            let text = stable_text(
                content_json(
                    Content::Other { role: message.role@, index: i, content: message.content@ },
                ),
            );
            &&& message_at(req, i) < request_blocks(req, model).len()
            &&& block.value == text
            &&& block.tokens == model(text) as i32
            &&& block.ttl == asked_or_default(
                control_ttl(message.cache_control),
                is_cached_by_default(req, i as int, model),
            )
        }),
{
    let message = req.messages@[i as int];
    lemma_request_block_at(req, model, i, 0);
    law_texts_of_a_message(message.role@, i, 0, Seq::empty(), message.content@);
}

/// The JSON values in a request are sound.
pub open spec fn sound_request(req: MessagesRequest) -> bool {
    &&& forall|i: int|
        0 <= i < tools_size(req) ==> sound((#[trigger] req.tools->0@[i]).input_schema@)
    &&& forall|i: int|
        0 <= i < req.messages@.len() ==> sound((#[trigger] req.messages@[i]).content@)
}

/// The content stands at place `p` of the request.
pub open spec fn stands_at(req: MessagesRequest, p: int, content: Content) -> bool {
    match content {
        Content::Tool { name, description, schema } => {
            &&& 0 <= p < tools_size(req)
            &&& req.tools->0@[p].name@ == name
            &&& req.tools->0@[p].description@ == description
            &&& req.tools->0@[p].input_schema@ == schema
        },
        Content::System { text } => {
            let i = p - tools_size(req);
            &&& 0 <= i < system_size(req)
            &&& req.system->0@[i].text@ == text
        },
        Content::Text { role, index, text } => {
            &&& index < req.messages@.len()
            &&& p == message_at(req, index)
            &&& req.messages@[index as int].role@ == role
            &&& req.messages@[index as int].content@ == Json::String(text)
        },
        Content::Part { role, index, block_index, part } => {
            &&& index < req.messages@.len()
            &&& p == message_at(req, index) + block_index
            &&& req.messages@[index as int].role@ == role
            &&& req.messages@[index as int].content@ matches Json::Array(parts) && block_index
                < parts.len() && parts[block_index as int] == part
        },
        Content::Other { role, index, content } => {
            &&& index < req.messages@.len()
            &&& p == message_at(req, index)
            &&& req.messages@[index as int].role@ == role
            &&& req.messages@[index as int].content@ == content
            &&& !(content is String)
            &&& !(content is Array)
        },
    }
}

/// A place among the blocks of messages belongs to a message.
proof fn lemma_find_message(messages: Seq<Message>, n: nat, q: nat) -> (at: (nat, nat))
    requires
        n <= messages.len(),
        q < messages_size(messages, n),
    ensures
        at.0 < n,
        at.1 < message_size(messages[at.0 as int]),
        q == messages_size(messages, at.0) + at.1,
    decreases n,
{
    let before = messages_size(messages, (n - 1) as nat);
    if q < before {
        lemma_find_message(messages, (n - 1) as nat, q)
    } else {
        ((n - 1) as nat, (q - before) as nat)
    }
}

/// Each block of a request is the rendering of the content that stands there.
proof fn lemma_content_at(req: MessagesRequest, model: TokenModel, p: int) -> (content: Content)
    requires
        sound_request(req),
        0 <= p < request_blocks(req, model).len(),
    ensures
        stands_at(req, p, content),
        sound_content(content),
        request_blocks(req, model)[p].value == stable_text(content_json(content)),
{
    law_number_of_blocks(req, model);
    if p < tools_size(req) {
        law_blocks_of_tools(req, model, p);
        let tool = req.tools->0@[p];
        Content::Tool {
            name: tool.name@,
            description: tool.description@,
            schema: tool.input_schema@,
        }
    } else if p < tools_size(req) + system_size(req) {
        let i = p - tools_size(req);
        law_blocks_of_system(req, model, i);
        Content::System { text: req.system->0@[i].text@ }
    } else {
        let q = (p - tools_size(req) - system_size(req)) as nat;
        let at = lemma_find_message(req.messages@, req.messages@.len(), q);
        let message = req.messages@[at.0 as int];
        match message.content@ {
            Json::String(text) => {
                law_block_of_a_text_message(req, model, at.0);
                Content::Text { role: message.role@, index: at.0, text }
            },
            Json::Array(parts) => {
                law_blocks_of_content_blocks(req, model, at.0, at.1);
                assert(sound(parts[at.1 as int]));
                Content::Part {
                    role: message.role@,
                    index: at.0,
                    block_index: at.1,
                    part: parts[at.1 as int],
                }
            },
            other => {
                law_block_of_another_message(req, model, at.0);
                Content::Other { role: message.role@, index: at.0, content: other }
            },
        }
    }
}

/// What stands at a place of one of two requests with the same stream stands at the same place of
/// the other.
proof fn lemma_same_place(
    a: MessagesRequest,
    b: MessagesRequest,
    p: int,
    ma: TokenModel,
    mb: TokenModel,
) -> (contents: (Content, Content))
    requires
        sound_request(a),
        sound_request(b),
        stream(request_blocks(a, ma)) == stream(request_blocks(b, mb)),
        0 <= p < request_blocks(a, ma).len(),
    ensures
        stands_at(a, p, contents.0),
        stands_at(b, p, contents.1),
        same_content(contents.0, contents.1),
{
    law_stream_identifies_prompt(request_blocks(a, ma), request_blocks(b, mb));
    let c = lemma_content_at(a, ma, p);
    let d = lemma_content_at(b, mb, p);
    assert(request_blocks(a, ma)[p].value == request_blocks(b, mb)[p].value);
    law_block_text_identifies_content(c, d);
    (c, d)
}

/// Where the tools, the system prompt and the messages of a request are found in another one.
pub open spec fn found_in(a: MessagesRequest, b: MessagesRequest) -> bool {
    &&& tools_size(a) <= tools_size(b)
    &&& forall|i: int|
        #![trigger a.tools->0@[i]]
        0 <= i < tools_size(a) ==> {
            &&& a.tools->0@[i].name@ == b.tools->0@[i].name@
            &&& a.tools->0@[i].description@ == b.tools->0@[i].description@
            &&& same_json(a.tools->0@[i].input_schema@, b.tools->0@[i].input_schema@)
        }
    &&& system_size(a) <= system_size(b)
    &&& forall|i: int|
        #![trigger a.system->0@[i]]
        0 <= i < system_size(a) ==> a.system->0@[i].text@ == b.system->0@[i].text@
    &&& forall|i: int|
        #![trigger a.messages@[i]]
        0 <= i < a.messages@.len() && message_size(a.messages@[i]) > 0 ==> {
            &&& i < b.messages@.len()
            &&& a.messages@[i].role@ == b.messages@[i].role@
            &&& match (a.messages@[i].content@, b.messages@[i].content@) {
                (Json::Array(x), Json::Array(y)) => x.len() <= y.len() && forall|k: int|
                    #![trigger x[k]]
                    0 <= k < x.len() ==> same_json(x[k], y[k]),
                (Json::String(s), Json::String(t)) => s == t,
                (Json::Array(_), _) => false,
                (_, Json::Array(_)) => false,
                (x, y) => same_json(x, y),
            }
        }
}

/// The tools of one of two requests with the same stream are those of the other.
proof fn lemma_fewer_tools(
    a: MessagesRequest,
    b: MessagesRequest,
    ma: TokenModel,
    mb: TokenModel,
)
    requires
        sound_request(a),
        sound_request(b),
        stream(request_blocks(a, ma)) == stream(request_blocks(b, mb)),
    ensures
        tools_size(a) <= tools_size(b),
{
    law_number_of_blocks(a, ma);
    if tools_size(a) > 0 {
        let p = tools_size(a) - 1;
        let c = lemma_same_place(a, b, p, ma, mb);
    }
}

/// The system blocks of one of two requests with the same stream and as many tools are those of the
/// other.
proof fn lemma_fewer_system_blocks(
    a: MessagesRequest,
    b: MessagesRequest,
    ma: TokenModel,
    mb: TokenModel,
)
    requires
        sound_request(a),
        sound_request(b),
        stream(request_blocks(a, ma)) == stream(request_blocks(b, mb)),
        tools_size(a) == tools_size(b),
    ensures
        system_size(a) <= system_size(b),
{
    law_number_of_blocks(a, ma);
    if system_size(a) > 0 {
        let p = tools_size(a) + system_size(a) - 1;
        let c = lemma_same_place(a, b, p, ma, mb);
    }
}

/// Whatever makes up a prompt is found in every request with the same stream.
proof fn lemma_found_in(
    a: MessagesRequest,
    b: MessagesRequest,
    ma: TokenModel,
    mb: TokenModel,
)
    requires
        sound_request(a),
        sound_request(b),
        stream(request_blocks(a, ma)) == stream(request_blocks(b, mb)),
    ensures
        found_in(a, b),
{
    law_number_of_blocks(a, ma);
    lemma_fewer_tools(a, b, ma, mb);
    lemma_fewer_tools(b, a, mb, ma);
    lemma_fewer_system_blocks(a, b, ma, mb);
    assert forall|i: int| #![trigger a.tools->0@[i]] 0 <= i < tools_size(a) implies {
        &&& a.tools->0@[i].name@ == b.tools->0@[i].name@
        &&& a.tools->0@[i].description@ == b.tools->0@[i].description@
        &&& same_json(a.tools->0@[i].input_schema@, b.tools->0@[i].input_schema@)
    } by {
        let c = lemma_same_place(a, b, i, ma, mb);
    }
    assert forall|i: int| #![trigger a.system->0@[i]] 0 <= i < system_size(a) implies a.system->0@[i].text@
        == b.system->0@[i].text@ by {
        let c = lemma_same_place(a, b, tools_size(a) + i, ma, mb);
    }
    assert forall|i: int|
        #![trigger a.messages@[i]]
        0 <= i < a.messages@.len() && message_size(a.messages@[i]) > 0 implies {
        &&& i < b.messages@.len()
        &&& a.messages@[i].role@ == b.messages@[i].role@
        &&& match (a.messages@[i].content@, b.messages@[i].content@) {
            (Json::Array(x), Json::Array(y)) => x.len() <= y.len() && forall|k: int|
                #![trigger x[k]]
                0 <= k < x.len() ==> same_json(x[k], y[k]),
            (Json::String(s), Json::String(t)) => s == t,
            (Json::Array(_), _) => false,
            (_, Json::Array(_)) => false,
            (x, y) => same_json(x, y),
        }
    } by {
        lemma_message_found(a, b, ma, mb, i as nat, 0);
        if let Json::Array(x) = a.messages@[i].content@ {
            lemma_message_found(a, b, ma, mb, i as nat, (x.len() - 1) as nat);
            let y = b.messages@[i].content@->Array_0;
            assert forall|k: int| #![trigger x[k]] 0 <= k < x.len() implies same_json(
                x[k],
                y[k],
            ) by {
                lemma_message_found(a, b, ma, mb, i as nat, k as nat);
            }
        }
    }
}

/// The place of a block of a message tells which one it is.
proof fn lemma_place_is_unique(req: MessagesRequest, i: nat, k: nat, j: nat, l: nat)
    requires
        i < req.messages@.len(),
        j < req.messages@.len(),
        k < message_size(req.messages@[i as int]),
        l < message_size(req.messages@[j as int]),
        message_at(req, i) + k == message_at(req, j) + l,
    ensures
        i == j,
        k == l,
{
    if i < j {
        lemma_sizes_grow(req.messages@, (i + 1) as nat, j);
    }
    if j < i {
        lemma_sizes_grow(req.messages@, (j + 1) as nat, i);
    }
}

/// More messages do not make up fewer blocks.
proof fn lemma_sizes_grow(messages: Seq<Message>, i: nat, j: nat)
    requires
        i <= j,
    ensures
        messages_size(messages, i) <= messages_size(messages, j),
    decreases j,
{
    if i < j {
        lemma_sizes_grow(messages, i, (j - 1) as nat);
    }
}

/// A block of a message is found in every request with the same stream.
proof fn lemma_message_found(
    a: MessagesRequest,
    b: MessagesRequest,
    ma: TokenModel,
    mb: TokenModel,
    i: nat,
    k: nat,
)
    requires
        sound_request(a),
        sound_request(b),
        stream(request_blocks(a, ma)) == stream(request_blocks(b, mb)),
        i < a.messages@.len(),
        k < message_size(a.messages@[i as int]),
    ensures
        i < b.messages@.len(),
        a.messages@[i as int].role@ == b.messages@[i as int].role@,
        match (a.messages@[i as int].content@, b.messages@[i as int].content@) {
            (Json::Array(x), Json::Array(y)) => k < y.len() && same_json(x[k as int], y[k as int]),
            (Json::String(s), Json::String(t)) => s == t,
            (Json::Array(_), _) => false,
            (_, Json::Array(_)) => false,
            (x, y) => same_json(x, y),
        },
{
    lemma_request_block_at(a, ma, i, k as int);
    let p = message_at(a, i) + k;
    let (c, d) = lemma_same_place(a, b, p as int, ma, mb);
    match c {
        Content::Tool { .. } => {},
        Content::System { .. } => {},
        Content::Text { index, .. } => {
            lemma_place_is_unique(a, i, k, index, 0);
        },
        Content::Part { index, block_index, .. } => {
            lemma_place_is_unique(a, i, k, index, block_index);
        },
        Content::Other { index, .. } => {
            lemma_place_is_unique(a, i, k, index, 0);
        },
    }
}

/// What is hashed identifies the request: two requests with the same stream have the same tools, the
/// same system prompt and the same messages, but for the order of members in JSON objects and for
/// messages whose content is an empty array, which make up no block.
pub proof fn law_same_stream_same_request(
    a: MessagesRequest,
    b: MessagesRequest,
    ma: TokenModel,
    mb: TokenModel,
)
    requires
        sound_request(a),
        sound_request(b),
        stream(request_blocks(a, ma)) == stream(request_blocks(b, mb)),
    ensures
        found_in(a, b),
        found_in(b, a),
{
    lemma_found_in(a, b, ma, mb);
    lemma_found_in(b, a, mb, ma);
}

} // verus!
