//! The request as a list of blocks in the order in which a prompt is cached: tools, system prompt,
//! messages.
use crate::cache_policy::{
    content_counts, explicit, message_is_long, part_text, should_auto_cache_message,
    should_auto_cache_system, should_auto_cache_tool, should_use_default_cache, system_counts,
    system_is_long, text_of_part, tool_counts, tools_are_long,
};
use crate::json::{items_view, lemma_view, Json, Value};
use crate::stable_json::{
    add_member, object_text, pairs_view, render_object, stable_json, stable_text, string_literal,
    to_json_string,
};
use crate::text::{decimal, decimal_text};
use crate::tokens::{counts_by, is_counter, sums_fit, tokens, tokens_in, total, TokenModel};
use crate::ttl::{
    control_ttl, opt_int, ttl_from_control, ttl_from_value, value_ttl, DEFAULT_CACHE_TTL,
};
use crate::types::{Message, MessagesRequest, SystemMessage, Tool};
use vstd::prelude::*;

verus! {

/// One block: its canonical text, its count of tokens, and how long it is to be cached if the
/// prompt is cached up to it.
#[derive(Debug)]
pub struct CacheableBlock {
    pub value: String,
    pub tokens: i32,
    pub ttl: Option<u64>,
}

/// What a [`CacheableBlock`] stands for.
pub struct Block {
    pub value: Seq<char>,
    pub tokens: i32,
    pub ttl: Option<int>,
}

impl View for CacheableBlock {
    type V = Block;

    open spec fn view(&self) -> Block {
        Block { value: self.value@, tokens: self.tokens, ttl: opt_int(self.ttl) }
    }
}

/// What a list of blocks stands for.
pub open spec fn blocks_view(blocks: Seq<CacheableBlock>) -> Seq<Block> {
    Seq::new(blocks.len(), |i: int| blocks[i]@)
}

/// The life that was asked for, or else the default one where the policy caches the block.
pub open spec fn ttl_or_auto(asked: Option<int>, auto: bool) -> Option<int> {
    match asked {
        Some(ttl) => Some(ttl),
        None => if auto {
            Some(DEFAULT_CACHE_TTL as int)
        } else {
            None
        },
    }
}

/// The canonical text of a tool.
pub open spec fn tool_value(tool: Tool) -> Seq<char> {
    object_text(
        seq![
            ("kind"@, string_literal("tool"@)),
            ("name"@, string_literal(tool.name@)),
            ("description"@, string_literal(tool.description@)),
            ("input_schema"@, stable_text(tool.input_schema@)),
        ],
    )
}

/// The block of a tool.
pub open spec fn tool_block(tool: Tool, auto: bool, model: TokenModel) -> Block {
    Block {
        value: tool_value(tool),
        tokens: tokens(model, tool_value(tool)),
        ttl: ttl_or_auto(control_ttl(tool.cache_control), auto),
    }
}

/// The canonical text of a system block.
pub open spec fn system_value(text: Seq<char>) -> Seq<char> {
    object_text(
        seq![
            ("kind"@, string_literal("system"@)),
            ("type"@, string_literal("text"@)),
            ("text"@, string_literal(text)),
        ],
    )
}

/// The block of a system block.
pub open spec fn system_block(block: SystemMessage, auto: bool, model: TokenModel) -> Block {
    Block {
        value: system_value(block.text@),
        tokens: tokens(model, block.text@),
        ttl: ttl_or_auto(control_ttl(block.cache_control), auto),
    }
}

/// The canonical text of a message whose content is a string.
pub open spec fn text_message_value(role: Seq<char>, index: nat, text: Seq<char>) -> Seq<char> {
    object_text(
        seq![
            ("kind"@, string_literal("message"@)),
            ("role"@, string_literal(role)),
            ("index"@, decimal(index)),
            ("type"@, string_literal("text"@)),
            ("text"@, string_literal(text)),
        ],
    )
}

/// The canonical text of one content block of a message.
pub open spec fn part_value(role: Seq<char>, index: nat, block_index: nat, part: Json) -> Seq<
    char,
> {
    object_text(
        seq![
            ("kind"@, string_literal("message"@)),
            ("role"@, string_literal(role)),
            ("index"@, decimal(index)),
            ("blockIndex"@, decimal(block_index)),
            ("block"@, stable_text(part)),
        ],
    )
}

/// The canonical text of a message whose content is neither a string nor an array.
pub open spec fn other_message_value(role: Seq<char>, index: nat, content: Json) -> Seq<char> {
    object_text(
        seq![
            ("kind"@, string_literal("message"@)),
            ("role"@, string_literal(role)),
            ("index"@, decimal(index)),
            ("content"@, stable_text(content)),
        ],
    )
}

/// The text by which a content block is measured: its text, unless it is missing or empty.
pub open spec fn measured_part(part: Json) -> Seq<char> {
    match part_text(part) {
        Some(text) => if text.len() == 0 {
            stable_text(part)
        } else {
            text
        },
        None => stable_text(part),
    }
}

/// The block of one content block; a cache control of the message counts for its last one.
pub open spec fn part_block(
    message: Message,
    index: nat,
    block_index: nat,
    part: Json,
    last: bool,
    auto: bool,
    model: TokenModel,
) -> Block {
    Block {
        value: part_value(message.role@, index, block_index, part),
        tokens: tokens(model, measured_part(part)),
        ttl: match value_ttl(part) {
            Some(ttl) => Some(ttl),
            None => if last {
                ttl_or_auto(control_ttl(message.cache_control), auto)
            } else {
                None
            },
        },
    }
}

/// The blocks of a message.
pub open spec fn message_blocks(
    message: Message,
    index: nat,
    auto: bool,
    model: TokenModel,
) -> Seq<Block> {
    match message.content@ {
        Json::String(text) => seq![
            Block {
                value: text_message_value(message.role@, index, text),
                tokens: tokens(model, text),
                ttl: ttl_or_auto(control_ttl(message.cache_control), auto),
            },
        ],
        Json::Array(parts) => Seq::new(
            parts.len(),
            |i: int|
                part_block(
                    message,
                    index,
                    i as nat,
                    parts[i],
                    i == parts.len() - 1,
                    auto,
                    model,
                ),
        ),
        other => seq![
            Block {
                value: other_message_value(message.role@, index, other),
                tokens: tokens(model, other_message_value(message.role@, index, other)),
                ttl: ttl_or_auto(control_ttl(message.cache_control), auto),
            },
        ],
    }
}

/// The blocks of the tools.
pub open spec fn tools_blocks(req: MessagesRequest, model: TokenModel) -> Seq<Block> {
    match req.tools {
        Some(tools) => Seq::new(
            tools@.len(),
            |i: int|
                tool_block(tools@[i], !explicit(req) && tools_are_long(req, i, model), model),
        ),
        None => Seq::empty(),
    }
}

/// The blocks of the system prompt.
pub open spec fn system_blocks(req: MessagesRequest, model: TokenModel) -> Seq<Block> {
    match req.system {
        Some(system) => Seq::new(
            system@.len(),
            |i: int|
                system_block(system@[i], !explicit(req) && system_is_long(req, model), model),
        ),
        None => Seq::empty(),
    }
}

/// The blocks of the first `n` messages.
pub open spec fn messages_blocks(req: MessagesRequest, n: nat, model: TokenModel) -> Seq<Block>
    decreases n,
{
    if n == 0 {
        Seq::empty()
    } else {
        messages_blocks(req, (n - 1) as nat, model) + message_blocks(
            req.messages@[n - 1],
            (n - 1) as nat,
            !explicit(req) && message_is_long(req, n - 1, model),
            model,
        )
    }
}

/// The blocks of the request.
pub open spec fn request_blocks(req: MessagesRequest, model: TokenModel) -> Seq<Block> {
    tools_blocks(req, model) + system_blocks(req, model) + messages_blocks(
        req,
        req.messages@.len(),
        model,
    )
}

/// The sums that the default policy forms stay within 32 bits.
pub open spec fn policy_sums_fit(req: MessagesRequest, model: TokenModel) -> bool {
    !explicit(req) ==> {
        &&& req.tools matches Some(tools) ==> sums_fit(tool_counts(tools@, model))
        &&& req.system matches Some(system) ==> sums_fit(system_counts(system@, model))
        &&& forall|i: int|
            0 <= i < req.messages@.len() - 1 ==> sums_fit(
                content_counts((#[trigger] req.messages@[i]).content@, model),
            )
    }
}

/// The life that was asked for, or else the default one where the policy caches the block.
fn or_auto(asked: Option<u64>, auto: bool) -> (ttl: Option<u64>)
    ensures
        opt_int(ttl) == ttl_or_auto(opt_int(asked), auto),
{
    match asked {
        Some(ttl) => Some(ttl),
        None => if auto {
            Some(DEFAULT_CACHE_TTL)
        } else {
            None
        },
    }
}

/// The JSON string literal of `text`.
fn literal(text: &str) -> (rendered: String)
    ensures
        rendered@ == string_literal(text@),
{
    to_json_string(text).unwrap()
}

/// The first members of the canonical text of a message.
fn message_members(role: &str, index: usize) -> (members: Vec<(String, String)>)
    ensures
        pairs_view(members@) == seq![
            ("kind"@, string_literal("message"@)),
            ("role"@, string_literal(role@)),
            ("index"@, decimal(index as nat)),
        ],
{
    let mut members: Vec<(String, String)> = Vec::new();
    add_member(&mut members, "kind", literal("message"));
    add_member(&mut members, "role", literal(role));
    add_member(&mut members, "index", decimal_text(index as u64));
    proof {
        assert(pairs_view(members@) =~= seq![
            ("kind"@, string_literal("message"@)),
            ("role"@, string_literal(role@)),
            ("index"@, decimal(index as nat)),
        ]);
    }
    members
}

/// Adds the block of `tool`.
pub fn append_tool_block<F: Fn(&str) -> u64>(
    blocks: &mut Vec<CacheableBlock>,
    tool: &Tool,
    auto_cache: bool,
    count: &F,
)
    requires
        is_counter(count),
    ensures
        forall|model: TokenModel| #[trigger]
            counts_by(count, model) ==> blocks_view(final(blocks)@) == blocks_view(
                old(blocks)@,
            ).push(tool_block(*tool, auto_cache, model)),
{
    let mut members: Vec<(String, String)> = Vec::new();
    add_member(&mut members, "kind", literal("tool"));
    add_member(&mut members, "name", literal(tool.name.as_str()));
    add_member(&mut members, "description", literal(tool.description.as_str()));
    add_member(&mut members, "input_schema", stable_json(&tool.input_schema));
    proof {
        assert(pairs_view(members@) =~= seq![
            ("kind"@, string_literal("tool"@)),
            ("name"@, string_literal(tool.name@)),
            ("description"@, string_literal(tool.description@)),
            ("input_schema"@, stable_text(tool.input_schema@)),
        ]);
    }
    let value = render_object(&members);
    let n = tokens_in(count, value.as_str());
    blocks.push(
        CacheableBlock {
            tokens: n,
            value,
            ttl: or_auto(ttl_from_control(&tool.cache_control), auto_cache),
        },
    );
    proof {
        assert forall|model: TokenModel| #[trigger] counts_by(count, model) implies blocks_view(
            blocks@,
        ) == blocks_view(old(blocks)@).push(tool_block(*tool, auto_cache, model)) by {
            assert(blocks_view(blocks@) =~= blocks_view(old(blocks)@).push(
                tool_block(*tool, auto_cache, model),
            ));
        }
    }
}

/// Adds the block of a system block.
fn append_system_block<F: Fn(&str) -> u64>(
    blocks: &mut Vec<CacheableBlock>,
    block: &SystemMessage,
    auto_cache: bool,
    count: &F,
)
    requires
        is_counter(count),
    ensures
        forall|model: TokenModel| #[trigger]
            counts_by(count, model) ==> blocks_view(final(blocks)@) == blocks_view(
                old(blocks)@,
            ).push(system_block(*block, auto_cache, model)),
{
    let mut members: Vec<(String, String)> = Vec::new();
    add_member(&mut members, "kind", literal("system"));
    add_member(&mut members, "type", literal("text"));
    add_member(&mut members, "text", literal(block.text.as_str()));
    proof {
        assert(pairs_view(members@) =~= seq![
            ("kind"@, string_literal("system"@)),
            ("type"@, string_literal("text"@)),
            ("text"@, string_literal(block.text@)),
        ]);
    }
    let value = render_object(&members);
    let n = tokens_in(count, block.text.as_str());
    blocks.push(
        CacheableBlock {
            value,
            tokens: n,
            ttl: or_auto(ttl_from_control(&block.cache_control), auto_cache),
        },
    );
    proof {
        assert forall|model: TokenModel| #[trigger] counts_by(count, model) implies blocks_view(
            blocks@,
        ) == blocks_view(old(blocks)@).push(system_block(*block, auto_cache, model)) by {
            assert(blocks_view(blocks@) =~= blocks_view(old(blocks)@).push(
                system_block(*block, auto_cache, model),
            ));
        }
    }
}

/// The block of one content block of a message.
fn make_part_block<F: Fn(&str) -> u64>(
    message: &Message,
    index: usize,
    block_index: usize,
    part: &Value,
    message_ttl: Option<u64>,
    count: &F,
    last: bool,
    auto: bool,
) -> (block: CacheableBlock)
    requires
        is_counter(count),
        opt_int(message_ttl) == ttl_or_auto(control_ttl(message.cache_control), auto),
    ensures
        forall|model: TokenModel| #[trigger]
            counts_by(count, model) ==> block@ == part_block(
                *message,
                index as nat,
                block_index as nat,
                part@,
                last,
                auto,
                model,
            ),
{
    let rendered = stable_json(part);
    let tokens: i32 = match text_of_part(part) {
        Some(text) => if text.is_empty() {
            tokens_in(count, rendered.as_str())
        } else {
            tokens_in(count, text)
        },
        None => tokens_in(count, rendered.as_str()),
    };
    let mut members = message_members(message.role.as_str(), index);
    add_member(&mut members, "blockIndex", decimal_text(block_index as u64));
    add_member(&mut members, "block", rendered);
    proof {
        assert(pairs_view(members@) =~= seq![
            ("kind"@, string_literal("message"@)),
            ("role"@, string_literal(message.role@)),
            ("index"@, decimal(index as nat)),
            ("blockIndex"@, decimal(block_index as nat)),
            ("block"@, stable_text(part@)),
        ]);
    }
    let ttl: Option<u64> = match ttl_from_value(part) {
        Some(ttl) => Some(ttl),
        None => if last {
            message_ttl
        } else {
            None
        },
    };
    CacheableBlock { value: render_object(&members), tokens, ttl }
}

/// Adds the blocks of a message.
fn append_message_blocks<F: Fn(&str) -> u64>(
    blocks: &mut Vec<CacheableBlock>,
    message: &Message,
    index: usize,
    auto: bool,
    count: &F,
)
    requires
        is_counter(count),
    ensures
        forall|model: TokenModel| #[trigger]
            counts_by(count, model) ==> blocks_view(final(blocks)@) == blocks_view(old(blocks)@)
                + message_blocks(*message, index as nat, auto, model),
{
    proof {
        lemma_view(message.content);
    }
    let ghost before = blocks_view(blocks@);
    let message_ttl = or_auto(ttl_from_control(&message.cache_control), auto);
    match &message.content {
        Value::String(text) => {
            let mut members = message_members(message.role.as_str(), index);
            add_member(&mut members, "type", literal("text"));
            add_member(&mut members, "text", literal(text.as_str()));
            proof {
                assert(pairs_view(members@) =~= seq![
                    ("kind"@, string_literal("message"@)),
                    ("role"@, string_literal(message.role@)),
                    ("index"@, decimal(index as nat)),
                    ("type"@, string_literal("text"@)),
                    ("text"@, string_literal(text@)),
                ]);
            }
            let n = tokens_in(count, text.as_str());
            blocks.push(
                CacheableBlock { value: render_object(&members), tokens: n, ttl: message_ttl },
            );
            proof {
                assert forall|model: TokenModel| #[trigger] counts_by(count, model) implies blocks_view(
                    blocks@,
                ) == before + message_blocks(*message, index as nat, auto, model) by {
                    assert(blocks_view(blocks@) =~= before + message_blocks(
                        *message,
                        index as nat,
                        auto,
                        model,
                    ));
                }
            }
        },
        Value::Array(parts) => {
            let mut n: usize = 0;
            proof {
                assert forall|model: TokenModel| #[trigger] counts_by(count, model) implies blocks_view(
                    blocks@,
                ) == before + message_blocks(*message, index as nat, auto, model).take(0) by {
                    assert(blocks_view(blocks@) =~= before + message_blocks(
                        *message,
                        index as nat,
                        auto,
                        model,
                    ).take(0));
                }
            }
            while n < parts.len()
                invariant
                    n <= parts@.len(),
                    is_counter(count),
                    opt_int(message_ttl) == ttl_or_auto(control_ttl(message.cache_control), auto),
                    message.content@ == Json::Array(items_view(parts@)),
                    forall|model: TokenModel| #[trigger]
                        counts_by(count, model) ==> blocks_view(blocks@) == before
                            + message_blocks(*message, index as nat, auto, model).take(n as int),
                decreases parts@.len() - n,
            {
                let ghost sofar = blocks@;
                let block = make_part_block(
                    message,
                    index,
                    n,
                    &parts[n],
                    message_ttl,
                    count,
                    n == parts.len() - 1,
                    auto,
                );
                blocks.push(block);
                proof {
                    assert forall|model: TokenModel| #[trigger]
                        counts_by(count, model) implies blocks_view(blocks@) == before
                        + message_blocks(*message, index as nat, auto, model).take(n + 1) by {
                        assert(blocks_view(blocks@) =~= blocks_view(sofar).push(block@));
                        assert(message_blocks(*message, index as nat, auto, model)[n as int]
                            == block@);
                        assert(blocks_view(blocks@) =~= before + message_blocks(
                            *message,
                            index as nat,
                            auto,
                            model,
                        ).take(n + 1));
                    }
                }
                n = n + 1;
            }
            proof {
                assert forall|model: TokenModel| #[trigger] counts_by(count, model) implies blocks_view(
                    blocks@,
                ) == before + message_blocks(*message, index as nat, auto, model) by {
                    assert(message_blocks(*message, index as nat, auto, model).take(n as int)
                        =~= message_blocks(*message, index as nat, auto, model));
                }
            }
        },
        other => {
            let mut members = message_members(message.role.as_str(), index);
            add_member(&mut members, "content", stable_json(other));
            proof {
                assert(pairs_view(members@) =~= seq![
                    ("kind"@, string_literal("message"@)),
                    ("role"@, string_literal(message.role@)),
                    ("index"@, decimal(index as nat)),
                    ("content"@, stable_text(other@)),
                ]);
            }
            let value = render_object(&members);
            let n = tokens_in(count, value.as_str());
            blocks.push(CacheableBlock { tokens: n, value, ttl: message_ttl });
            proof {
                assert forall|model: TokenModel| #[trigger] counts_by(count, model) implies blocks_view(
                    blocks@,
                ) == before + message_blocks(*message, index as nat, auto, model) by {
                    assert(blocks_view(blocks@) =~= before + message_blocks(
                        *message,
                        index as nat,
                        auto,
                        model,
                    ));
                }
            }
        },
    }
}

/// The blocks of the request, in the order in which the prompt is cached.
pub fn flatten_cache_blocks<F: Fn(&str) -> u64>(req: &MessagesRequest, count: &F) -> (blocks: Vec<
    CacheableBlock,
>)
    requires
        is_counter(count),
        forall|model: TokenModel| #[trigger]
            counts_by(count, model) ==> policy_sums_fit(*req, model),
    ensures
        forall|model: TokenModel| #[trigger]
            counts_by(count, model) ==> blocks_view(blocks@) == request_blocks(*req, model),
{
    let mut blocks: Vec<CacheableBlock> = Vec::new();
    let default = should_use_default_cache(req);
    if let Some(tools) = &req.tools {
        let mut n: usize = 0;
        while n < tools.len()
            invariant
                n <= tools@.len(),
                req.tools == Some(*tools),
                is_counter(count),
                default == !explicit(*req),
                forall|model: TokenModel| #[trigger]
                    counts_by(count, model) ==> policy_sums_fit(*req, model),
                forall|model: TokenModel| #[trigger]
                    counts_by(count, model) ==> blocks_view(blocks@) == tools_blocks(
                        *req,
                        model,
                    ).take(n as int),
            decreases tools@.len() - n,
        {
            let ghost sofar = blocks@;
            proof {
                assert forall|model: TokenModel| #[trigger]
                    counts_by(count, model) && default implies sums_fit(
                    tool_counts(tools@.take(n + 1), model),
                ) by {
                    lemma_fewer_tools_fit(tools@, n + 1, model);
                }
            }
            let auto = default && should_auto_cache_tool(req, n, count);
            append_tool_block(&mut blocks, &tools[n], auto, count);
            proof {
                assert forall|model: TokenModel| #[trigger] counts_by(count, model) implies blocks_view(
                    blocks@,
                ) == tools_blocks(*req, model).take(n + 1) by {
                    assert(blocks_view(blocks@) =~= tools_blocks(*req, model).take(n + 1));
                }
            }
            n = n + 1;
        }
    }
    proof {
        assert forall|model: TokenModel| #[trigger] counts_by(count, model) implies blocks_view(
            blocks@,
        ) == tools_blocks(*req, model) by {
            assert(blocks_view(blocks@) =~= tools_blocks(*req, model));
        }
    }
    if let Some(system) = &req.system {
        let auto = default && should_auto_cache_system(req, count);
        let mut n: usize = 0;
        proof {
            assert forall|model: TokenModel| #[trigger] counts_by(count, model) implies blocks_view(
                blocks@,
            ) == tools_blocks(*req, model) + system_blocks(*req, model).take(0) by {
                assert(blocks_view(blocks@) =~= tools_blocks(*req, model) + system_blocks(
                    *req,
                    model,
                ).take(0));
            }
        }
        while n < system.len()
            invariant
                n <= system@.len(),
                req.system == Some(*system),
                is_counter(count),
                forall|model: TokenModel| #[trigger]
                    counts_by(count, model) ==> auto == (!explicit(*req) && system_is_long(
                        *req,
                        model,
                    )),
                forall|model: TokenModel| #[trigger]
                    counts_by(count, model) ==> blocks_view(blocks@) == tools_blocks(*req, model)
                        + system_blocks(*req, model).take(n as int),
            decreases system@.len() - n,
        {
            append_system_block(&mut blocks, &system[n], auto, count);
            proof {
                assert forall|model: TokenModel| #[trigger] counts_by(count, model) implies blocks_view(
                    blocks@,
                ) == tools_blocks(*req, model) + system_blocks(*req, model).take(n + 1) by {
                    assert(blocks_view(blocks@) =~= tools_blocks(*req, model) + system_blocks(
                        *req,
                        model,
                    ).take(n + 1));
                }
            }
            n = n + 1;
        }
        proof {
            assert forall|model: TokenModel| #[trigger] counts_by(count, model) implies blocks_view(
                blocks@,
            ) == tools_blocks(*req, model) + system_blocks(*req, model) by {
                assert(system_blocks(*req, model).take(n as int) =~= system_blocks(*req, model));
            }
        }
    }
    proof {
        assert forall|model: TokenModel| #[trigger] counts_by(count, model) implies blocks_view(
            blocks@,
        ) == tools_blocks(*req, model) + system_blocks(*req, model) + messages_blocks(
            *req,
            0,
            model,
        ) by {
            assert(blocks_view(blocks@) =~= tools_blocks(*req, model) + system_blocks(*req, model)
                + messages_blocks(*req, 0, model));
        }
    }
    let mut n: usize = 0;
    while n < req.messages.len()
        invariant
            n <= req.messages@.len(),
            is_counter(count),
            default == !explicit(*req),
            forall|model: TokenModel| #[trigger]
                counts_by(count, model) ==> policy_sums_fit(*req, model),
            forall|model: TokenModel| #[trigger]
                counts_by(count, model) ==> blocks_view(blocks@) == tools_blocks(*req, model)
                    + system_blocks(*req, model) + messages_blocks(*req, n as nat, model),
        decreases req.messages@.len() - n,
    {
        let ghost sofar = blocks_view(blocks@);
        let auto = default && should_auto_cache_message(req, n, count);
        append_message_blocks(&mut blocks, &req.messages[n], n, auto, count);
        proof {
            assert forall|model: TokenModel| #[trigger] counts_by(count, model) implies blocks_view(
                blocks@,
            ) == tools_blocks(*req, model) + system_blocks(*req, model) + messages_blocks(
                *req,
                (n + 1) as nat,
                model,
            ) by {
                assert(blocks_view(blocks@) == sofar + message_blocks(
                    req.messages@[n as int],
                    n as nat,
                    auto,
                    model,
                ));
                assert(blocks_view(blocks@) =~= tools_blocks(*req, model) + system_blocks(
                    *req,
                    model,
                ) + messages_blocks(*req, (n + 1) as nat, model));
            }
        }
        n = n + 1;
    }
    blocks
}

/// If the sums over all tools fit, so do those over the first ones.
pub proof fn lemma_fewer_tools_fit(tools: Seq<Tool>, n: int, model: TokenModel)
    requires
        0 <= n <= tools.len(),
        sums_fit(tool_counts(tools, model)),
    ensures
        sums_fit(tool_counts(tools.take(n), model)),
{
    let all = tool_counts(tools, model);
    let few = tool_counts(tools.take(n), model);
    assert forall|k: int| 0 <= k <= few.len() implies i32::MIN <= #[trigger] total(
        few.take(k),
    ) <= i32::MAX by {
        assert(few.take(k) =~= all.take(k));
    }
}

} // verus!
