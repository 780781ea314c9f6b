//! Laws of the default policy, of the blocks of a request, and of its fingerprints.
use crate::blocks::{
    message_blocks, messages_blocks, other_message_value, part_value, request_blocks, system_block,
    system_blocks, tool_block, tool_value, tools_blocks, ttl_or_auto, Block,
};
use crate::cache_policy::{
    any_marked, explicit, lemma_any_marked, marked, message_is_long, system_counts, system_is_long,
    tool_text, tools_are_long,
};
use crate::json::Json;
use crate::json_laws::{law_stable_text_ignores_order, same_json};
use crate::profile::{breakpoints_of, framed, stream};
use crate::text::{decimal, lemma_decimal};
use crate::tokens::TokenModel;
use crate::ttl::{control_ttl, value_ttl};
use crate::types::{CacheControl, Message, MessagesRequest, Tool};
use vstd::prelude::*;
use vstd::utf8::{encode_utf8, is_ascii_chars};

verus! {

/// The blocks of a request, cached only where a cache control asks for it.
pub open spec fn asked_blocks(req: MessagesRequest, model: TokenModel) -> Seq<Block> {
    (match req.tools {
        Some(tools) => Seq::new(tools@.len(), |i: int| tool_block(tools@[i], false, model)),
        None => Seq::empty(),
    }) + (match req.system {
        Some(system) => Seq::new(system@.len(), |i: int| system_block(system@[i], false, model)),
        None => Seq::empty(),
    }) + asked_messages(req, req.messages@.len(), model)
}

/// The blocks of the first `n` messages, cached only where a cache control asks for it.
pub open spec fn asked_messages(req: MessagesRequest, n: nat, model: TokenModel) -> Seq<Block>
    decreases n,
{
    if n == 0 {
        Seq::empty()
    } else {
        asked_messages(req, (n - 1) as nat, model) + message_blocks(
            req.messages@[n - 1],
            (n - 1) as nat,
            false,
            model,
        )
    }
}

/// Without the default policy the messages are cached where they ask for it.
proof fn lemma_asked_messages(req: MessagesRequest, n: nat, model: TokenModel)
    requires
        explicit(req),
    ensures
        messages_blocks(req, n, model) == asked_messages(req, n, model),
    decreases n,
{
    if n > 0 {
        lemma_asked_messages(req, (n - 1) as nat, model);
    }
}

/// Explicit cache controls always win: with one anywhere in the request, nothing is cached that is
/// not asked for.
pub proof fn law_explicit_controls_win(req: MessagesRequest, model: TokenModel)
    requires
        explicit(req),
    ensures
        request_blocks(req, model) == asked_blocks(req, model),
{
    lemma_asked_messages(req, req.messages@.len(), model);
    if req.tools is Some {
        assert(tools_blocks(req, model) =~= Seq::new(
            req.tools->0@.len(),
            |i: int| tool_block(req.tools->0@[i], false, model),
        ));
    }
    if req.system is Some {
        assert(system_blocks(req, model) =~= Seq::new(
            req.system->0@.len(),
            |i: int| system_block(req.system->0@[i], false, model),
        ));
    }
}

/// Where nothing is marked, no content block asks to be cached.
proof fn lemma_unmarked_part(parts: Seq<Json>, i: int)
    requires
        0 <= i < parts.len(),
        !any_marked(parts),
    ensures
        value_ttl(parts[i]) is None,
{
    if marked(parts[i]) {
        lemma_any_marked(parts, i);
    }
}

/// A message without a cache control that the policy does not cache is not cached.
proof fn lemma_uncached_message(message: Message, index: nat, model: TokenModel)
    requires
        message.cache_control is None,
        !marked(message.content@),
    ensures
        forall|i: int|
            0 <= i < message_blocks(message, index, false, model).len() ==> (
            #[trigger] message_blocks(message, index, false, model)[i]).ttl is None,
{
    if let Json::Array(parts) = message.content@ {
        assert forall|i: int|
            0 <= i < message_blocks(message, index, false, model).len() implies (
        #[trigger] message_blocks(message, index, false, model)[i]).ttl is None by {
            lemma_unmarked_part(parts, i);
        }
    }
}

/// The current turn is never cached by default: without cache controls the blocks of the last
/// message have no life.
pub proof fn law_last_message_is_not_cached_by_default(req: MessagesRequest, model: TokenModel)
    requires
        !explicit(req),
        req.messages@.len() > 0,
    ensures
        ({
            let last = (req.messages@.len() - 1) as nat;
            let blocks = message_blocks(
                req.messages@[last as int],
                last,
                message_is_long(req, last as int, model),
                model,
            );
            &&& messages_blocks(req, req.messages@.len(), model) == messages_blocks(
                req,
                last,
                model,
            ) + blocks
            &&& forall|i: int| 0 <= i < blocks.len() ==> (#[trigger] blocks[i]).ttl is None
        }),
{
    let last = (req.messages@.len() - 1) as nat;
    assert(req.messages@[last as int].cache_control is None);
    lemma_uncached_message(req.messages@[last as int], last, model);
}

/// There is a breakpoint if and only if a block has a life.
pub proof fn law_breakpoint_where_a_block_has_a_life(blocks: Seq<Block>)
    ensures
        breakpoints_of(blocks).len() > 0 <==> exists|i: int|
            0 <= i < blocks.len() && (#[trigger] blocks[i]).ttl is Some,
    decreases blocks.len(),
{
    if blocks.len() > 0 {
        let front = blocks.drop_last();
        law_breakpoint_where_a_block_has_a_life(front);
        if exists|i: int| 0 <= i < front.len() && (#[trigger] front[i]).ttl is Some {
            let i = choose|i: int| 0 <= i < front.len() && (#[trigger] front[i]).ttl is Some;
            assert(blocks[i].ttl is Some);
        }
        if exists|i: int| 0 <= i < blocks.len() && (#[trigger] blocks[i]).ttl is Some {
            let i = choose|i: int| 0 <= i < blocks.len() && (#[trigger] blocks[i]).ttl is Some;
            if i < front.len() {
                assert(front[i].ttl is Some);
            } else {
                assert(blocks.last().ttl is Some);
            }
        }
        if blocks.last().ttl is Some {
            assert(blocks[blocks.len() - 1].ttl is Some);
        }
    }
}

/// Messages without cache controls that the policy does not cache are not cached.
proof fn lemma_uncached_messages(req: MessagesRequest, n: nat, model: TokenModel)
    requires
        !explicit(req),
        n <= req.messages@.len(),
        forall|i: int| 0 <= i < req.messages@.len() ==> !#[trigger] message_is_long(req, i, model),
    ensures
        forall|i: int|
            0 <= i < messages_blocks(req, n, model).len() ==> (#[trigger] messages_blocks(
                req,
                n,
                model,
            )[i]).ttl is None,
    decreases n,
{
    if n > 0 {
        lemma_uncached_messages(req, (n - 1) as nat, model);
        assert(req.messages@[n - 1].cache_control is None);
        lemma_uncached_message(req.messages@[n - 1], (n - 1) as nat, model);
        assert(!message_is_long(req, n - 1, model));
    }
}

/// A short request without cache controls has no profile: where neither the tools nor the system
/// prompt nor a message of the history is long, there is no breakpoint.
pub proof fn law_short_request_has_no_breakpoint(req: MessagesRequest, model: TokenModel)
    requires
        !explicit(req),
        !system_is_long(req, model),
        forall|i: int| !#[trigger] tools_are_long(req, i, model),
        forall|i: int| 0 <= i < req.messages@.len() ==> !#[trigger] message_is_long(req, i, model),
    ensures
        breakpoints_of(request_blocks(req, model)).len() == 0,
{
    let blocks = request_blocks(req, model);
    let tools = tools_blocks(req, model);
    let system = system_blocks(req, model);
    lemma_uncached_messages(req, req.messages@.len(), model);
    assert forall|i: int| 0 <= i < blocks.len() implies (#[trigger] blocks[i]).ttl is None by {
        if i < tools.len() {
            assert(req.tools->0@[i].cache_control is None);
            assert(!tools_are_long(req, i, model));
            assert(blocks[i] == tools[i]);
        } else if i < tools.len() + system.len() {
            assert(req.system->0@[i - tools.len()].cache_control is None);
            assert(blocks[i] == system[i - tools.len()]);
        } else {
            assert(blocks[i] == messages_blocks(req, req.messages@.len(), model)[i - tools.len()
                - system.len()]);
        }
    }
    law_breakpoint_where_a_block_has_a_life(blocks);
}

/// A long system prompt is cached by default.
pub proof fn law_long_system_prompt_is_cached(req: MessagesRequest, model: TokenModel)
    requires
        !explicit(req),
        system_is_long(req, model),
    ensures
        breakpoints_of(request_blocks(req, model)).len() > 0,
{
    let blocks = request_blocks(req, model);
    let tools = tools_blocks(req, model);
    let system = system_blocks(req, model);
    assert(system_counts(req.system->0@, model).len() > 0);
    assert(blocks[tools.len() as int] == system[0]);
    assert(blocks[tools.len() as int].ttl is Some);
    law_breakpoint_where_a_block_has_a_life(blocks);
}

/// A cache control of a message whose content is an array counts for its last block.
pub proof fn law_message_control_marks_last_block(
    message: Message,
    index: nat,
    auto: bool,
    model: TokenModel,
)
    requires
        message.content@ matches Json::Array(parts) && parts.len() > 0,
        control_ttl(message.cache_control) is Some,
    ensures
        message_blocks(message, index, auto, model).len() > 0,
        message_blocks(message, index, auto, model).last().ttl is Some,
        value_ttl(message.content@->Array_0.last()) is None ==> message_blocks(
            message,
            index,
            auto,
            model,
        ).last().ttl == control_ttl(message.cache_control),
{
}

/// Every life is positive.
pub proof fn law_lives_are_positive(control: Option<CacheControl>, value: Json, auto: bool)
    ensures
        control_ttl(control) matches Some(ttl) ==> ttl > 0,
        value_ttl(value) matches Some(ttl) ==> ttl > 0,
        ttl_or_auto(control_ttl(control), auto) matches Some(ttl) ==> ttl > 0,
{
}

/// The texts of blocks, and with them the fingerprints, do not depend on the order in which the
/// members of JSON objects stand.
pub proof fn law_block_texts_ignore_member_order(
    role: Seq<char>,
    index: nat,
    block_index: nat,
    a: Json,
    b: Json,
)
    requires
        same_json(a, b),
    ensures
        part_value(role, index, block_index, a) == part_value(role, index, block_index, b),
        other_message_value(role, index, a) == other_message_value(role, index, b),
{
    law_stable_text_ignores_order(a, b);
}

/// The text of a tool does not depend on the order in which the members of its schema stand.
pub proof fn law_tool_text_ignores_member_order(a: Tool, b: Tool)
    requires
        a.name@ == b.name@,
        a.description@ == b.description@,
        same_json(a.input_schema@, b.input_schema@),
    ensures
        tool_value(a) == tool_value(b),
        tool_text(a) == tool_text(b),
{
    law_stable_text_ignores_order(a.input_schema@, b.input_schema@);
}

/// A longer prompt keeps the breakpoints of its beginning: what was cached for a prompt is found
/// again when blocks are added behind it.
pub proof fn law_longer_prompt_keeps_breakpoints(first: Seq<Block>, more: Seq<Block>)
    ensures
        breakpoints_of(first).len() <= breakpoints_of(first + more).len(),
        breakpoints_of(first + more).take(breakpoints_of(first).len() as int) == breakpoints_of(
            first,
        ),
    decreases more.len(),
{
    if more.len() == 0 {
        assert(first + more =~= first);
    } else {
        law_longer_prompt_keeps_breakpoints(first, more.drop_last());
        assert((first + more).drop_last() =~= first + more.drop_last());
        let n = breakpoints_of(first).len() as int;
        assert(breakpoints_of(first + more).take(n) =~= breakpoints_of(
            first + more.drop_last(),
        ).take(n));
    }
}

/// No byte of the UTF-8 of a decimal numeral is zero.
proof fn lemma_numeral_bytes(n: nat)
    ensures
        forall|i: int|
            0 <= i < encode_utf8(decimal(n)).len() ==> #[trigger] encode_utf8(decimal(n))[i] != 0,
{
    lemma_decimal(n);
    let text = decimal(n);
    assert(is_ascii_chars(text)) by {
        assert forall|i: int| 0 <= i < text.len() implies 0 <= #[trigger] text[i] < 128 by {}
    }
    vstd::utf8::is_ascii_chars_encode_utf8(text);
    assert forall|i: int| 0 <= i < encode_utf8(text).len() implies #[trigger] encode_utf8(text)[i]
        != 0 by {
        assert('0' <= text[i] <= '9');
    }
}

/// A text can be told from its UTF-8.
proof fn lemma_utf8_injective(a: Seq<char>, b: Seq<char>)
    requires
        encode_utf8(a) == encode_utf8(b),
    ensures
        a == b,
{
    vstd::utf8::encode_utf8_decode_utf8(a);
    vstd::utf8::encode_utf8_decode_utf8(b);
}

/// A frame can be told from what follows it.
pub proof fn law_frame_can_be_told(a: Seq<char>, s: Seq<u8>, b: Seq<char>, t: Seq<u8>)
    requires
        framed(a) + s == framed(b) + t,
    ensures
        a == b,
        s == t,
{
    let x = encode_utf8(a);
    let y = encode_utf8(b);
    let p = encode_utf8(decimal(x.len()));
    let q = encode_utf8(decimal(y.len()));
    let whole = framed(a) + s;
    lemma_numeral_bytes(x.len());
    lemma_numeral_bytes(y.len());
    assert(whole[p.len() as int] == 0);
    assert(whole[q.len() as int] == 0) by {
        assert((framed(b) + t)[q.len() as int] == 0);
    }
    assert(p.len() == q.len()) by {
        if p.len() < q.len() {
            assert((framed(b) + t)[p.len() as int] == q[p.len() as int]);
        }
        if q.len() < p.len() {
            assert((framed(a) + s)[q.len() as int] == p[q.len() as int]);
        }
    }
    assert(p =~= whole.take(p.len() as int));
    assert(q =~= (framed(b) + t).take(q.len() as int));
    lemma_utf8_injective(decimal(x.len()), decimal(y.len()));
    lemma_decimal(x.len());
    lemma_decimal(y.len());
    assert(x.len() == y.len());
    let from = p.len() + 1;
    let to = from + x.len();
    assert(x =~= whole.subrange(from as int, to as int));
    assert(y =~= (framed(b) + t).subrange(from as int, to as int));
    lemma_utf8_injective(a, b);
    assert(s =~= whole.skip((to + 1) as int));
    assert(t =~= (framed(b) + t).skip((to + 1) as int));
}

/// The stream begins with the frame of the first block.
proof fn lemma_stream_front(blocks: Seq<Block>)
    requires
        blocks.len() > 0,
    ensures
        stream(blocks) == framed(blocks[0].value) + stream(blocks.drop_first()),
    decreases blocks.len(),
{
    if blocks.len() == 1 {
        assert(blocks.drop_last() =~= Seq::empty());
        assert(blocks.drop_first() =~= Seq::empty());
        assert(stream(blocks) =~= framed(blocks[0].value) + stream(blocks.drop_first()));
    } else {
        lemma_stream_front(blocks.drop_last());
        assert(blocks.drop_last().drop_first() == blocks.drop_first().drop_last());
        assert(blocks.drop_first().last() == blocks.last());
        assert(stream(blocks) =~= framed(blocks[0].value) + stream(blocks.drop_first()));
    }
}

/// What is hashed identifies the prompt: two lists of blocks with the same stream have the same
/// texts. Different prompts have the same fingerprint only where SHA-256 collides.
pub proof fn law_stream_identifies_prompt(a: Seq<Block>, b: Seq<Block>)
    requires
        stream(a) == stream(b),
    ensures
        a.len() == b.len(),
        forall|i: int| 0 <= i < a.len() ==> (#[trigger] a[i]).value == b[i].value,
    decreases a.len(),
{
    if a.len() > 0 {
        lemma_stream_front(a);
    }
    if b.len() > 0 {
        lemma_stream_front(b);
    }
    if a.len() == 0 || b.len() == 0 {
        assert(stream(Seq::<Block>::empty()).len() == 0);
        if a.len() > 0 {
            assert(b =~= Seq::empty());
            assert(framed(a[0].value).len() > 0);
        }
        if b.len() > 0 {
            assert(a =~= Seq::empty());
            assert(framed(b[0].value).len() > 0);
        }
    } else {
        law_frame_can_be_told(
            a[0].value,
            stream(a.drop_first()),
            b[0].value,
            stream(b.drop_first()),
        );
        law_stream_identifies_prompt(a.drop_first(), b.drop_first());
        assert forall|i: int| 0 <= i < a.len() implies (#[trigger] a[i]).value == b[i].value by {
            if i > 0 {
                assert(a[i] == a.drop_first()[i - 1]);
                assert(b[i] == b.drop_first()[i - 1]);
            }
        }
    }
}

} // verus!
