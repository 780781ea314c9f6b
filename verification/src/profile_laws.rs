//! Laws of profiles: their breakpoints, their fingerprints and their size.
use crate::block_laws::{
    has_control, law_blocks_of_system, law_number_of_blocks, system_size, tools_size,
};
use crate::blocks::{request_blocks, Block};
use crate::cache_policy::system_counts;
use crate::profile::{
    block_counts, breakpoints_of, breakpoints_view, fingerprint, hex_text, profile_of, sha256,
    stream, Breakpoint, CacheProfile,
};
use crate::request_laws::law_stream_identifies_prompt;
use crate::text::{decimal, hex_digit};
use crate::tokens::{sums_fit, total, TokenModel};
use crate::types::MessagesRequest;
use vstd::prelude::*;
use vstd::utf8::encode_utf8;

verus! {

/// How many of the first `n` blocks have a life.
pub open spec fn lives(blocks: Seq<Block>, n: nat) -> nat
    decreases n,
{
    if n == 0 {
        0
    } else if blocks[n - 1].ttl is Some {
        lives(blocks, (n - 1) as nat) + 1
    } else {
        lives(blocks, (n - 1) as nat)
    }
}

/// The number of lives among the first blocks does not depend on those behind.
proof fn lemma_lives_of_front(blocks: Seq<Block>, n: nat)
    requires
        n < blocks.len(),
    ensures
        lives(blocks.drop_last(), n) == lives(blocks, n),
    decreases n,
{
    if n > 0 {
        lemma_lives_of_front(blocks, (n - 1) as nat);
    }
}

/// There are as many breakpoints as blocks with a life, and the breakpoint of each of those has the
/// fingerprint of the blocks up to it, their tokens, and its life.
pub proof fn law_each_life_makes_a_breakpoint(blocks: Seq<Block>, i: nat)
    ensures
        breakpoints_of(blocks).len() == lives(blocks, blocks.len()),
        i < blocks.len() && blocks[i as int].ttl is Some ==> {
            let n = lives(blocks, i) as int;
            let upto = blocks.take((i + 1) as int);
            &&& n < breakpoints_of(blocks).len()
            &&& breakpoints_of(blocks)[n] == (Breakpoint {
                fingerprint: fingerprint(upto),
                cumulative_tokens: total(Seq::new(upto.len(), |j: int| upto[j].tokens)) as i32,
                ttl: blocks[i as int].ttl->0,
            })
        },
    decreases blocks.len(),
{
    if blocks.len() > 0 {
        let front = blocks.drop_last();
        law_each_life_makes_a_breakpoint(front, i);
        lemma_lives_of_front(blocks, front.len());
        if i < front.len() {
            lemma_lives_of_front(blocks, i);
            assert(front.take((i + 1) as int) =~= blocks.take((i + 1) as int));
        } else if i == front.len() {
            let upto = blocks.take((i + 1) as int);
            assert(upto =~= blocks);
            assert(block_counts(blocks) =~= Seq::new(upto.len(), |j: int| upto[j].tokens));
        }
    }
}

/// A hexadecimal text stands for one sequence of bytes.
pub proof fn law_hexadecimal_identifies_bytes(x: Seq<u8>, y: Seq<u8>)
    requires
        hex_text(x) == hex_text(y),
    ensures
        x == y,
{
    assert(hex_text(x).len() == 2 * x.len());
    assert(hex_text(y).len() == 2 * y.len());
    assert(x.len() == y.len());
    assert forall|i: int| 0 <= i < x.len() implies x[i] == y[i] by {
        assert(hex_text(x)[2 * i] == hex_text(y)[2 * i]);
        assert(hex_text(x)[2 * i + 1] == hex_text(y)[2 * i + 1]);
        assert((2 * i) / 2 == i && (2 * i + 1) / 2 == i && (2 * i) % 2 == 0 && (2 * i + 1) % 2
            == 1);
        assert(hex_text(x)[2 * i] == hex_digit(x[i] as nat / 16));
        assert(hex_text(y)[2 * i] == hex_digit(y[i] as nat / 16));
        assert(hex_text(x)[2 * i + 1] == hex_digit(x[i] as nat % 16));
        assert(hex_text(y)[2 * i + 1] == hex_digit(y[i] as nat % 16));
        assert(x[i] as nat / 16 == y[i] as nat / 16);
        assert(x[i] as nat % 16 == y[i] as nat % 16);
    }
    assert(x =~= y);
}

/// A fingerprint identifies the texts of the blocks: where two lists of blocks have the same one,
/// their texts are the same, or SHA-256 makes the same of two different streams.
pub proof fn law_fingerprint_identifies_texts(a: Seq<Block>, b: Seq<Block>)
    requires
        fingerprint(a) == fingerprint(b),
    ensures
        ({
            ||| a.len() == b.len() && forall|i: int|
                0 <= i < a.len() ==> (#[trigger] a[i]).value == b[i].value
            ||| stream(a) != stream(b) && sha256(stream(a)) == sha256(stream(b))
        }),
{
    law_hexadecimal_identifies_bytes(sha256(stream(a)), sha256(stream(b)));
    if stream(a) == stream(b) {
        law_stream_identifies_prompt(a, b);
    }
}

/// A fingerprint depends on the texts of the blocks alone, not on their counts or lives.
pub proof fn law_fingerprint_depends_on_texts_alone(a: Seq<Block>, b: Seq<Block>)
    requires
        a.len() == b.len(),
        forall|i: int| 0 <= i < a.len() ==> (#[trigger] a[i]).value == b[i].value,
    ensures
        stream(a) == stream(b),
        fingerprint(a) == fingerprint(b),
    decreases a.len(),
{
    if a.len() > 0 {
        let x = a.drop_last();
        let y = b.drop_last();
        assert forall|i: int| 0 <= i < x.len() implies (#[trigger] x[i]).value == y[i].value by {
            assert(x[i] == a[i]);
        }
        law_fingerprint_depends_on_texts_alone(x, y);
        assert(a[a.len() - 1].value == b[b.len() - 1].value);
    }
}

/// Each block adds its text to the stream, with its length in bytes before it and zeros between.
pub proof fn law_stream_grows_by_framed_texts(blocks: Seq<Block>, block: Block)
    ensures
        stream(Seq::empty()).len() == 0,
        stream(blocks.push(block)) == stream(blocks) + (encode_utf8(
            decimal(encode_utf8(block.value).len()),
        ) + seq![0u8] + encode_utf8(block.value) + seq![0u8]),
{
    assert(blocks.push(block).drop_last() =~= blocks);
}

/// A profile holds the breakpoints of its blocks and the model, and its size is the largest of what
/// was asked for, what the blocks have together, and one. There is none exactly where no block has
/// a life.
pub proof fn law_profile_of_blocks(
    profile: Option<CacheProfile>,
    blocks: Seq<Block>,
    total_input_tokens: i32,
    model: Seq<char>,
    i: nat,
)
    requires
        profile_of(profile, blocks, total_input_tokens, model),
    ensures
        profile is None <==> lives(blocks, blocks.len()) == 0,
        profile matches Some(p) ==> {
            let sum = total(Seq::new(blocks.len(), |j: int| blocks[j].tokens));
            &&& p.model@ == model
            &&& p.total_input_tokens >= total_input_tokens
            &&& p.total_input_tokens >= sum
            &&& p.total_input_tokens >= 1
            &&& p.total_input_tokens == total_input_tokens || p.total_input_tokens == sum
                || p.total_input_tokens == 1
            &&& p.breakpoints@.len() == lives(blocks, blocks.len())
            &&& i < blocks.len() && blocks[i as int].ttl is Some ==> {
                let upto = blocks.take((i + 1) as int);
                let breakpoint = p.breakpoints@[lives(blocks, i) as int];
                &&& breakpoint.fingerprint@ == fingerprint(upto)
                &&& breakpoint.cumulative_tokens == total(
                    Seq::new(upto.len(), |j: int| upto[j].tokens),
                ) as i32
                &&& breakpoint.ttl == blocks[i as int].ttl->0
            }
        },
{
    law_each_life_makes_a_breakpoint(blocks, i);
    if let Some(p) = profile {
        assert(block_counts(blocks) =~= Seq::new(blocks.len(), |j: int| blocks[j].tokens));
        assert(breakpoints_view(p.breakpoints@).len() == p.breakpoints@.len());
        if i < blocks.len() && blocks[i as int].ttl is Some {
            let n = lives(blocks, i) as int;
            assert(breakpoints_view(p.breakpoints@)[n] == p.breakpoints@[n]@);
        }
    }
}

/// Without cache controls, a system prompt of 1024 tokens or more is cached whole: every block of it
/// has the default life, and a breakpoint stands behind its last block, with the tokens of all tools
/// and of the whole system prompt.
pub proof fn law_whole_system_prompt_is_cached(
    req: MessagesRequest,
    model: TokenModel,
    i: int,
)
    requires
        !has_control(req),
        system_size(req) > 0,
        total(system_counts(req.system->0@, model)) >= 1024,
    ensures
        0 <= i < system_size(req) ==> request_blocks(req, model)[tools_size(req) + i].ttl == Some(
            300int,
        ),
        ({
            let blocks = request_blocks(req, model);
            let end = (tools_size(req) + system_size(req)) as int;
            let upto = blocks.take(end);
            exists|n: int|
                #![trigger breakpoints_of(blocks)[n]]
                0 <= n < breakpoints_of(blocks).len() && breakpoints_of(blocks)[n] == (Breakpoint {
                    fingerprint: fingerprint(upto),
                    cumulative_tokens: total(Seq::new(upto.len(), |j: int| upto[j].tokens)) as i32,
                    ttl: 300int,
                })
        }),
{
    let blocks = request_blocks(req, model);
    let last = system_size(req) - 1;
    if 0 <= i < system_size(req) {
        law_blocks_of_system(req, model, i);
    }
    law_blocks_of_system(req, model, last);
    law_number_of_blocks(req, model);
    let at = (tools_size(req) + last) as nat;
    law_each_life_makes_a_breakpoint(blocks, at);
    let n = lives(blocks, at) as int;
    assert(breakpoints_of(blocks)[n].ttl == 300);
}

/// Sums fit exactly where every sum of the first counts is within 32 bits.
pub proof fn law_sums_fit_where_each_does(counts: Seq<i32>)
    ensures
        sums_fit(counts) <==> forall|n: int|
            0 <= n <= counts.len() ==> -2147483648 <= #[trigger] total(counts.take(n))
                <= 2147483647,
{
}

} // verus!
