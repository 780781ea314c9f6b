//! The cache profile of a request: the points up to which its prompt is to be cached.
use crate::blocks::{
    blocks_view, flatten_cache_blocks, policy_sums_fit, request_blocks, Block, CacheableBlock,
};
use crate::cache_policy::{
    content_counts, count_content, count_system, count_tools, explicit, should_use_default_cache,
};
use crate::text::{decimal, decimal_text, hex_digit};
use crate::tokens::{
    counts_by, counts_fit, is_counter, lemma_total_step, sums_fit, total, TokenModel,
};
use crate::types::MessagesRequest;
use vstd::prelude::*;
use vstd::utf8::encode_utf8;

verus! {

/// A point up to which the prompt is to be cached.
#[derive(Debug, Clone)]
pub struct CacheBreakpoint {
    /// What identifies the prompt up to this point.
    pub fingerprint: String,
    /// The number of tokens up to this point.
    pub cumulative_tokens: i32,
    /// How long to cache it, in seconds.
    pub ttl: u64,
}

/// What a [`CacheBreakpoint`] stands for.
pub struct Breakpoint {
    pub fingerprint: Seq<char>,
    pub cumulative_tokens: i32,
    pub ttl: int,
}

impl View for CacheBreakpoint {
    type V = Breakpoint;

    open spec fn view(&self) -> Breakpoint {
        Breakpoint {
            fingerprint: self.fingerprint@,
            cumulative_tokens: self.cumulative_tokens,
            ttl: self.ttl as int,
        }
    }
}

/// The breakpoints of a request, with its size and its model.
#[derive(Debug, Clone)]
pub struct CacheProfile {
    pub breakpoints: Vec<CacheBreakpoint>,
    pub total_input_tokens: i32,
    pub model: String,
}

/// What a list of breakpoints stands for.
pub open spec fn breakpoints_view(breakpoints: Seq<CacheBreakpoint>) -> Seq<Breakpoint> {
    Seq::new(breakpoints.len(), |i: int| breakpoints[i]@)
}

impl CacheProfile {
    /// There is a breakpoint, and the request has a positive size.
    pub open spec fn well_formed(self) -> bool {
        &&& self.breakpoints@.len() > 0
        &&& self.total_input_tokens >= 1
    }
}

/// The sums of the counts of the request do not fit into 32 bits.
#[derive(Debug, Clone, Copy, PartialEq, Eq)]
pub struct TokenOverflow;

/// What SHA-256 makes of a sequence of bytes.
pub uninterp spec fn sha256(bytes: Seq<u8>) -> Seq<u8>;

/// `sha2::Sha256::digest`: the SHA-256 digest of the bytes, 32 bytes that depend on them alone.
#[verifier::external_body]
fn sha256_digest(bytes: &Vec<u8>) -> (digest: Vec<u8>)
    ensures
        digest@ == sha256(bytes@),
        digest@.len() == 32,
{
    <sha2::Sha256 as sha2::Digest>::digest(bytes).to_vec()
}

/// Each byte as two lower case hexadecimal digits, the high one first.
pub open spec fn hex_text(bytes: Seq<u8>) -> Seq<char> {
    Seq::new(
        2 * bytes.len(),
        |i: int|
            if i % 2 == 0 {
                hex_digit(bytes[i / 2] as nat / 16)
            } else {
                hex_digit(bytes[i / 2] as nat % 16)
            },
    )
}

/// `hex::encode`: each byte as two lower case hexadecimal digits, the high one first.
#[verifier::external_body]
fn hex_encode(bytes: &Vec<u8>) -> (text: String)
    ensures
        text@ == hex_text(bytes@),
{
    hex::encode(bytes)
}

/// A text as it enters the hash: its length in bytes, a zero, its bytes, a zero.
pub open spec fn framed(chunk: Seq<char>) -> Seq<u8> {
    encode_utf8(decimal(encode_utf8(chunk).len())) + seq![0u8] + encode_utf8(chunk) + seq![0u8]
}

/// The frames of the blocks, one after the other.
pub open spec fn stream(blocks: Seq<Block>) -> Seq<u8>
    decreases blocks.len(),
{
    if blocks.len() == 0 {
        Seq::empty()
    } else {
        stream(blocks.drop_last()) + framed(blocks.last().value)
    }
}

/// What identifies the prompt that `blocks` make up.
pub open spec fn fingerprint(blocks: Seq<Block>) -> Seq<char> {
    hex_text(sha256(stream(blocks)))
}

/// The counts of the blocks.
pub open spec fn block_counts(blocks: Seq<Block>) -> Seq<i32> {
    Seq::new(blocks.len(), |i: int| blocks[i].tokens)
}

/// The breakpoints of `blocks`: one behind each block with a life.
pub open spec fn breakpoints_of(blocks: Seq<Block>) -> Seq<Breakpoint>
    decreases blocks.len(),
{
    if blocks.len() == 0 {
        Seq::empty()
    } else {
        let before = breakpoints_of(blocks.drop_last());
        match blocks.last().ttl {
            Some(ttl) => before.push(
                Breakpoint {
                    fingerprint: fingerprint(blocks),
                    cumulative_tokens: total(block_counts(blocks)) as i32,
                    ttl,
                },
            ),
            None => before,
        }
    }
}

/// The larger of two numbers.
pub open spec fn larger(a: int, b: int) -> int {
    if a >= b {
        a
    } else {
        b
    }
}

/// `profile` is what the blocks of a request make up: nothing where there is no breakpoint.
pub open spec fn profile_of(
    profile: Option<CacheProfile>,
    blocks: Seq<Block>,
    total_input_tokens: i32,
    model: Seq<char>,
) -> bool {
    match profile {
        Some(p) => {
            &&& breakpoints_of(blocks).len() > 0
            &&& breakpoints_view(p.breakpoints@) == breakpoints_of(blocks)
            &&& p.total_input_tokens == larger(
                larger(total_input_tokens as int, total(block_counts(blocks))),
                1,
            )
            &&& p.model@ == model
            &&& p.well_formed()
        },
        None => breakpoints_of(blocks).len() == 0,
    }
}

/// The sums that building the profile of a request forms stay within 32 bits.
pub open spec fn request_sums_fit(req: MessagesRequest, model: TokenModel) -> bool {
    &&& policy_sums_fit(req, model)
    &&& sums_fit(block_counts(request_blocks(req, model)))
}

/// Adds `bytes` at the end.
fn append_bytes(to: &mut Vec<u8>, bytes: &[u8])
    ensures
        final(to)@ == old(to)@ + bytes@,
{
    let mut n: usize = 0;
    proof {
        assert(bytes@.take(0) =~= Seq::empty());
    }
    while n < bytes.len()
        invariant
            n <= bytes@.len(),
            to@ == old(to)@ + bytes@.take(n as int),
        decreases bytes@.len() - n,
    {
        to.push(bytes[n]);
        proof {
            assert(to@ =~= old(to)@ + bytes@.take(n + 1));
        }
        n = n + 1;
    }
    proof {
        assert(bytes@.take(n as int) == bytes@);
    }
}

/// Adds the frame of `chunk` to what is to be hashed.
pub fn hash_chunk(hashed: &mut Vec<u8>, chunk: &str)
    ensures
        final(hashed)@ == old(hashed)@ + framed(chunk@),
{
    let bytes = chunk.as_bytes();
    let length = decimal_text(bytes.len() as u64);
    append_bytes(hashed, length.as_str().as_bytes());
    hashed.push(0u8);
    append_bytes(hashed, bytes);
    hashed.push(0u8);
    proof {
        assert(hashed@ =~= old(hashed)@ + framed(chunk@));
    }
}

/// The profile of a request whose blocks are given.
pub fn profile_from_blocks(
    blocks: &Vec<CacheableBlock>,
    total_input_tokens: i32,
    model: &str,
) -> (profile: Option<CacheProfile>)
    requires
        sums_fit(block_counts(blocks_view(blocks@))),
    ensures
        profile_of(profile, blocks_view(blocks@), total_input_tokens, model@),
{
    let ghost all = blocks_view(blocks@);
    let mut hashed: Vec<u8> = Vec::new();
    let mut breakpoints: Vec<CacheBreakpoint> = Vec::new();
    let mut cumulative_tokens: i32 = 0;
    let mut n: usize = 0;
    proof {
        assert(all.take(0) =~= Seq::empty());
        assert(block_counts(all).take(0) =~= Seq::empty());
        assert(breakpoints_view(breakpoints@) =~= breakpoints_of(all.take(0)));
    }
    while n < blocks.len()
        invariant
            n <= blocks@.len(),
            all == blocks_view(blocks@),
            sums_fit(block_counts(all)),
            hashed@ == stream(all.take(n as int)),
            cumulative_tokens == total(block_counts(all).take(n as int)),
            breakpoints_view(breakpoints@) == breakpoints_of(all.take(n as int)),
        decreases blocks@.len() - n,
    {
        proof {
            lemma_total_step(block_counts(all), n as int);
            assert(all.take(n + 1).drop_last() == all.take(n as int));
            assert(all.take(n + 1).last() == blocks@[n as int]@);
            assert(block_counts(all.take(n + 1)) =~= block_counts(all).take(n + 1));
        }
        hash_chunk(&mut hashed, blocks[n].value.as_str());
        cumulative_tokens = cumulative_tokens + blocks[n].tokens;
        if let Some(ttl) = blocks[n].ttl {
            let ghost before = breakpoints_view(breakpoints@);
            let digest = sha256_digest(&hashed);
            breakpoints.push(
                CacheBreakpoint { fingerprint: hex_encode(&digest), cumulative_tokens, ttl },
            );
            proof {
                assert(breakpoints_view(breakpoints@) =~= before.push(
                    breakpoints@[breakpoints@.len() - 1]@,
                ));
            }
        }
        n = n + 1;
    }
    proof {
        assert(all.take(n as int) == all);
        assert(block_counts(all).take(n as int) == block_counts(all));
        assert(breakpoints_view(breakpoints@).len() == breakpoints@.len());
    }
    if breakpoints.len() == 0 {
        return None;
    }
    let mut total_tokens: i32 = total_input_tokens;
    if cumulative_tokens > total_tokens {
        total_tokens = cumulative_tokens;
    }
    if total_tokens < 1 {
        total_tokens = 1;
    }
    Some(
        CacheProfile { breakpoints, total_input_tokens: total_tokens, model: model.to_owned() },
    )
}

/// The profile of a request; nothing where its prompt is not to be cached.
pub fn build_profile<F: Fn(&str) -> u64>(
    req: &MessagesRequest,
    total_input_tokens: i32,
    count: &F,
) -> (profile: Option<CacheProfile>)
    requires
        is_counter(count),
        forall|model: TokenModel| #[trigger]
            counts_by(count, model) ==> request_sums_fit(*req, model),
    ensures
        forall|model: TokenModel| #[trigger]
            counts_by(count, model) ==> profile_of(
                profile,
                request_blocks(*req, model),
                total_input_tokens,
                req.model@,
            ),
{
    let blocks = flatten_cache_blocks(req, count);
    profile_from_blocks(&blocks, total_input_tokens, req.model.as_str())
}

/// Whether the sums that the default policy forms stay within 32 bits.
pub fn policy_sums_in_range<F: Fn(&str) -> u64>(req: &MessagesRequest, count: &F) -> (fit: bool)
    requires
        is_counter(count),
    ensures
        forall|model: TokenModel| #[trigger]
            counts_by(count, model) ==> fit == policy_sums_fit(*req, model),
{
    if !should_use_default_cache(req) {
        return true;
    }
    if let Some(tools) = &req.tools {
        let counts = count_tools(tools.as_slice(), count);
        if !counts_fit(&counts) {
            return false;
        }
    }
    if let Some(system) = &req.system {
        let counts = count_system(system, count);
        if !counts_fit(&counts) {
            return false;
        }
    }
    let history: usize = if req.messages.len() > 0 {
        req.messages.len() - 1
    } else {
        0
    };
    let mut n: usize = 0;
    while n < history
        invariant
            req.messages@.len() > 0 ==> history == req.messages@.len() - 1,
            req.messages@.len() == 0 ==> history == 0,
            n <= history,
            is_counter(count),
            !explicit(*req),
            forall|model: TokenModel| #[trigger]
                counts_by(count, model) ==> forall|i: int|
                    0 <= i < n ==> sums_fit(
                        content_counts((#[trigger] req.messages@[i]).content@, model),
                    ),
        decreases history - n,
    {
        let counts = count_content(&req.messages[n].content, count);
        if !counts_fit(&counts) {
            return false;
        }
        n = n + 1;
    }
    true
}

/// The profile of a request, or the news that its counts are too large to be added up.
pub fn try_build_profile<F: Fn(&str) -> u64>(
    req: &MessagesRequest,
    total_input_tokens: i32,
    count: &F,
) -> (profile: Result<Option<CacheProfile>, TokenOverflow>)
    requires
        is_counter(count),
    ensures
        forall|model: TokenModel| #[trigger]
            counts_by(count, model) ==> {
                &&& profile is Ok == request_sums_fit(*req, model)
                &&& profile matches Ok(p) ==> profile_of(
                    p,
                    request_blocks(*req, model),
                    total_input_tokens,
                    req.model@,
                )
            },
{
    if !policy_sums_in_range(req, count) {
        return Err(TokenOverflow);
    }
    let blocks = flatten_cache_blocks(req, count);
    let mut counts: Vec<i32> = Vec::new();
    let mut n: usize = 0;
    while n < blocks.len()
        invariant
            n <= blocks@.len(),
            counts@ == block_counts(blocks_view(blocks@)).take(n as int),
        decreases blocks@.len() - n,
    {
        counts.push(blocks[n].tokens);
        n = n + 1;
    }
    proof {
        assert(counts@ =~= block_counts(blocks_view(blocks@)));
    }
    if !counts_fit(&counts) {
        return Err(TokenOverflow);
    }
    Ok(profile_from_blocks(&blocks, total_input_tokens, req.model.as_str()))
}

} // verus!
