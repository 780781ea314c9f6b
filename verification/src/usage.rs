//! The cache part of a usage report.
use crate::assoc::{lookup, with_member};
use crate::json::{
    get_member, insert_member, integer, lemma_view, members_view, Json, Value,
};
use crate::profile::{breakpoints_view, Breakpoint, CacheProfile};
use crate::ttl::{is_one_hour_ttl, ONE_HOUR_CACHE_TTL};
use vstd::prelude::*;

verus! {

/// How many input tokens were written to the cache, by life, and how many were read from it.
#[derive(Debug, Clone, Copy, PartialEq, Eq)]
pub struct CacheUsage {
    pub cache_creation_input_tokens: i32,
    pub cache_creation_5m_input_tokens: i32,
    pub cache_creation_1h_input_tokens: i32,
    pub cache_read_input_tokens: i32,
}

/// Nothing written, nothing read.
pub open spec fn no_usage() -> CacheUsage {
    CacheUsage {
        cache_creation_input_tokens: 0,
        cache_creation_5m_input_tokens: 0,
        cache_creation_1h_input_tokens: 0,
        cache_read_input_tokens: 0,
    }
}

impl Default for CacheUsage {
    fn default() -> (usage: CacheUsage)
        ensures
            usage == no_usage(),
    {
        CacheUsage {
            cache_creation_input_tokens: 0,
            cache_creation_5m_input_tokens: 0,
            cache_creation_1h_input_tokens: 0,
            cache_read_input_tokens: 0,
        }
    }
}

/// The smaller of two numbers.
pub open spec fn smaller(a: int, b: int) -> int {
    if a <= b {
        a
    } else {
        b
    }
}

/// How many of the tokens in `floor..end` belong to a breakpoint of the long life. A token belongs
/// to the first breakpoint that reaches beyond it.
pub open spec fn one_hour_tokens(breakpoints: Seq<Breakpoint>, floor: int, end: int) -> int
    decreases breakpoints.len(),
{
    if breakpoints.len() == 0 {
        0
    } else {
        let upper = smaller(breakpoints[0].cumulative_tokens as int, end);
        if upper > floor {
            (if breakpoints[0].ttl >= ONE_HOUR_CACHE_TTL {
                upper - floor
            } else {
                0
            }) + one_hour_tokens(breakpoints.drop_first(), upper, end)
        } else {
            one_hour_tokens(breakpoints.drop_first(), floor, end)
        }
    }
}

/// How many of the `creation` tokens behind the first `matched` ones are written for one hour.
pub open spec fn long_part(
    breakpoints: Seq<Breakpoint>,
    total: int,
    matched: int,
    creation: int,
) -> int {
    if creation <= 0 {
        0
    } else {
        one_hour_tokens(
            breakpoints,
            if matched > 0 {
                matched
            } else {
                0
            },
            smaller(matched + creation, total),
        )
    }
}

/// Nothing lies between a floor and an end that it has reached.
proof fn lemma_nothing_left(breakpoints: Seq<Breakpoint>, floor: int, end: int)
    requires
        floor >= end,
    ensures
        one_hour_tokens(breakpoints, floor, end) == 0,
    decreases breakpoints.len(),
{
    if breakpoints.len() > 0 {
        lemma_nothing_left(breakpoints.drop_first(), floor, end);
    }
}

/// There are at most as many tokens of the long life as there are tokens.
pub proof fn lemma_one_hour_tokens(breakpoints: Seq<Breakpoint>, floor: int, end: int)
    ensures
        0 <= one_hour_tokens(breakpoints, floor, end),
        floor <= end ==> one_hour_tokens(breakpoints, floor, end) <= end - floor,
        floor > end ==> one_hour_tokens(breakpoints, floor, end) == 0,
    decreases breakpoints.len(),
{
    if breakpoints.len() > 0 {
        let upper = smaller(breakpoints[0].cumulative_tokens as int, end);
        if upper > floor {
            lemma_one_hour_tokens(breakpoints.drop_first(), upper, end);
        } else {
            lemma_one_hour_tokens(breakpoints.drop_first(), floor, end);
        }
    }
}

/// Splits the `creation_tokens` behind the first `matched_tokens` by life: those for five minutes,
/// then those for one hour. What no breakpoint covers counts as five minutes.
pub fn split_cache_creation_tokens(
    profile: &CacheProfile,
    matched_tokens: i32,
    creation_tokens: i32,
) -> (split: (i32, i32))
    requires
        creation_tokens > 0 ==> matched_tokens + creation_tokens <= i32::MAX,
    ensures
        split.1 == long_part(
            breakpoints_view(profile.breakpoints@),
            profile.total_input_tokens as int,
            matched_tokens as int,
            creation_tokens as int,
        ),
        split.0 == if creation_tokens > 0 {
            creation_tokens - split.1
        } else {
            0
        },
        0 <= split.0,
        0 <= split.1,
{
    if creation_tokens <= 0 {
        return (0, 0);
    }
    let mut creation_end: i32 = matched_tokens + creation_tokens;
    if profile.total_input_tokens < creation_end {
        creation_end = profile.total_input_tokens;
    }
    let ghost all = breakpoints_view(profile.breakpoints@);
    let ghost end = creation_end as int;
    let start: i32 = if matched_tokens > 0 {
        matched_tokens
    } else {
        0
    };
    let mut reached: i32 = start;
    let mut creation_5m: i32 = 0;
    let mut creation_1h: i32 = 0;
    let mut n: usize = 0;
    proof {
        assert(all.skip(0) == all);
        lemma_one_hour_tokens(all, start as int, end);
    }
    while n < profile.breakpoints.len() && reached < creation_end
        invariant
            n <= profile.breakpoints@.len(),
            all == breakpoints_view(profile.breakpoints@),
            end == creation_end,
            0 <= start <= reached,
            0 <= creation_5m,
            0 <= creation_1h,
            creation_5m + creation_1h == reached - start,
            reached > start ==> reached <= end,
            creation_1h + one_hour_tokens(all.skip(n as int), reached as int, end)
                == one_hour_tokens(all, start as int, end),
        decreases profile.breakpoints@.len() - n,
    {
        let bp = &profile.breakpoints[n];
        proof {
            assert(all.skip(n as int)[0] == bp@);
            assert(all.skip(n as int).drop_first() == all.skip(n + 1));
        }
        let upper: i32 = if bp.cumulative_tokens < creation_end {
            bp.cumulative_tokens
        } else {
            creation_end
        };
        if upper > reached {
            let segment: i32 = upper - reached;
            if is_one_hour_ttl(bp.ttl) {
                creation_1h = creation_1h + segment;
            } else {
                creation_5m = creation_5m + segment;
            }
            reached = upper;
        }
        n = n + 1;
    }
    proof {
        if reached >= creation_end {
            lemma_nothing_left(all.skip(n as int), reached as int, end);
        } else {
            assert(all.skip(n as int).len() == 0);
        }
    }
    let split_total: i32 = creation_5m + creation_1h;
    if split_total < creation_tokens {
        creation_5m = creation_5m + (creation_tokens - split_total);
    }
    (creation_5m, creation_1h)
}

/// The `input_tokens` of a usage report; zero if they are missing.
pub open spec fn input_tokens(members: Seq<(Seq<char>, Json)>) -> int {
    match lookup(members, "input_tokens"@) {
        Some(n) => match n.as_i64() {
            Some(i) => i,
            None => 0,
        },
        None => 0,
    }
}

/// Reads the `input_tokens` of a usage report.
fn reported_input(members: &Vec<(String, Value)>) -> (tokens: i64)
    ensures
        tokens == input_tokens(members_view(members@)),
{
    match get_member(members, "input_tokens") {
        Some(n) => match n.as_i64() {
            Some(i) => i,
            None => 0,
        },
        None => 0,
    }
}

/// The tokens written for five minutes: those that the split leaves out count as such.
pub open spec fn short_tokens(cache: CacheUsage) -> int {
    let split = cache.cache_creation_5m_input_tokens + cache.cache_creation_1h_input_tokens;
    if cache.cache_creation_input_tokens > split {
        cache.cache_creation_5m_input_tokens + (cache.cache_creation_input_tokens - split)
    } else {
        cache.cache_creation_5m_input_tokens as int
    }
}

/// The input tokens that are neither written to the cache nor read from it.
pub open spec fn billed_tokens(members: Seq<(Seq<char>, Json)>, cache: CacheUsage) -> int {
    let rest = input_tokens(members) - cache.cache_creation_input_tokens
        - cache.cache_read_input_tokens;
    if rest > 0 {
        rest
    } else {
        0
    }
}

/// The tokens written to the cache, by life.
pub open spec fn creation_json(cache: CacheUsage) -> Json {
    Json::Object(
        seq![
            ("ephemeral_5m_input_tokens"@, integer(short_tokens(cache))),
            (
                "ephemeral_1h_input_tokens"@,
                integer(cache.cache_creation_1h_input_tokens as int),
            ),
        ],
    )
}

/// A usage report with the cache part added.
pub open spec fn with_cache_usage(members: Seq<(Seq<char>, Json)>, cache: CacheUsage) -> Seq<
    (Seq<char>, Json),
> {
    let billed = with_member(members, "input_tokens"@, integer(billed_tokens(members, cache)));
    let creation = with_member(
        billed,
        "cache_creation_input_tokens"@,
        integer(cache.cache_creation_input_tokens as int),
    );
    let read = with_member(
        creation,
        "cache_read_input_tokens"@,
        integer(cache.cache_read_input_tokens as int),
    );
    if short_tokens(cache) > 0 || cache.cache_creation_1h_input_tokens > 0 {
        with_member(read, "cache_creation"@, creation_json(cache))
    } else {
        read
    }
}

/// The differences that the report forms stay within their types.
pub open spec fn usage_in_range(members: Seq<(Seq<char>, Json)>, cache: CacheUsage) -> bool {
    let input = input_tokens(members);
    let creation = cache.cache_creation_input_tokens;
    let split = cache.cache_creation_5m_input_tokens + cache.cache_creation_1h_input_tokens;
    &&& i64::MIN <= input - creation <= i64::MAX
    &&& i64::MIN <= input - creation - cache.cache_read_input_tokens <= i64::MAX
    &&& i32::MIN <= split <= i32::MAX
    &&& creation > split ==> creation - split <= i32::MAX && short_tokens(cache) <= i32::MAX
}

/// Whether the cache part can be added to a usage report.
pub fn usage_fits(usage: &Value, cache_usage: CacheUsage) -> (fits: bool)
    ensures
        fits == (usage@ matches Json::Object(members) ==> usage_in_range(members, cache_usage)),
{
    proof {
        lemma_view(*usage);
    }
    match usage {
        Value::Object(members) => {
            let input: i64 = reported_input(members);
            let creation: i64 = cache_usage.cache_creation_input_tokens as i64;
            let read: i64 = cache_usage.cache_read_input_tokens as i64;
            let short: i64 = cache_usage.cache_creation_5m_input_tokens as i64;
            let split: i64 = short + cache_usage.cache_creation_1h_input_tokens as i64;
            let missing: i64 = creation - split;
            let rest: Option<i64> = match input.checked_sub(creation) {
                Some(uncached) => uncached.checked_sub(read),
                None => None,
            };
            rest.is_some() && i32::MIN as i64 <= split && split <= i32::MAX as i64 && (missing <= 0
                || missing <= i32::MAX as i64 && short + missing <= i32::MAX as i64)
        },
        _ => true,
    }
}

/// Adds the cache part to a usage report. What is not an object stays as it is.
pub fn apply_usage(usage: &mut Value, cache_usage: CacheUsage)
    requires
        old(usage)@ matches Json::Object(members) ==> usage_in_range(members, cache_usage),
    ensures
        match old(usage)@ {
            Json::Object(members) => final(usage)@ == Json::Object(
                with_cache_usage(members, cache_usage),
            ),
            _ => *final(usage) == *old(usage),
        },
{
    proof {
        lemma_view(*usage);
    }
    if let Value::Object(members) = usage {
        let ghost before = members_view(members@);
        let input_tokens: i64 = reported_input(members);
        let rest: i64 = input_tokens - cache_usage.cache_creation_input_tokens as i64
            - cache_usage.cache_read_input_tokens as i64;
        let billed: i64 = if rest > 0 {
            rest
        } else {
            0
        };
        insert_member(members, "input_tokens", Value::integer(billed));
        insert_member(
            members,
            "cache_creation_input_tokens",
            Value::integer(cache_usage.cache_creation_input_tokens as i64),
        );
        insert_member(
            members,
            "cache_read_input_tokens",
            Value::integer(cache_usage.cache_read_input_tokens as i64),
        );
        let mut creation_5m: i32 = cache_usage.cache_creation_5m_input_tokens;
        let creation_1h: i32 = cache_usage.cache_creation_1h_input_tokens;
        let split: i32 = creation_5m + creation_1h;
        if cache_usage.cache_creation_input_tokens > split {
            creation_5m = creation_5m + (cache_usage.cache_creation_input_tokens - split);
        }
        if creation_5m > 0 || creation_1h > 0 {
            let mut creation: Vec<(String, Value)> = Vec::new();
            creation.push(
                ("ephemeral_5m_input_tokens".to_owned(), Value::integer(creation_5m as i64)),
            );
            creation.push(
                ("ephemeral_1h_input_tokens".to_owned(), Value::integer(creation_1h as i64)),
            );
            let value = Value::Object(creation);
            proof {
                lemma_view(value);
                assert(members_view(creation@) =~= creation_json(cache_usage)->Object_0);
            }
            insert_member(members, "cache_creation", value);
        }
    }
    proof {
        lemma_view(*usage);
    }
}

} // verus!
