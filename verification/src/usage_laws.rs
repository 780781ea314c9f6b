//! Laws of the usage report.
use crate::assoc::{lemma_position_is, lemma_with_member, lookup, with_member};
use crate::json::{integer, Json, NumberModel};
use crate::profile::{breakpoints_view, Breakpoint, CacheProfile};
use crate::tracker::{computed, TrackerState};
use crate::usage::{
    billed_tokens, creation_json, input_tokens, lemma_one_hour_tokens, long_part, one_hour_tokens,
    short_tokens, usage_in_range, with_cache_usage, CacheUsage,
};
use vstd::prelude::*;

verus! {

/// The keys that a usage report gets.
pub open spec fn is_cache_key(key: Seq<char>) -> bool {
    ||| key == "input_tokens"@
    ||| key == "cache_creation_input_tokens"@
    ||| key == "cache_read_input_tokens"@
    ||| key == "cache_creation"@
}

/// The keys that a usage report gets are different ones.
pub proof fn lemma_cache_keys_differ()
    ensures
        "input_tokens"@ != "cache_creation_input_tokens"@,
        "input_tokens"@ != "cache_read_input_tokens"@,
        "input_tokens"@ != "cache_creation"@,
        "cache_creation_input_tokens"@ != "cache_read_input_tokens"@,
        "cache_creation_input_tokens"@ != "cache_creation"@,
        "cache_read_input_tokens"@ != "cache_creation"@,
{
    reveal_strlit("input_tokens");
    reveal_strlit("cache_creation_input_tokens");
    reveal_strlit("cache_read_input_tokens");
    reveal_strlit("cache_creation");
    assert("input_tokens"@.len() == 12);
    assert("cache_creation_input_tokens"@.len() == 27);
    assert("cache_read_input_tokens"@.len() == 23);
    assert("cache_creation"@.len() == 14);
}

/// A usage report shows what is written to the cache and what is read from it separately, shows the
/// rest as input, and keeps every other member.
pub proof fn law_usage_report(members: Seq<(Seq<char>, Json)>, cache: CacheUsage)
    ensures
        lookup(with_cache_usage(members, cache), "input_tokens"@) == Some(
            integer(billed_tokens(members, cache)),
        ),
        lookup(with_cache_usage(members, cache), "cache_creation_input_tokens"@) == Some(
            integer(cache.cache_creation_input_tokens as int),
        ),
        lookup(with_cache_usage(members, cache), "cache_read_input_tokens"@) == Some(
            integer(cache.cache_read_input_tokens as int),
        ),
        lookup(with_cache_usage(members, cache), "cache_creation"@) == if short_tokens(cache) > 0
            || cache.cache_creation_1h_input_tokens > 0 {
            Some(creation_json(cache))
        } else {
            lookup(members, "cache_creation"@)
        },
        forall|key: Seq<char>|
            !is_cache_key(key) ==> #[trigger] lookup(with_cache_usage(members, cache), key)
                == lookup(members, key),
{
    lemma_cache_keys_differ();
    let first = with_member(members, "input_tokens"@, integer(billed_tokens(members, cache)));
    let second = with_member(
        first,
        "cache_creation_input_tokens"@,
        integer(cache.cache_creation_input_tokens as int),
    );
    let third = with_member(
        second,
        "cache_read_input_tokens"@,
        integer(cache.cache_read_input_tokens as int),
    );
    lemma_with_member(members, "input_tokens"@, integer(billed_tokens(members, cache)));
    lemma_with_member(
        first,
        "cache_creation_input_tokens"@,
        integer(cache.cache_creation_input_tokens as int),
    );
    lemma_with_member(
        second,
        "cache_read_input_tokens"@,
        integer(cache.cache_read_input_tokens as int),
    );
    lemma_with_member(third, "cache_creation"@, creation_json(cache));
}

/// Input tokens are counted once: unless more was cached than came in, what is billed as input,
/// written and read adds up to the input.
pub proof fn law_input_is_counted_once(members: Seq<(Seq<char>, Json)>, cache: CacheUsage)
    ensures
        billed_tokens(members, cache) >= 0,
        cache.cache_creation_input_tokens + cache.cache_read_input_tokens <= input_tokens(members)
            ==> billed_tokens(members, cache) + cache.cache_creation_input_tokens
            + cache.cache_read_input_tokens == input_tokens(members),
{
}

/// Where the split does not exceed what is written, its two parts add up to it.
pub proof fn law_creation_split_adds_up(cache: CacheUsage)
    requires
        cache.cache_creation_5m_input_tokens + cache.cache_creation_1h_input_tokens
            <= cache.cache_creation_input_tokens,
    ensures
        short_tokens(cache) + cache.cache_creation_1h_input_tokens
            == cache.cache_creation_input_tokens,
{
}

/// The token with the given number belongs to a breakpoint that lives an hour or longer: the first
/// that reaches beyond it does.
pub open spec fn is_hour_token(breakpoints: Seq<Breakpoint>, token: int) -> bool {
    exists|i: int|
        0 <= i < breakpoints.len() && (#[trigger] breakpoints[i]).cumulative_tokens > token
            && breakpoints[i].ttl >= 3600 && forall|j: int|
            0 <= j < i ==> (#[trigger] breakpoints[j]).cumulative_tokens <= token
}

/// How many of the `count` tokens from `from` on, within the request, belong to a breakpoint that
/// lives an hour or longer, counted one by one.
pub open spec fn hour_tokens(
    breakpoints: Seq<Breakpoint>,
    total: int,
    from: int,
    count: nat,
) -> int
    decreases count,
{
    if count == 0 {
        0
    } else {
        let token = from + count - 1;
        hour_tokens(breakpoints, total, from, (count - 1) as nat) + if token < total
            && is_hour_token(breakpoints, token) {
            1int
        } else {
            0int
        }
    }
}

/// What belongs to the long life in two stretches adds up.
proof fn lemma_stretches_add_up(breakpoints: Seq<Breakpoint>, floor: int, middle: int, end: int)
    requires
        floor <= middle <= end,
    ensures
        one_hour_tokens(breakpoints, floor, end) == one_hour_tokens(breakpoints, floor, middle)
            + one_hour_tokens(breakpoints, middle, end),
    decreases breakpoints.len(),
{
    if breakpoints.len() > 0 {
        let rest = breakpoints.drop_first();
        let c = breakpoints[0].cumulative_tokens as int;
        lemma_one_hour_tokens(rest, floor, floor);
        lemma_one_hour_tokens(rest, middle, middle);
        lemma_one_hour_tokens(rest, end, end);
        if c <= floor {
            lemma_stretches_add_up(rest, floor, middle, end);
        } else if c <= middle {
            lemma_stretches_add_up(rest, c, middle, end);
        }
    }
}

/// One token belongs to the long life exactly where the first breakpoint beyond it does.
proof fn lemma_one_token(breakpoints: Seq<Breakpoint>, token: int)
    ensures
        one_hour_tokens(breakpoints, token, token + 1) == if is_hour_token(breakpoints, token) {
            1int
        } else {
            0int
        },
    decreases breakpoints.len(),
{
    if breakpoints.len() > 0 {
        let rest = breakpoints.drop_first();
        lemma_one_token(rest, token);
        lemma_one_hour_tokens(rest, token + 1, token + 1);
        if breakpoints[0].cumulative_tokens > token {
            if is_hour_token(breakpoints, token) {
                let i = choose|i: int|
                    0 <= i < breakpoints.len() && (#[trigger] breakpoints[i]).cumulative_tokens
                        > token && breakpoints[i].ttl >= 3600 && forall|j: int|
                        0 <= j < i ==> (#[trigger] breakpoints[j]).cumulative_tokens <= token;
                if i > 0 {
                    assert(breakpoints[0].cumulative_tokens <= token);
                }
                assert(breakpoints[0].ttl >= 3600);
            }
            if breakpoints[0].ttl >= 3600 {
                assert(is_hour_token(breakpoints, token));
            }
        } else {
            if is_hour_token(breakpoints, token) {
                let i = choose|i: int|
                    0 <= i < breakpoints.len() && (#[trigger] breakpoints[i]).cumulative_tokens
                        > token && breakpoints[i].ttl >= 3600 && forall|j: int|
                        0 <= j < i ==> (#[trigger] breakpoints[j]).cumulative_tokens <= token;
                assert(rest[i - 1] == breakpoints[i]);
                assert forall|j: int| 0 <= j < i - 1 implies (#[trigger] rest[j]).cumulative_tokens
                    <= token by {
                    assert(rest[j] == breakpoints[j + 1]);
                }
                assert(is_hour_token(rest, token));
            }
            if is_hour_token(rest, token) {
                let i = choose|i: int|
                    0 <= i < rest.len() && (#[trigger] rest[i]).cumulative_tokens > token
                        && rest[i].ttl >= 3600 && forall|j: int|
                        0 <= j < i ==> (#[trigger] rest[j]).cumulative_tokens <= token;
                assert(breakpoints[i + 1] == rest[i]);
                assert forall|j: int| 0 <= j < i + 1 implies (
                #[trigger] breakpoints[j]).cumulative_tokens <= token by {
                    if j > 0 {
                        assert(breakpoints[j] == rest[j - 1]);
                    }
                }
                assert(is_hour_token(breakpoints, token));
            }
        }
    }
}

/// Written tokens are split by life token by token: those count as written for an hour whose first
/// breakpoint lives an hour or longer.
pub proof fn law_tokens_are_split_one_by_one(
    breakpoints: Seq<Breakpoint>,
    total: int,
    matched: int,
    creation: nat,
)
    requires
        matched >= 0,
    ensures
        long_part(breakpoints, total, matched, creation as int) == hour_tokens(
            breakpoints,
            total,
            matched,
            creation,
        ),
    decreases creation,
{
    if creation > 0 {
        let fewer = (creation - 1) as nat;
        let token = matched + creation - 1;
        law_tokens_are_split_one_by_one(breakpoints, total, matched, fewer);
        lemma_one_token(breakpoints, token);
        if token < total {
            lemma_stretches_add_up(breakpoints, matched, token, token + 1);
            lemma_one_hour_tokens(breakpoints, matched, matched);
        } else {
            lemma_one_hour_tokens(breakpoints, matched, total);
            lemma_one_hour_tokens(breakpoints, matched, token);
        }
    }
}

/// Before the beginning of a prompt there is nothing to be split.
pub proof fn law_split_begins_with_the_prompt(
    breakpoints: Seq<Breakpoint>,
    total: int,
    matched: int,
    creation: int,
)
    ensures
        creation <= 0 ==> long_part(breakpoints, total, matched, creation) == 0,
        matched < 0 && matched + creation <= 0 ==> long_part(breakpoints, total, matched, creation)
            == 0,
        matched < 0 && matched + creation > 0 ==> long_part(breakpoints, total, matched, creation)
            == long_part(breakpoints, total, 0, matched + creation),
{
    if creation > 0 && matched < 0 {
        lemma_one_hour_tokens(
            breakpoints,
            0,
            if matched + creation < total {
                matched + creation
            } else {
                total
            },
        );
    }
}

/// A report splits what is written by life, token by token.
pub proof fn law_report_splits_what_is_written(
    before: TrackerState,
    after: TrackerState,
    usage: CacheUsage,
    account: Seq<char>,
    profile: CacheProfile,
    least: int,
    now: int,
)
    requires
        computed(before, after, usage, account, profile, least, now),
        usage.cache_read_input_tokens >= 0,
        usage.cache_creation_input_tokens >= 0,
    ensures
        usage.cache_creation_1h_input_tokens == hour_tokens(
            breakpoints_view(profile.breakpoints@),
            profile.total_input_tokens as int,
            usage.cache_read_input_tokens as int,
            usage.cache_creation_input_tokens as nat,
        ),
        usage.cache_creation_5m_input_tokens == usage.cache_creation_input_tokens
            - usage.cache_creation_1h_input_tokens,
{
    law_tokens_are_split_one_by_one(
        breakpoints_view(profile.breakpoints@),
        profile.total_input_tokens as int,
        usage.cache_read_input_tokens as int,
        usage.cache_creation_input_tokens as nat,
    );
}

/// What a usage report says, number by number: the input that is neither written nor read, what is
/// written, what is read, and what is written for five minutes and for an hour. What the split
/// leaves out counts as five minutes.
pub proof fn law_usage_report_in_numbers(
    members: Seq<(Seq<char>, Json)>,
    cache: CacheUsage,
    input: int,
)
    requires
        input == match lookup(members, "input_tokens"@) {
            Some(Json::Number(NumberModel::PosInt(n))) => if n <= 9223372036854775807 {
                n as int
            } else {
                0int
            },
            Some(Json::Number(NumberModel::NegInt(n))) => n,
            _ => 0int,
        },
    ensures
        ({
            let after = with_cache_usage(members, cache);
            let rest = input - cache.cache_creation_input_tokens - cache.cache_read_input_tokens;
            let long = cache.cache_creation_1h_input_tokens as int;
            let given = cache.cache_creation_5m_input_tokens as int;
            let missing = cache.cache_creation_input_tokens - given - long;
            let short = if missing > 0 {
                given + missing
            } else {
                given
            };
            &&& rest >= 0 ==> lookup(after, "input_tokens"@) == Some(whole(rest))
            &&& rest < 0 ==> lookup(after, "input_tokens"@) == Some(whole(0))
            &&& lookup(after, "cache_creation_input_tokens"@) == Some(
                whole(cache.cache_creation_input_tokens as int),
            )
            &&& lookup(after, "cache_read_input_tokens"@) == Some(
                whole(cache.cache_read_input_tokens as int),
            )
            &&& short > 0 || long > 0 ==> lookup(after, "cache_creation"@) is Some && {
                let split = lookup(after, "cache_creation"@)->0;
                &&& split.get("ephemeral_5m_input_tokens"@) == Some(whole(short))
                &&& split.get("ephemeral_1h_input_tokens"@) == Some(whole(long))
            }
            &&& short <= 0 && long <= 0 ==> lookup(after, "cache_creation"@) == lookup(
                members,
                "cache_creation"@,
            )
        }),
{
    law_usage_report(members, cache);
    let pairs = creation_json(cache)->Object_0;
    reveal_strlit("ephemeral_5m_input_tokens");
    reveal_strlit("ephemeral_1h_input_tokens");
    assert("ephemeral_5m_input_tokens"@[10] == '5');
    assert("ephemeral_1h_input_tokens"@[10] == '1');
    lemma_position_is(pairs, "ephemeral_5m_input_tokens"@, 0);
    lemma_position_is(pairs, "ephemeral_1h_input_tokens"@, 1);
}

/// A report of an input that is not negative, for a usage without negative numbers whose split does
/// not exceed what is written, can always be made.
pub proof fn law_sensible_usage_can_be_reported(members: Seq<(Seq<char>, Json)>, cache: CacheUsage)
    requires
        input_tokens(members) <= i64::MAX,
        input_tokens(members) >= 0,
        cache.cache_creation_5m_input_tokens >= 0,
        cache.cache_creation_1h_input_tokens >= 0,
        cache.cache_read_input_tokens >= 0,
        cache.cache_creation_5m_input_tokens + cache.cache_creation_1h_input_tokens
            <= cache.cache_creation_input_tokens,
    ensures
        usage_in_range(members, cache),
{
}

/// A usage can be reported exactly where the differences and sums stay within 64 and 32 bits.
pub proof fn law_usage_that_can_be_reported(members: Seq<(Seq<char>, Json)>, cache: CacheUsage)
    ensures
        usage_in_range(members, cache) <==> {
            let input = input_tokens(members);
            let creation = cache.cache_creation_input_tokens as int;
            let given = cache.cache_creation_5m_input_tokens as int;
            let split = given + cache.cache_creation_1h_input_tokens;
            &&& -9223372036854775808 <= input - creation <= 9223372036854775807
            &&& -9223372036854775808 <= input - creation - cache.cache_read_input_tokens
                <= 9223372036854775807
            &&& -2147483648 <= split <= 2147483647
            &&& creation > split ==> creation - split <= 2147483647 && given + (creation - split)
                <= 2147483647
        },
{
}

/// The whole number `n` as JSON has it.
pub open spec fn whole(n: int) -> Json {
    if n < 0 {
        Json::Number(NumberModel::NegInt(n))
    } else {
        Json::Number(NumberModel::PosInt(n as nat))
    }
}

} // verus!
