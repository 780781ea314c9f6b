//! How long a cache entry lives, in seconds.
use crate::json::{opt_view, Json, Number, NumberModel, Value};
use crate::text::{
    ascii_lower, equal_but_case, has_text, lowercase, occurs_in, opt_string, parse_u64, parsed_u64,
    same_but_case, same_text, to_lowercase,
};
use crate::types::CacheControl;
use vstd::prelude::*;
use vstd::utf8::is_ascii_chars;

verus! {

/// The life of an entry where nothing else is asked for: five minutes.
pub const DEFAULT_CACHE_TTL: u64 = 300;

/// The long life: one hour.
pub const ONE_HOUR_CACHE_TTL: u64 = 3600;

/// The least cacheable prompt.
pub const DEFAULT_MIN_CACHEABLE_TOKENS: i32 = 1024;

/// The least cacheable prompt for the models of the largest family.
pub const OPUS_MIN_CACHEABLE_TOKENS: i32 = 4096;

/// `1h`, in either case.
pub open spec fn says_one_hour(ttl: Seq<char>) -> bool {
    ttl == "1h"@ || ttl == "1H"@
}

/// The life that the `ttl` of a `cache_control` asks for: one hour by name, a positive number of
/// seconds, and the default for anything else.
pub open spec fn named_ttl(ttl: Option<Seq<char>>) -> int {
    match ttl {
        Some(text) => if says_one_hour(text) {
            ONE_HOUR_CACHE_TTL as int
        } else {
            match parsed_u64(text) {
                Some(seconds) => if seconds > 0 {
                    seconds as int
                } else {
                    DEFAULT_CACHE_TTL as int
                },
                None => DEFAULT_CACHE_TTL as int,
            }
        },
        None => DEFAULT_CACHE_TTL as int,
    }
}

/// The life that a cache control asks for; only the ephemeral type asks for one.
pub open spec fn control_ttl(control: Option<CacheControl>) -> Option<int> {
    match control {
        Some(c) => if same_but_case(c.cache_type@, "ephemeral"@) {
            Some(named_ttl(opt_string(c.ttl)))
        } else {
            None
        },
        None => None,
    }
}

/// The life that the `ttl` member of a content block asks for: one hour by name, a positive whole
/// number of seconds, and the default for anything else.
pub open spec fn member_ttl(ttl: Option<Json>) -> int {
    match ttl {
        Some(Json::String(text)) => if says_one_hour(text) {
            ONE_HOUR_CACHE_TTL as int
        } else {
            DEFAULT_CACHE_TTL as int
        },
        Some(Json::Number(NumberModel::PosInt(seconds))) => if seconds > 0 {
            seconds as int
        } else {
            DEFAULT_CACHE_TTL as int
        },
        _ => DEFAULT_CACHE_TTL as int,
    }
}

/// The life that the `cache_control` member of a content block asks for.
pub open spec fn value_ttl(value: Json) -> Option<int> {
    match value.get("cache_control"@) {
        Some(control) => match control.get_str("type"@) {
            Some(kind) => if same_but_case(kind, "ephemeral"@) {
                Some(member_ttl(control.get("ttl"@)))
            } else {
                None
            },
            None => None,
        },
        None => None,
    }
}

/// An optional number of seconds as a mathematical one.
pub open spec fn opt_int(ttl: Option<u64>) -> Option<int> {
    match ttl {
        Some(seconds) => Some(seconds as int),
        None => None,
    }
}

/// The life that a cache control asks for.
pub fn ttl_from_control(cache_control: &Option<CacheControl>) -> (ttl: Option<u64>)
    ensures
        opt_int(ttl) == control_ttl(*cache_control),
{
    match cache_control {
        Some(control) => {
            if !equal_but_case(control.cache_type.as_str(), "ephemeral") {
                return None;
            }
            match &control.ttl {
                Some(text) => {
                    if same_text(text.as_str(), "1h") || same_text(text.as_str(), "1H") {
                        Some(ONE_HOUR_CACHE_TTL)
                    } else {
                        match parse_u64(text.as_str()) {
                            Some(seconds) => if seconds > 0 {
                                Some(seconds)
                            } else {
                                Some(DEFAULT_CACHE_TTL)
                            },
                            None => Some(DEFAULT_CACHE_TTL),
                        }
                    }
                },
                None => Some(DEFAULT_CACHE_TTL),
            }
        },
        None => None,
    }
}

/// The life that the `ttl` member of a content block asks for.
pub fn ttl_from_ttl_value(value: Option<&Value>) -> (ttl: Option<u64>)
    ensures
        opt_int(ttl) == Some(member_ttl(opt_view(value))),
{
    match value {
        Some(Value::String(text)) => {
            if same_text(text.as_str(), "1h") || same_text(text.as_str(), "1H") {
                Some(ONE_HOUR_CACHE_TTL)
            } else {
                Some(DEFAULT_CACHE_TTL)
            }
        },
        Some(Value::Number(Number::PosInt(seconds))) => {
            if *seconds > 0 {
                Some(*seconds)
            } else {
                Some(DEFAULT_CACHE_TTL)
            }
        },
        _ => Some(DEFAULT_CACHE_TTL),
    }
}

/// The life that the `cache_control` member of a content block asks for.
pub fn ttl_from_value(value: &Value) -> (ttl: Option<u64>)
    ensures
        opt_int(ttl) == value_ttl(value@),
{
    match value.get("cache_control") {
        Some(control) => {
            match control.get_str("type") {
                Some(kind) => {
                    if !equal_but_case(kind, "ephemeral") {
                        return None;
                    }
                    ttl_from_ttl_value(control.get("ttl"))
                },
                None => None,
            }
        },
        None => None,
    }
}

/// Whether a life counts as the long one.
pub fn is_one_hour_ttl(ttl: u64) -> (long: bool)
    ensures
        long == (ttl >= ONE_HOUR_CACHE_TTL),
{
    ttl >= ONE_HOUR_CACHE_TTL
}

/// The least number of tokens that is cached for the model whose name in lower case is `lowered`.
pub open spec fn least_for(lowered: Seq<char>) -> i32 {
    if occurs_in("opus"@, lowered) {
        OPUS_MIN_CACHEABLE_TOKENS
    } else {
        DEFAULT_MIN_CACHEABLE_TOKENS
    }
}

/// The least number of tokens that is cached for `model`.
pub open spec fn least_cacheable(model: Seq<char>) -> i32 {
    least_for(lowercase(model))
}

/// The least number of tokens that is cached for the model whose name in lower case is `lowered`.
pub fn min_tokens_for_lowered(lowered: &str) -> (least: i32)
    ensures
        least == least_for(lowered@),
{
    if has_text(lowered, "opus") {
        OPUS_MIN_CACHEABLE_TOKENS
    } else {
        DEFAULT_MIN_CACHEABLE_TOKENS
    }
}

/// The least number of tokens that is cached for `model`.
pub fn min_cacheable_tokens(model: &str) -> (least: i32)
    ensures
        least == least_cacheable(model@),
        is_ascii_chars(model@) ==> least == least_for(
            model@.map_values(|c: char| ascii_lower(c)),
        ),
{
    let lowered = to_lowercase(model);
    min_tokens_for_lowered(lowered.as_str())
}

} // verus!
