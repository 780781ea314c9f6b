//! Laws of the lives of entries, and of what is large enough to be cached.
use crate::assoc::{lemma_position_is, lookup};
use crate::json::{Json, NumberModel};
use crate::text::{lowercase, occurs_in, opt_string, parsed_u64, same_but_case};
use crate::text_laws::law_text_is_found_where_it_stands;
use crate::ttl::{control_ttl, least_cacheable, least_for, value_ttl};
use crate::types::CacheControl;
use vstd::prelude::*;

verus! {

/// A model whose lower case name holds `opus` anywhere caches from 4096 tokens on.
pub proof fn law_opus_anywhere_needs_4096(a: Seq<char>, b: Seq<char>)
    ensures
        least_for(a + "opus"@ + b) == 4096,
{
    law_text_is_found_where_it_stands(a, "opus"@, b);
}

/// A model whose lower case name holds `opus` nowhere caches from 1024 tokens on.
pub proof fn law_other_models_need_1024(lowered: Seq<char>)
    requires
        forall|i: int|
            0 <= i <= lowered.len() - 4 ==> #[trigger] lowered.subrange(i, i + 4) != "opus"@,
    ensures
        least_for(lowered) == 1024,
{
    reveal_strlit("opus");
    assert("opus"@.len() == 4);
    if occurs_in("opus"@, lowered) {
        let i = choose|i: int|
            0 <= i <= lowered.len() - "opus"@.len() && #[trigger] lowered.subrange(
                i,
                i + "opus"@.len(),
            ) == "opus"@;
        assert(lowered.subrange(i, i + 4) == "opus"@);
    }
}

/// It is the lower case name of a model that counts.
pub proof fn law_case_of_the_model_does_not_matter(model: Seq<char>, a: Seq<char>, b: Seq<char>)
    ensures
        lowercase(model) == a + "opus"@ + b ==> least_cacheable(model) == 4096,
        (forall|i: int|
            0 <= i <= lowercase(model).len() - 4 ==> #[trigger] lowercase(model).subrange(i, i + 4)
                != "opus"@) ==> least_cacheable(model) == 1024,
{
    law_opus_anywhere_needs_4096(a, b);
    if forall|i: int|
        0 <= i <= lowercase(model).len() - 4 ==> #[trigger] lowercase(model).subrange(i, i + 4)
            != "opus"@ {
        law_other_models_need_1024(lowercase(model));
    }
}

/// Only an ephemeral control asks for a life: an hour by name, else a positive number of seconds,
/// else five minutes.
pub proof fn law_life_of_a_control(control: CacheControl)
    ensures
        control_ttl(None) is None,
        !same_but_case(control.cache_type@, "ephemeral"@) ==> control_ttl(Some(control)) is None,
        same_but_case(control.cache_type@, "ephemeral"@) ==> {
            &&& opt_string(control.ttl) is None ==> control_ttl(Some(control)) == Some(300int)
            &&& opt_string(control.ttl) == Some("1h"@) ==> control_ttl(Some(control)) == Some(
                3600int,
            )
            &&& opt_string(control.ttl) == Some("1H"@) ==> control_ttl(Some(control)) == Some(
                3600int,
            )
            &&& opt_string(control.ttl) matches Some(text) ==> text != "1h"@ && text != "1H"@ ==> (
            match parsed_u64(text) {
                Some(n) => control_ttl(Some(control)) == Some(
                    if n > 0 {
                        n as int
                    } else {
                        300
                    },
                ),
                None => control_ttl(Some(control)) == Some(300int),
            })
        },
{
}

/// A content block asks for a life by the member `cache_control`: only an ephemeral one counts, and
/// its `ttl` is an hour by name, or a positive whole number of seconds, or else five minutes.
pub proof fn law_life_of_a_content_block(
    block: Seq<(Seq<char>, Json)>,
    control: Seq<(Seq<char>, Json)>,
    kind: Seq<char>,
)
    requires
        lookup(block, "cache_control"@) == Some(Json::Object(control)),
        lookup(control, "type"@) == Some(Json::String(kind)),
    ensures
        !same_but_case(kind, "ephemeral"@) ==> value_ttl(Json::Object(block)) is None,
        same_but_case(kind, "ephemeral"@) ==> value_ttl(Json::Object(block)) == Some(
            match lookup(control, "ttl"@) {
                Some(Json::String(text)) => if text == "1h"@ || text == "1H"@ {
                    3600int
                } else {
                    300int
                },
                Some(Json::Number(NumberModel::PosInt(n))) => if n > 0 {
                    n as int
                } else {
                    300int
                },
                _ => 300int,
            },
        ),
{
}

/// A content block without a `cache_control` object with a type asks for nothing.
pub proof fn law_no_control_no_life(block: Json)
    requires
        match block {
            Json::Object(members) => match lookup(members, "cache_control"@) {
                Some(Json::Object(control)) => !(lookup(control, "type"@) matches Some(
                    Json::String(_),
                )),
                _ => true,
            },
            _ => true,
        },
    ensures
        value_ttl(block) is None,
{
}

/// What a key stands for is the value of its first pair, and nothing where it has none.
pub proof fn law_first_pair_counts<V>(members: Seq<(Seq<char>, V)>, key: Seq<char>, i: int)
    requires
        0 <= i <= members.len(),
        i < members.len() ==> members[i].0 == key,
        forall|j: int| 0 <= j < i ==> members[j].0 != key,
    ensures
        lookup(members, key) == if i < members.len() {
            Some(members[i].1)
        } else {
            None
        },
{
    lemma_position_is(members, key, i);
}

/// The members of a JSON value are those of an object; its text is that of a string; its whole
/// number is that of a number within 64 bits.
pub proof fn law_json_is_read_by_kind(value: Json, key: Seq<char>)
    ensures
        value.get(key) == match value {
            Json::Object(members) => lookup(members, key),
            _ => None,
        },
        value.as_str() == match value {
            Json::String(text) => Some(text),
            _ => None,
        },
        value matches Json::Number(NumberModel::PosInt(n)) ==> value.as_i64() == if n
            <= 9223372036854775807 {
            Some(n as int)
        } else {
            None
        },
        value matches Json::Number(NumberModel::NegInt(n)) ==> value.as_i64() == Some(n),
        !(value is Number) ==> value.as_i64() is None,
        value matches Json::Number(NumberModel::Float(_)) ==> value.as_i64() is None,
{
}

} // verus!
