//! Laws of what values stand for: nothing of a value is lost in its view.
use crate::blocks::{blocks_view, CacheableBlock};
use crate::json::{items_view, lemma_view, members_view, opt_view, Json, Number, NumberModel, Value};
use crate::media::{
    bytes_or_text, media_view, text_or_error, texts, LoadedMedia, Media, MultimodalError,
};
use crate::multimodal::{Reply, ReplyModel};
use crate::stable_json::pairs_view;
use crate::text::{opt_string, opt_text};
use crate::ttl::opt_int;
use vstd::prelude::*;

verus! {

/// A JSON value stands for what it holds.
pub proof fn law_json_values_stand_for_what_they_hold(value: Value, i: int)
    ensures
        match value {
            Value::Null => value@ == Json::Null,
            Value::Bool(b) => value@ == Json::Bool(b),
            Value::Number(Number::PosInt(n)) => value@ == Json::Number(
                NumberModel::PosInt(n as nat),
            ),
            Value::Number(Number::NegInt(n)) => value@ == Json::Number(
                NumberModel::NegInt(n as int),
            ),
            Value::Number(Number::Float(text)) => value@ == Json::Number(
                NumberModel::Float(text@),
            ),
            Value::String(text) => value@ == Json::String(text@),
            Value::Array(items) => value@ is Array && value@->Array_0.len() == items@.len() && (0
                <= i < items@.len() ==> value@->Array_0[i] == items@[i]@),
            Value::Object(members) => value@ is Object && value@->Object_0.len() == members@.len()
                && (0 <= i < members@.len() ==> value@->Object_0[i] == (
                members@[i].0@,
                members@[i].1@,
            )),
        },
{
    lemma_view(value);
}

/// Lists stand for their items, one for one.
pub proof fn law_lists_stand_for_their_items(
    items: Seq<Value>,
    members: Seq<(String, Value)>,
    pairs: Seq<(String, String)>,
    blocks: Seq<CacheableBlock>,
    i: int,
)
    ensures
        items_view(items).len() == items.len(),
        0 <= i < items.len() ==> items_view(items)[i] == items[i]@,
        members_view(members).len() == members.len(),
        0 <= i < members.len() ==> members_view(members)[i] == (members[i].0@, members[i].1@),
        pairs_view(pairs).len() == pairs.len(),
        0 <= i < pairs.len() ==> pairs_view(pairs)[i] == (pairs[i].0@, pairs[i].1@),
        blocks_view(blocks).len() == blocks.len(),
        0 <= i < blocks.len() ==> {
            let block = blocks_view(blocks)[i];
            &&& block.value == blocks[i].value@
            &&& block.tokens == blocks[i].tokens
            &&& blocks[i].ttl is None ==> block.ttl is None
            &&& blocks[i].ttl matches Some(ttl) ==> block.ttl == Some(ttl as int)
        },
{
}

/// What may be missing stands for what it holds where it is there.
pub proof fn law_what_is_there_stands_for_itself(
    text: &str,
    string: String,
    value: &Value,
    seconds: u64,
)
    ensures
        opt_text(None) is None,
        opt_text(Some(text)) == Some(text@),
        opt_string(None) is None,
        opt_string(Some(string)) == Some(string@),
        opt_view(None) is None,
        opt_view(Some(value)) == Some(value@),
        opt_int(None) is None,
        opt_int(Some(seconds)) == Some(seconds as int),
{
}

/// Results stand for what came out of them, and errors for their messages.
pub proof fn law_results_stand_for_what_came_out(
    text: String,
    bytes: Vec<u8>,
    media: LoadedMedia,
    error: MultimodalError,
)
    ensures
        texts(Ok(text)) == Ok::<Seq<char>, Seq<char>>(text@),
        texts(Err(text)) == Err::<Seq<char>, Seq<char>>(text@),
        bytes_or_text(Ok(bytes)) == Ok::<Seq<u8>, Seq<char>>(bytes@),
        bytes_or_text(Err(text)) == Err::<Seq<u8>, Seq<char>>(text@),
        text_or_error(Ok(text)) == Ok::<Seq<char>, Seq<char>>(text@),
        text_or_error(Err(error)) == Err::<Seq<char>, Seq<char>>(error@),
        media_view(Ok(media)) == Ok::<Media, Seq<char>>(
            Media { media_type: media.media_type@, bytes: media.bytes@ },
        ),
        media_view(Err(error)) == Err::<Media, Seq<char>>(error@),
{
}

/// A reply stands for what it brings.
pub proof fn law_replies_stand_for_what_they_bring(
    media: Result<LoadedMedia, MultimodalError>,
    media_type: String,
    text: Result<String, String>,
)
    ensures
        Reply::Start@ == ReplyModel::Start,
        Reply::Media(media)@ == ReplyModel::Media(media_view(media)),
        (Reply::PdfText { media_type, text })@ == (ReplyModel::PdfText {
            media_type: media_type@,
            text: texts(text),
        }),
{
}

} // verus!
