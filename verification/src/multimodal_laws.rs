//! Laws of the normalisation of multimodal content.
use crate::assoc::{
    distinct_keys, lemma_position_is, lemma_with_member, lemma_without_member, lookup, with_member,
};
use crate::json::Json;
use crate::media::{
    base64_decoded, base64_encoded, media_plan, Media, MediaPlan, MultimodalError,
};
use crate::media_laws::law_base64_data_url_gives_type_and_payload;
use crate::multimodal::{
    all_blocks, base64_source, block_outcome, data_payload, follows, image_with, keeps_payload,
    lemma_image_with, lemma_keys_differ, member_str, payloads_kept, ran, same_message,
    same_request, source_data, source_of, text_block, text_plan, truncated, utf8_error, BlockStep,
    Outcome, ReplyModel, TextPlan,
};
use crate::text::opt_string;
use crate::types::{Message, MessagesRequest};
use vstd::prelude::*;
use vstd::utf8::{decode_utf8, valid_utf8};

verus! {

/// A normalised image holds its media in base64: its source has that type, the media type and the
/// encoded bytes. Every other member of the block is kept.
pub proof fn law_image_holds_its_media(block: Json, media: Media)
    requires
        source_of(block) is Some,
    ensures
        member_str(source_of(image_with(block, media))->0, "type"@) == Some("base64"@),
        member_str(source_of(image_with(block, media))->0, "media_type"@) == Some(
            media.media_type,
        ),
        member_str(source_of(image_with(block, media))->0, "data"@) == Some(
            base64_encoded(media.bytes),
        ),
        forall|key: Seq<char>|
            key != "source"@ ==> #[trigger] image_with(block, media).get(key) == block.get(key),
{
    lemma_image_with(block, media);
}

/// A text block has the type of one.
proof fn lemma_text_block(title: Seq<char>, media_type: Seq<char>, text: Seq<char>)
    ensures
        text_block(title, media_type, text).get_str("type"@) == Some("text"@),
{
}

/// Normalising again changes nothing. A document that was downloaded and kept as it is, because its
/// text is not known of, is left out: it would be downloaded again.
pub proof fn law_normalising_again_changes_nothing(block: Json, reply: ReplyModel, after: Json)
    requires
        block_outcome(block, reply) == Outcome::Done(after),
        reply is Start || after != block,
    ensures
        block_outcome(after, ReplyModel::Start) == Outcome::Done(after),
{
    lemma_keys_differ();
    if after != block {
        if block.get_str("type"@) == Some("image"@) {
            let media = choose|media: Media| after == image_with(block, media);
            assert(after == image_with(block, media));
            lemma_image_with(block, media);
            assert(after.get("type"@) == block.get("type"@));
        } else {
            let (title, media_type, text) = choose|
                title: Seq<char>,
                media_type: Seq<char>,
                text: Seq<char>,
            |
                after == text_block(title, media_type, text);
            assert(after == text_block(title, media_type, text));
            lemma_text_block(title, media_type, text);
        }
    }
}

/// A run over a request that was normalised in one go changes nothing.
pub proof fn law_second_run_changes_nothing(before: Seq<Json>, after: Seq<Json>, again: Seq<Json>)
    requires
        ran(before, after, 0, before.len() as int, ReplyModel::Start),
        ran(after, again, 0, after.len() as int, ReplyModel::Start),
    ensures
        again == after,
{
    assert forall|i: int| 0 <= i < after.len() implies again[i] == after[i] by {
        assert(block_outcome(before[i], ReplyModel::Start) == Outcome::Done(after[i]));
        assert(block_outcome(after[i], ReplyModel::Start) == Outcome::Done(again[i]));
        law_normalising_again_changes_nothing(before[i], ReplyModel::Start, after[i]);
    }
    assert(again =~= after);
}

/// A run that stopped at a block and went on there with a reply does to each block what it says,
/// once: the blocks before are not touched again, and only the block that waited gets the reply.
pub proof fn law_resumed_run_does_each_block_once(
    before: Seq<Json>,
    between: Seq<Json>,
    after: Seq<Json>,
    at: int,
    end: int,
    reply: ReplyModel,
)
    requires
        0 <= at <= end <= before.len(),
        ran(before, between, 0, at, ReplyModel::Start),
        ran(between, after, at, end, reply),
    ensures
        after.len() == before.len(),
        forall|i: int|
            #![trigger after[i]]
            0 <= i < end && i != at ==> block_outcome(before[i], ReplyModel::Start)
                == Outcome::Done(after[i]),
        at < end ==> block_outcome(before[at], reply) == Outcome::Done(after[at]),
        forall|i: int| #![trigger after[i]] end <= i < before.len() ==> after[i] == before[i],
{
    assert forall|i: int| #![trigger after[i]] 0 <= i < end && i != at implies block_outcome(
        before[i],
        ReplyModel::Start,
    ) == Outcome::Done(after[i]) by {
        if i > at {
            assert(between[i] == before[i]);
        }
    }
    if at < end {
        assert(between[at] == before[at]);
    }
    assert forall|i: int| #![trigger after[i]] end <= i < before.len() implies after[i]
        == before[i] by {
        assert(between[i] == before[i]);
    }
}

/// A shortened text is the limit and the note at most, and begins as the text does.
pub proof fn law_truncated_is_short(text: Seq<char>, max: int)
    requires
        max >= 0,
    ensures
        truncated(text, max).len() <= max + 15,
        text.len() <= max ==> truncated(text, max) == text,
        text.len() > max ==> truncated(text, max).take(max) == text.take(max),
{
    reveal_strlit("\n...[truncated]");
    if text.len() > max {
        assert(truncated(text, max).take(max) =~= text.take(max));
    }
}

/// A text within the limit stays whole; of a longer one the beginning is kept, with a note behind it.
pub proof fn law_text_within_the_limit_stays_whole(text: Seq<char>, max: int)
    requires
        max >= 0,
    ensures
        text.len() <= max ==> truncated(text, max) == text,
        text.len() > max ==> truncated(text, max) == text.take(max) + "\n...[truncated]"@,
{
}

/// The block that replaces a document is a text block. It holds the whole text of the document as
/// one piece, between a head and a tail that depend on its title and its media type only, if the
/// text has at most 120000 characters, and else the first 120000 characters with a note.
pub proof fn law_document_block_holds_the_whole_text(
    title: Seq<char>,
    media_type: Seq<char>,
    text: Seq<char>,
)
    ensures
        text_block(title, media_type, text).get_str("type"@) == Some("text"@),
        text.len() <= 120000 ==> text_block(title, media_type, text).get_str("text"@) == Some(
            "<document title=\""@ + title + "\" media_type=\""@ + media_type + "\">\n"@ + text
                + "\n</document>"@,
        ),
        text.len() > 120000 ==> text_block(title, media_type, text).get_str("text"@) == Some(
            "<document title=\""@ + title + "\" media_type=\""@ + media_type + "\">\n"@ + (
            text.take(120000) + "\n...[truncated]"@) + "\n</document>"@,
        ),
{
    lemma_keys_differ();
    reveal_strlit("type");
    reveal_strlit("text");
    assert("type"@[1] == 'y');
    assert("text"@[1] == 'e');
    lemma_position_is(text_block(title, media_type, text)->Object_0, "type"@, 0);
    lemma_position_is(text_block(title, media_type, text)->Object_0, "text"@, 1);
}

/// Two different texts within the limit never give the same block.
pub proof fn law_document_block_identifies_the_text(
    title: Seq<char>,
    media_type: Seq<char>,
    a: Seq<char>,
    b: Seq<char>,
)
    requires
        a.len() <= 120000,
        b.len() <= 120000,
        text_block(title, media_type, a) == text_block(title, media_type, b),
    ensures
        a == b,
{
    law_document_block_holds_the_whole_text(title, media_type, a);
    law_document_block_holds_the_whole_text(title, media_type, b);
    let head = "<document title=\""@ + title + "\" media_type=\""@ + media_type + "\">\n"@;
    let tail = "\n</document>"@;
    let n = head.len() as int;
    assert((head + a + tail).len() == (head + b + tail).len());
    assert(a =~= (head + a + tail).subrange(n, n + a.len()));
    assert(b =~= (head + b + tail).subrange(n, n + b.len()));
}

/// The text of a document of a text type is what its bytes say as UTF-8, whole; that of a PDF file
/// is to be extracted; other documents have none.
pub proof fn law_text_of_a_document(document: Media)
    ensures
        ({
            let kind = document.media_type;
            let is_text = kind == "text/plain"@ || kind == "text/markdown"@ || kind == "text/csv"@
                || kind == "application/json"@;
            &&& is_text && valid_utf8(document.bytes) ==> text_plan(document) == TextPlan::Text(
                decode_utf8(document.bytes),
            )
            &&& is_text && !valid_utf8(document.bytes) ==> text_plan(document) == TextPlan::Failed(
                "document is not valid UTF-8: "@ + utf8_error(document.bytes),
            )
            &&& !is_text && kind == "application/pdf"@ ==> text_plan(document) is ExtractPdf
            &&& !is_text && kind != "application/pdf"@ ==> text_plan(document) is Keep
        }),
{
}

/// The document whose bytes are at hand becomes its text; that of a PDF file is asked for; a
/// document without a text is kept.
pub open spec fn becomes_text(block: Json, document: Media, outcome: Outcome) -> bool {
    let title = match block {
        Json::Object(members) => match lookup(members, "title"@) {
            Some(Json::String(title)) => title,
            _ => "document"@,
        },
        _ => "document"@,
    };
    match text_plan(document) {
        TextPlan::Text(text) => outcome == Outcome::Done(
            text_block(title, document.media_type, text),
        ),
        TextPlan::ExtractPdf => outcome == (Outcome::ExtractPdf {
            media_type: document.media_type,
            bytes: document.bytes,
        }),
        TextPlan::Keep => outcome == Outcome::Done(block),
        TextPlan::Failed(message) => outcome == Outcome::Failed(message),
    }
}

/// The block has a source that is an object with the given members.
pub open spec fn has_source(block: Seq<(Seq<char>, Json)>, source: Seq<(Seq<char>, Json)>) -> bool {
    lookup(block, "source"@) == Some(Json::Object(source))
}

/// Blocks that are neither images nor documents stay as they are, and so do those without a source
/// that is an object.
pub proof fn law_other_blocks_stay(block: Json, reply: ReplyModel)
    ensures
        (forall|members: Seq<(Seq<char>, Json)>|
            block == Json::Object(members) ==> #[trigger] lookup(members, "type"@) != Some(
                Json::String("image"@),
            ) && lookup(members, "type"@) != Some(Json::String("document"@))) ==> block_outcome(
            block,
            reply,
        ) == Outcome::Done(block),
        (forall|members: Seq<(Seq<char>, Json)>|
            block == Json::Object(members) ==> !(#[trigger] lookup(members, "source"@) matches Some(
                Json::Object(_),
            ))) ==> block_outcome(block, reply) == Outcome::Done(block),
{
    lemma_keys_differ();
    if let Json::Object(members) = block {
        let kind = lookup(members, "type"@);
        let source = lookup(members, "source"@);
    }
}

/// What becomes of an image: one behind a URL holds its media in base64, once that is at hand; one
/// with any other source stays as it is.
pub proof fn law_images(
    members: Seq<(Seq<char>, Json)>,
    source: Seq<(Seq<char>, Json)>,
    reply: ReplyModel,
)
    requires
        lookup(members, "type"@) == Some(Json::String("image"@)),
        has_source(members, source),
    ensures
        ({
            let block = Json::Object(members);
            let outcome = block_outcome(block, reply);
            &&& lookup(source, "type"@) != Some(Json::String("url"@)) ==> outcome == Outcome::Done(
                block,
            )
            &&& lookup(source, "type"@) == Some(Json::String("url"@)) ==> match lookup(
                source,
                "url"@,
            ) {
                Some(Json::String(url)) => match reply {
                    ReplyModel::Media(Ok(media)) => outcome is Done && holds_media(
                        members,
                        source,
                        outcome->Done_0,
                        media,
                    ),
                    ReplyModel::Media(Err(message)) => outcome == Outcome::Failed(message),
                    _ => match media_plan(url, Some("image"@)) {
                        MediaPlan::Loaded(media) => outcome is Done && holds_media(
                            members,
                            source,
                            outcome->Done_0,
                            media,
                        ),
                        MediaPlan::Download => outcome == (Outcome::Download {
                            url,
                            expected: Some("image"@),
                        }),
                        MediaPlan::Refused(message) => outcome == Outcome::Failed(message),
                    },
                },
                _ => outcome == Outcome::Failed("image source.url is required"@),
            }
        }),
{
    lemma_keys_differ();
    let block = Json::Object(members);
    assert(source_of(block) == Some(source));
    if let Some(Json::String(url)) = lookup(source, "url"@) {
        if let ReplyModel::Media(Ok(media)) = reply {
            lemma_holds_media(members, source, media);
        }
        if let MediaPlan::Loaded(media) = media_plan(url, Some("image"@)) {
            lemma_holds_media(members, source, media);
        }
    }
}

/// The image block has the media in the source, in base64, and else the members that it had; the URL
/// is gone from the source.
pub open spec fn holds_media(
    members: Seq<(Seq<char>, Json)>,
    source: Seq<(Seq<char>, Json)>,
    after: Json,
    media: Media,
) -> bool {
    &&& after is Object
    &&& lookup(after->Object_0, "source"@) matches Some(Json::Object(filled)) && {
        &&& lookup(filled, "type"@) == Some(Json::String("base64"@))
        &&& lookup(filled, "media_type"@) == Some(Json::String(media.media_type))
        &&& lookup(filled, "data"@) == Some(Json::String(base64_encoded(media.bytes)))
        &&& distinct_keys(source) ==> lookup(filled, "url"@) is None
        &&& forall|key: Seq<char>|
            key != "type"@ && key != "media_type"@ && key != "data"@ && key != "url"@
                ==> #[trigger] lookup(filled, key) == lookup(source, key)
    }
    &&& forall|key: Seq<char>|
        key != "source"@ ==> #[trigger] lookup(after->Object_0, key) == lookup(members, key)
}

/// An image with its media holds it.
proof fn lemma_holds_media(
    members: Seq<(Seq<char>, Json)>,
    source: Seq<(Seq<char>, Json)>,
    media: Media,
)
    requires
        has_source(members, source),
    ensures
        holds_media(members, source, image_with(Json::Object(members), media), media),
{
    lemma_keys_differ();
    let block = Json::Object(members);
    let after = image_with(block, media);
    lemma_image_with(block, media);
    assert(source_of(block) == Some(source));
    let filled = source_of(after)->0;
    assert(after.get("source"@) == Some(Json::Object(filled)));
    assert forall|key: Seq<char>| key != "source"@ implies #[trigger] lookup(after->Object_0, key)
        == lookup(members, key) by {
        assert(after.get(key) == block.get(key));
    }
    assert(lookup(filled, "type"@) == Some(Json::String("base64"@)));
    assert(lookup(filled, "media_type"@) == Some(Json::String(media.media_type)));
    assert(lookup(filled, "data"@) == Some(Json::String(base64_encoded(media.bytes))));
    if distinct_keys(source) {
        lemma_url_is_gone(source, media);
    }
}

/// A source that holds its media has no URL.
proof fn lemma_url_is_gone(source: Seq<(Seq<char>, Json)>, media: Media)
    requires
        distinct_keys(source),
    ensures
        lookup(base64_source(source, media), "url"@) is None,
{
    let first = with_member(source, "type"@, Json::String("base64"@));
    let second = with_member(first, "media_type"@, Json::String(media.media_type));
    let third = with_member(second, "data"@, Json::String(base64_encoded(media.bytes)));
    lemma_with_member(source, "type"@, Json::String("base64"@));
    lemma_with_member(first, "media_type"@, Json::String(media.media_type));
    lemma_with_member(second, "data"@, Json::String(base64_encoded(media.bytes)));
    lemma_without_member(third, "url"@);
}

/// What becomes of a document: its bytes are its data in base64 or the media behind its URL, and the
/// text of those takes the place of the block. One with any other source stays as it is.
pub proof fn law_documents(
    members: Seq<(Seq<char>, Json)>,
    source: Seq<(Seq<char>, Json)>,
    reply: ReplyModel,
)
    requires
        lookup(members, "type"@) == Some(Json::String("document"@)),
        has_source(members, source),
        !(reply is PdfText),
    ensures
        ({
            let block = Json::Object(members);
            let outcome = block_outcome(block, reply);
            let kind = lookup(source, "type"@);
            &&& kind == Some(Json::String("base64"@)) ==> match lookup(source, "data"@) {
                Some(Json::String(data)) => match base64_decoded(data) {
                    Ok(bytes) => {
                        let media_type = match lookup(source, "media_type"@) {
                            Some(Json::String(name)) => name,
                            _ => "application/octet-stream"@,
                        };
                        becomes_text(block, Media { media_type, bytes }, outcome)
                    },
                    Err(reason) => outcome == Outcome::Failed(
                        "invalid document base64 data: "@ + reason,
                    ),
                },
                _ => outcome == Outcome::Failed("document source.data is required"@),
            }
            &&& kind == Some(Json::String("url"@)) ==> match lookup(source, "url"@) {
                Some(Json::String(url)) => match reply {
                    ReplyModel::Media(Ok(media)) => becomes_text(block, media, outcome),
                    ReplyModel::Media(Err(message)) => outcome == Outcome::Failed(message),
                    _ => match media_plan(url, None) {
                        MediaPlan::Loaded(media) => becomes_text(block, media, outcome),
                        MediaPlan::Download => outcome == (Outcome::Download {
                            url,
                            expected: None,
                        }),
                        MediaPlan::Refused(message) => outcome == Outcome::Failed(message),
                    },
                },
                _ => outcome == Outcome::Failed("document source.url is required"@),
            }
            &&& kind != Some(Json::String("base64"@)) && kind != Some(Json::String("url"@))
                ==> outcome == Outcome::Done(block)
        }),
{
    lemma_keys_differ();
    assert(source_of(Json::Object(members)) == Some(source));
}

/// The text that was extracted from a PDF file takes the place of its document.
pub proof fn law_extracted_text_takes_the_place(
    members: Seq<(Seq<char>, Json)>,
    source: Seq<(Seq<char>, Json)>,
    media_type: Seq<char>,
    text: Result<Seq<char>, Seq<char>>,
)
    requires
        lookup(members, "type"@) == Some(Json::String("document"@)),
        has_source(members, source),
    ensures
        ({
            let outcome = block_outcome(
                Json::Object(members),
                ReplyModel::PdfText { media_type, text },
            );
            let title = match lookup(members, "title"@) {
                Some(Json::String(title)) => title,
                _ => "document"@,
            };
            match text {
                Ok(t) => outcome == Outcome::Done(text_block(title, media_type, t)),
                Err(reason) => outcome == Outcome::Failed("failed to extract PDF text: "@ + reason),
            }
        }),
{
    lemma_keys_differ();
    assert(source_of(Json::Object(members)) == Some(source));
}

/// A step says what the outcome is: a block that is done is what the outcome gives, and one that
/// waits or fails is as it was.
pub proof fn law_steps_say_the_outcome(
    outcome: Outcome,
    step: Result<BlockStep, MultimodalError>,
    before: Json,
    after: Json,
)
    requires
        follows(outcome, step, before, after),
    ensures
        step matches Ok(BlockStep::Done) ==> outcome == Outcome::Done(after),
        step matches Ok(BlockStep::Download { url, expected_prefix }) ==> outcome == (
        Outcome::Download { url: url@, expected: opt_string(expected_prefix) }) && after == before,
        step matches Ok(BlockStep::ExtractPdf { media_type, bytes }) ==> outcome == (
        Outcome::ExtractPdf { media_type: media_type@, bytes: bytes@ }) && after == before,
        step matches Err(error) ==> outcome == Outcome::Failed(error@) && after == before,
{
}

/// The blocks of a list of messages are the items of their arrays, message by message.
pub proof fn law_blocks_are_the_items_of_the_messages(
    a: Seq<Message>,
    b: Seq<Message>,
    message: Message,
)
    ensures
        all_blocks(Seq::empty()).len() == 0,
        message.content@ matches Json::Array(items) ==> all_blocks(seq![message]) == items,
        !(message.content@ is Array) ==> all_blocks(seq![message]).len() == 0,
        all_blocks(a + b) == all_blocks(a) + all_blocks(b),
    decreases b.len(),
{
    assert(seq![message].drop_last() =~= Seq::empty());
    assert(all_blocks(seq![message].drop_last()).len() == 0);
    if let Json::Array(items) = message.content@ {
        assert(all_blocks(seq![message]) =~= items);
    }
    if b.len() == 0 {
        assert(a + b =~= a);
        assert(all_blocks(a + b) =~= all_blocks(a) + all_blocks(b));
    } else {
        law_blocks_are_the_items_of_the_messages(a, b.drop_last(), message);
        assert((a + b).drop_last() =~= a + b.drop_last());
        assert(all_blocks(a + b) =~= all_blocks(a) + all_blocks(b));
    }
}

/// A run changes content blocks and nothing else of a request.
pub proof fn law_run_changes_content_blocks_only(
    before: MessagesRequest,
    after: MessagesRequest,
    i: int,
)
    requires
        same_request(before, after),
    ensures
        after.model == before.model,
        after.system == before.system,
        after.tools == before.tools,
        after.messages@.len() == before.messages@.len(),
        0 <= i < before.messages@.len() ==> {
            &&& after.messages@[i].role == before.messages@[i].role
            &&& after.messages@[i].cache_control == before.messages@[i].cache_control
            &&& !(before.messages@[i].content@ is Array) ==> after.messages@[i].content
                == before.messages@[i].content
            &&& before.messages@[i].content@ matches Json::Array(items)
                ==> after.messages@[i].content@ is Array
                && after.messages@[i].content@->Array_0.len() == items.len()
        },
{
    if 0 <= i < before.messages@.len() {
        assert(same_message(before.messages@[i], after.messages@[i]));
    }
}

/// A run does each block from its first one to the one at which it stops, with the reply for the
/// first one, and leaves all others as they were.
pub proof fn law_run_does_each_block(
    before: Seq<Json>,
    after: Seq<Json>,
    from: int,
    stop: int,
    reply: ReplyModel,
    i: int,
)
    requires
        ran(before, after, from, stop, reply),
    ensures
        after.len() == before.len(),
        0 <= i < before.len() && from < i < stop ==> block_outcome(before[i], ReplyModel::Start)
            == Outcome::Done(after[i]),
        0 <= i < before.len() && i == from && i < stop ==> block_outcome(before[i], reply)
            == Outcome::Done(after[i]),
        0 <= i < before.len() && (i < from || stop <= i) ==> after[i] == before[i],
{
    if 0 <= i < before.len() {
        let block = before[i];
    }
}

/// An image behind a data URL keeps its payload: a run that keeps payloads puts it into the source as
/// the data.
pub proof fn law_payload_becomes_the_data(
    before: Seq<Json>,
    after: Seq<Json>,
    from: int,
    stop: int,
    reply: ReplyModel,
    i: int,
    members: Seq<(Seq<char>, Json)>,
    source: Seq<(Seq<char>, Json)>,
    media_type: Seq<char>,
    payload: Seq<char>,
)
    requires
        payloads_kept(before, after, from, stop, reply),
        0 <= i < before.len(),
        from <= i < stop,
        i > from || !(reply is Media),
        before[i] == Json::Object(members),
        lookup(members, "type"@) == Some(Json::String("image"@)),
        has_source(members, source),
        lookup(source, "type"@) == Some(Json::String("url"@)),
        lookup(source, "url"@) == Some(
            Json::String("data:"@ + media_type + ";base64,"@ + payload),
        ),
        !media_type.contains(','),
        !media_type.contains(';'),
    ensures
        after[i] matches Json::Object(others) && lookup(others, "source"@) matches Some(
            Json::Object(filled),
        ) && lookup(filled, "data"@) == Some(Json::String(payload)),
{
    law_base64_data_url_gives_type_and_payload(media_type, payload);
    let block = before[i];
    assert(source_of(block) == Some(source));
    assert(keeps_payload(block, after[i]));
    assert(data_payload(block) == Some(payload));
    assert(source_data(after[i]) == Some(payload));
}

} // verus!
