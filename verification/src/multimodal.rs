//! Normalisation of multimodal content: images become base64 sources, documents become text.
//!
//! Downloads and the extraction of text from PDF files are left to the caller: a run over a request
//! stops where one is needed, and goes on with what came of it.
use crate::assoc::{
    lemma_position, lemma_with_member, lemma_without_member, lookup, with_member, without_member,
};
use crate::json::{
    find_member, get_member, insert_member, lemma_view, members_view, remove_member, Json, Value,
};
use crate::media::{
    base64_decode, base64_decoded, base64_encode, base64_encoded, bytes_or_text, data_url,
    load_media_from_url, media_plan, media_view, texts, DataUrl, LoadedMedia, Media, MediaPlan,
    MultimodalError,
};
use crate::text::{chars_of, opt_string, opt_text, same_text, text_of};
use crate::types::{Message, MessagesRequest};
use vstd::prelude::*;
use vstd::utf8::{decode_utf8, valid_utf8};

verus! {

/// The most characters of a document's text.
pub const MAX_DOCUMENT_TEXT_CHARS: usize = 120_000;

/// The first `max` characters of `text` with a note, if it has more than those.
pub open spec fn truncated(text: Seq<char>, max: int) -> Seq<char> {
    if text.len() <= max {
        text
    } else {
        text.take(max) + "\n...[truncated]"@
    }
}

/// The first `max_chars` characters of `text` with a note, if it has more than those.
pub fn truncate_chars(text: &str, max_chars: usize) -> (short: String)
    ensures
        short@ == truncated(text@, max_chars as int),
{
    let chars = chars_of(text);
    if chars.len() <= max_chars {
        return text.to_owned();
    }
    let mut short = text_of(&chars, 0, max_chars);
    short.append("\n...[truncated]");
    short
}

/// What is wrong with bytes that are not UTF-8.
pub uninterp spec fn utf8_error(bytes: Seq<u8>) -> Seq<char>;

/// `std::string::String::from_utf8`: the text that the bytes encode, or, where they are not UTF-8,
/// the message of the error.
#[verifier::external_body]
fn text_from_utf8(bytes: Vec<u8>) -> (text: Result<String, String>)
    ensures
        text is Ok == valid_utf8(bytes@),
        text is Ok ==> text->Ok_0@ == decode_utf8(bytes@),
        text is Err ==> text->Err_0@ == utf8_error(bytes@),
{
    String::from_utf8(bytes).map_err(|e| e.to_string())
}

/// How the text of a document is to be had.
pub enum TextPlan {
    Text(Seq<char>),
    /// It has to be extracted from a PDF file.
    ExtractPdf,
    /// The document has no text that is known of.
    Keep,
    Failed(Seq<char>),
}

/// The media types of plain text.
pub open spec fn is_text_type(media_type: Seq<char>) -> bool {
    ||| media_type == "text/plain"@
    ||| media_type == "text/markdown"@
    ||| media_type == "text/csv"@
    ||| media_type == "application/json"@
}

/// How the text of a document is to be had.
pub open spec fn text_plan(document: Media) -> TextPlan {
    if is_text_type(document.media_type) {
        if valid_utf8(document.bytes) {
            TextPlan::Text(decode_utf8(document.bytes))
        } else {
            TextPlan::Failed("document is not valid UTF-8: "@ + utf8_error(document.bytes))
        }
    } else if document.media_type == "application/pdf"@ {
        TextPlan::ExtractPdf
    } else {
        TextPlan::Keep
    }
}

/// The text of a document, as far as it is to be had without outside help.
#[derive(Debug)]
pub enum DocumentText {
    Text(String),
    /// The text has to be extracted from these bytes of a PDF file.
    ExtractPdf(Vec<u8>),
    Keep,
}

/// The text of a document, as far as it is to be had without outside help.
pub fn document_bytes_to_text(media_type: &str, bytes: Vec<u8>) -> (text: Result<
    DocumentText,
    MultimodalError,
>)
    ensures
        ({
            let plan = text_plan(Media { media_type: media_type@, bytes: bytes@ });
            match text {
                Ok(DocumentText::Text(t)) => plan == TextPlan::Text(t@),
                Ok(DocumentText::ExtractPdf(b)) => plan is ExtractPdf && b@ == bytes@,
                Ok(DocumentText::Keep) => plan is Keep,
                Err(error) => plan == TextPlan::Failed(error@),
            }
        }),
{
    if same_text(media_type, "text/plain") || same_text(media_type, "text/markdown") || same_text(
        media_type,
        "text/csv",
    ) || same_text(media_type, "application/json") {
        match text_from_utf8(bytes) {
            Ok(text) => Ok(DocumentText::Text(text)),
            Err(reason) => Err(
                MultimodalError::because("document is not valid UTF-8: ", reason.as_str()),
            ),
        }
    } else if same_text(media_type, "application/pdf") {
        Ok(DocumentText::ExtractPdf(bytes))
    } else {
        Ok(DocumentText::Keep)
    }
}

/// What the caller did for a block that was waiting.
#[derive(Debug)]
pub enum Reply {
    /// Nothing: the block is looked at for the first time.
    Start,
    /// It downloaded the media of the block.
    Media(Result<LoadedMedia, MultimodalError>),
    /// It extracted the text of a PDF file of the given media type.
    PdfText { media_type: String, text: Result<String, String> },
}

/// What a [`Reply`] stands for.
pub enum ReplyModel {
    Start,
    Media(Result<Media, Seq<char>>),
    PdfText { media_type: Seq<char>, text: Result<Seq<char>, Seq<char>> },
}

impl View for Reply {
    type V = ReplyModel;

    open spec fn view(&self) -> ReplyModel {
        match *self {
            Reply::Start => ReplyModel::Start,
            Reply::Media(media) => ReplyModel::Media(media_view(media)),
            Reply::PdfText { media_type, text } => ReplyModel::PdfText {
                media_type: media_type@,
                text: texts(text),
            },
        }
    }
}

/// What becomes of a block.
pub enum Outcome {
    /// It is normalised.
    Done(Json),
    /// Its media has to be downloaded.
    Download { url: Seq<char>, expected: Option<Seq<char>> },
    /// Its text has to be extracted from a PDF file.
    ExtractPdf { media_type: Seq<char>, bytes: Seq<u8> },
    Failed(Seq<char>),
}

/// The members of the `source` of a block, if it is an object.
pub open spec fn source_of(block: Json) -> Option<Seq<(Seq<char>, Json)>> {
    match block.get("source"@) {
        Some(Json::Object(source)) => Some(source),
        _ => None,
    }
}

/// The text of a member, where it is a string.
pub open spec fn member_str(members: Seq<(Seq<char>, Json)>, key: Seq<char>) -> Option<Seq<char>> {
    match lookup(members, key) {
        Some(value) => value.as_str(),
        None => None,
    }
}

/// An image source that holds its media in base64.
pub open spec fn base64_source(source: Seq<(Seq<char>, Json)>, media: Media) -> Seq<
    (Seq<char>, Json),
> {
    without_member(
        with_member(
            with_member(
                with_member(source, "type"@, Json::String("base64"@)),
                "media_type"@,
                Json::String(media.media_type),
            ),
            "data"@,
            Json::String(base64_encoded(media.bytes)),
        ),
        "url"@,
    )
}

/// An image block whose source holds its media in base64.
pub open spec fn image_with(block: Json, media: Media) -> Json {
    match (block, source_of(block)) {
        (Json::Object(members), Some(source)) => Json::Object(
            with_member(members, "source"@, Json::Object(base64_source(source, media))),
        ),
        _ => block,
    }
}

/// The data of a block's source.
pub open spec fn source_data(block: Json) -> Option<Seq<char>> {
    match source_of(block) {
        Some(source) => member_str(source, "data"@),
        None => None,
    }
}

/// The base64 payload of a block whose source is a data URL.
pub open spec fn data_payload(block: Json) -> Option<Seq<char>> {
    match source_of(block) {
        Some(source) => if member_str(source, "type"@) == Some("url"@) {
            match member_str(source, "url"@) {
                Some(url) => match data_url(url) {
                    DataUrl::Base64 { media_type, payload } => Some(payload),
                    _ => None,
                },
                None => None,
            }
        } else {
            None
        },
        None => None,
    }
}

/// An image behind a data URL holds the payload of the URL as its data.
pub open spec fn keeps_payload(before: Json, after: Json) -> bool {
    before.get_str("type"@) == Some("image"@) ==> data_payload(before) is Some ==> source_data(
        after,
    ) == data_payload(before)
}

/// The keys and types of content blocks are different ones.
pub proof fn lemma_keys_differ()
    ensures
        "type"@ != "source"@,
        "type"@ != "media_type"@,
        "type"@ != "data"@,
        "type"@ != "url"@,
        "data"@ != "media_type"@,
        "data"@ != "url"@,
        "media_type"@ != "url"@,
        "base64"@ != "url"@,
        "image"@ != "document"@,
        "text"@ != "image"@,
        "text"@ != "document"@,
{
    reveal_strlit("type");
    reveal_strlit("source");
    reveal_strlit("media_type");
    reveal_strlit("data");
    reveal_strlit("url");
    reveal_strlit("base64");
    reveal_strlit("image");
    reveal_strlit("document");
    reveal_strlit("text");
    assert("type"@.len() == 4 && "source"@.len() == 6 && "media_type"@.len() == 10);
    assert("data"@.len() == 4 && "url"@.len() == 3 && "base64"@.len() == 6);
    assert("image"@.len() == 5 && "document"@.len() == 8 && "text"@.len() == 4);
    assert("type"@[0] == 't' && "data"@[0] == 'd');
}

/// An image with its media in base64 has a source of that type, with the media type and the data,
/// and keeps every other member of the block and of its source.
pub proof fn lemma_image_with(block: Json, media: Media)
    requires
        source_of(block) is Some,
    ensures
        ({
            let after = image_with(block, media);
            &&& source_of(after) == Some(base64_source(source_of(block)->0, media))
            &&& member_str(source_of(after)->0, "type"@) == Some("base64"@)
            &&& member_str(source_of(after)->0, "media_type"@) == Some(media.media_type)
            &&& member_str(source_of(after)->0, "data"@) == Some(base64_encoded(media.bytes))
            &&& forall|key: Seq<char>|
                key != "source"@ ==> #[trigger] after.get(key) == block.get(key)
            &&& forall|key: Seq<char>|
                key != "type"@ && key != "media_type"@ && key != "data"@ && key != "url"@
                    ==> #[trigger] lookup(source_of(after)->0, key) == lookup(
                    source_of(block)->0,
                    key,
                )
        }),
{
    lemma_keys_differ();
    let source = source_of(block)->0;
    let first = with_member(source, "type"@, Json::String("base64"@));
    let second = with_member(first, "media_type"@, Json::String(media.media_type));
    let third = with_member(second, "data"@, Json::String(base64_encoded(media.bytes)));
    lemma_with_member(source, "type"@, Json::String("base64"@));
    lemma_with_member(first, "media_type"@, Json::String(media.media_type));
    lemma_with_member(second, "data"@, Json::String(base64_encoded(media.bytes)));
    lemma_without_member(third, "url"@);
    lemma_with_member(block->Object_0, "source"@, Json::Object(base64_source(source, media)));
}

/// What becomes of an image block.
pub open spec fn image_outcome(block: Json, reply: ReplyModel) -> Outcome {
    match source_of(block) {
        Some(source) => if member_str(source, "type"@) == Some("url"@) {
            match member_str(source, "url"@) {
                Some(url) => match reply {
                    ReplyModel::Media(Ok(media)) => Outcome::Done(image_with(block, media)),
                    ReplyModel::Media(Err(message)) => Outcome::Failed(message),
                    _ => match media_plan(url, Some("image"@)) {
                        MediaPlan::Loaded(media) => Outcome::Done(image_with(block, media)),
                        MediaPlan::Download => Outcome::Download {
                            url,
                            expected: Some("image"@),
                        },
                        MediaPlan::Refused(message) => Outcome::Failed(message),
                    },
                },
                None => Outcome::Failed("image source.url is required"@),
            }
        } else {
            Outcome::Done(block)
        },
        None => Outcome::Done(block),
    }
}

/// The title of a document block.
pub open spec fn title_of(block: Json) -> Seq<char> {
    match block.get_str("title"@) {
        Some(title) => title,
        None => "document"@,
    }
}

/// The text of a document as it stands in the request.
pub open spec fn document_markup(title: Seq<char>, media_type: Seq<char>, text: Seq<char>) -> Seq<
    char,
> {
    "<document title=\""@ + title + "\" media_type=\""@ + media_type + "\">\n"@ + truncated(
        text,
        MAX_DOCUMENT_TEXT_CHARS as int,
    ) + "\n</document>"@
}

/// The text block that stands for a document.
pub open spec fn text_block(title: Seq<char>, media_type: Seq<char>, text: Seq<char>) -> Json {
    Json::Object(
        seq![
            ("type"@, Json::String("text"@)),
            ("text"@, Json::String(document_markup(title, media_type, text))),
        ],
    )
}

/// What becomes of a document block whose bytes are at hand.
pub open spec fn document_with(block: Json, document: Media) -> Outcome {
    match text_plan(document) {
        TextPlan::Text(text) => Outcome::Done(
            text_block(title_of(block), document.media_type, text),
        ),
        TextPlan::ExtractPdf => Outcome::ExtractPdf {
            media_type: document.media_type,
            bytes: document.bytes,
        },
        TextPlan::Keep => Outcome::Done(block),
        TextPlan::Failed(message) => Outcome::Failed(message),
    }
}

/// What becomes of a document block whose PDF text was extracted.
pub open spec fn document_with_pdf(
    block: Json,
    media_type: Seq<char>,
    text: Result<Seq<char>, Seq<char>>,
) -> Outcome {
    match text {
        Ok(t) => Outcome::Done(text_block(title_of(block), media_type, t)),
        Err(reason) => Outcome::Failed("failed to extract PDF text: "@ + reason),
    }
}

/// What becomes of a document block whose data was decoded.
pub open spec fn document_with_decoded(
    block: Json,
    media_type: Seq<char>,
    decoded: Result<Seq<u8>, Seq<char>>,
) -> Outcome {
    match decoded {
        Ok(bytes) => document_with(block, Media { media_type, bytes }),
        Err(reason) => Outcome::Failed("invalid document base64 data: "@ + reason),
    }
}

/// What becomes of a document block that is looked at for the first time, or for whose media the
/// caller was asked.
pub open spec fn document_from_source(
    block: Json,
    source: Seq<(Seq<char>, Json)>,
    reply: ReplyModel,
) -> Outcome {
    if member_str(source, "type"@) == Some("base64"@) {
        match member_str(source, "data"@) {
            Some(data) => document_with_decoded(
                block,
                match member_str(source, "media_type"@) {
                    Some(media_type) => media_type,
                    None => "application/octet-stream"@,
                },
                base64_decoded(data),
            ),
            None => Outcome::Failed("document source.data is required"@),
        }
    } else if member_str(source, "type"@) == Some("url"@) {
        match member_str(source, "url"@) {
            Some(url) => match reply {
                ReplyModel::Media(Ok(media)) => document_with(block, media),
                ReplyModel::Media(Err(message)) => Outcome::Failed(message),
                _ => match media_plan(url, None) {
                    MediaPlan::Loaded(media) => document_with(block, media),
                    MediaPlan::Download => Outcome::Download { url, expected: None },
                    MediaPlan::Refused(message) => Outcome::Failed(message),
                },
            },
            None => Outcome::Failed("document source.url is required"@),
        }
    } else {
        Outcome::Done(block)
    }
}

/// What becomes of a document block.
pub open spec fn document_outcome(block: Json, reply: ReplyModel) -> Outcome {
    match source_of(block) {
        Some(source) => match reply {
            ReplyModel::PdfText { media_type, text } => document_with_pdf(block, media_type, text),
            other => document_from_source(block, source, other),
        },
        None => Outcome::Done(block),
    }
}

/// What becomes of a content block.
pub open spec fn block_outcome(block: Json, reply: ReplyModel) -> Outcome {
    if block.get_str("type"@) == Some("image"@) {
        image_outcome(block, reply)
    } else if block.get_str("type"@) == Some("document"@) {
        document_outcome(block, reply)
    } else {
        Outcome::Done(block)
    }
}

/// Where the normalisation of a block stands.
#[derive(Debug)]
pub enum BlockStep {
    Done,
    /// The media behind the URL has to be downloaded; its type is to begin with the prefix.
    Download { url: String, expected_prefix: Option<String> },
    /// The text has to be extracted from the bytes of a PDF file of the given media type.
    ExtractPdf { media_type: String, bytes: Vec<u8> },
}

/// The block and the step are what the outcome says. A block that is not done stays as it was.
pub open spec fn follows(
    outcome: Outcome,
    step: Result<BlockStep, MultimodalError>,
    before: Json,
    after: Json,
) -> bool {
    match step {
        Ok(BlockStep::Done) => outcome == Outcome::Done(after),
        Ok(BlockStep::Download { url, expected_prefix }) => outcome == (Outcome::Download {
            url: url@,
            expected: opt_string(expected_prefix),
        }) && after == before,
        Ok(BlockStep::ExtractPdf { media_type, bytes }) => outcome == (Outcome::ExtractPdf {
            media_type: media_type@,
            bytes: bytes@,
        }) && after == before,
        Err(error) => outcome == Outcome::Failed(error@) && after == before,
    }
}

/// The text of a member, where it is a string.
fn get_member_str<'a>(members: &'a Vec<(String, Value)>, key: &str) -> (text: Option<&'a str>)
    ensures
        opt_text(text) == member_str(members_view(members@), key@),
{
    match get_member(members, key) {
        Some(value) => value.as_str(),
        None => None,
    }
}

/// Whether a text is there and is `expected`.
fn is_text(text: Option<&str>, expected: &str) -> (same: bool)
    ensures
        same == (opt_text(text) == Some(expected@)),
{
    match text {
        Some(t) => same_text(t, expected),
        None => false,
    }
}

/// The members of the `source` of a block, if it is an object.
fn get_source(block: &Value) -> (source: Option<&Vec<(String, Value)>>)
    ensures
        match source {
            Some(members) => source_of(block@) == Some(members_view(members@)),
            None => source_of(block@) is None,
        },
{
    match block.get("source") {
        Some(value) => {
            proof {
                lemma_view(*value);
            }
            match value {
                Value::Object(members) => Some(members),
                _ => None,
            }
        },
        None => None,
    }
}

/// Puts media into a source.
fn set_source(source: &mut Vec<(String, Value)>, media: LoadedMedia)
    ensures
        members_view(final(source)@) == base64_source(members_view(old(source)@), media@),
{
    let data = base64_encode(&media.bytes);
    insert_member(source, "type", Value::String("base64".to_owned()));
    insert_member(source, "media_type", Value::String(media.media_type));
    insert_member(source, "data", Value::String(data));
    remove_member(source, "url");
}

/// Puts the media of an image block into its source.
pub fn set_image(block: &mut Value, media: LoadedMedia)
    ensures
        final(block)@ == image_with(old(block)@, media@),
{
    proof {
        lemma_view(*block);
    }
    if let Value::Object(members) = block {
        let ghost before = members@;
        let i = find_member(members, "source");
        if i < members.len() {
            let ghost old_source = members@[i as int].1;
            proof {
                lemma_view(old_source);
                lemma_position(members_view(before), "source"@);
            }
            if let Value::Object(source) = &mut members[i].1 {
                set_source(source, media);
            }
            proof {
                lemma_view(members@[i as int].1);
                assert(members_view(members@) =~= members_view(before).update(
                    i as int,
                    ("source"@, members@[i as int].1@),
                ));
                if !(old_source is Object) {
                    assert(members_view(members@) =~= members_view(before));
                }
            }
        }
    }
    proof {
        lemma_view(*block);
    }
}

/// Normalises an image block: an image behind a URL becomes an image in base64.
pub fn normalize_image_block(block: &mut Value, reply: Reply) -> (step: Result<
    BlockStep,
    MultimodalError,
>)
    ensures
        follows(image_outcome(old(block)@, reply@), step, old(block)@, final(block)@),
        step matches Ok(BlockStep::Done) ==> !(reply@ is Media) ==> keeps_payload(
            old(block)@,
            final(block)@,
        ),
{
    let url: String = match get_source(block) {
        Some(source) => {
            if !is_text(get_member_str(source, "type"), "url") {
                return Ok(BlockStep::Done);
            }
            match get_member_str(source, "url") {
                Some(url) => url.to_owned(),
                None => {
                    return Err(MultimodalError::new("image source.url is required".to_owned()));
                },
            }
        },
        None => {
            return Ok(BlockStep::Done);
        },
    };
    let ghost before = block@;
    if let Reply::Media(result) = reply {
        return match result {
            Ok(media) => {
                set_image(block, media);
                Ok(BlockStep::Done)
            },
            Err(error) => Err(error),
        };
    }
    match load_media_from_url(url.as_str(), Some("image")) {
        Ok(Some(media)) => {
            proof {
                lemma_image_with(before, media@);
            }
            set_image(block, media);
            Ok(BlockStep::Done)
        },
        Ok(None) => Ok(
            BlockStep::Download { url, expected_prefix: Some("image".to_owned()) },
        ),
        Err(error) => Err(error),
    }
}

/// Replaces a document block by its text.
fn set_document(block: &mut Value, media_type: &str, text: &str)
    ensures
        final(block)@ == text_block(title_of(old(block)@), media_type@, text@),
{
    let title: String = match block.get_str("title") {
        Some(title) => title.to_owned(),
        None => "document".to_owned(),
    };
    let short = truncate_chars(text, MAX_DOCUMENT_TEXT_CHARS);
    let mut markup = "<document title=\"".to_owned();
    markup.append(title.as_str());
    markup.append("\" media_type=\"");
    markup.append(media_type);
    markup.append("\">\n");
    markup.append(short.as_str());
    markup.append("\n</document>");
    let mut members: Vec<(String, Value)> = Vec::new();
    members.push(("type".to_owned(), Value::String("text".to_owned())));
    members.push(("text".to_owned(), Value::String(markup)));
    proof {
        assert(members_view(members@) =~= text_block(
            title_of(old(block)@),
            media_type@,
            text@,
        )->Object_0);
    }
    *block = Value::Object(members);
    proof {
        lemma_view(*block);
    }
}

/// Goes on with a document block whose bytes are at hand.
pub fn finish_document(block: &mut Value, document: LoadedMedia) -> (step: Result<
    BlockStep,
    MultimodalError,
>)
    ensures
        follows(document_with(old(block)@, document@), step, old(block)@, final(block)@),
{
    let media_type = document.media_type;
    match document_bytes_to_text(media_type.as_str(), document.bytes) {
        Ok(DocumentText::Text(text)) => {
            set_document(block, media_type.as_str(), text.as_str());
            Ok(BlockStep::Done)
        },
        Ok(DocumentText::ExtractPdf(bytes)) => Ok(BlockStep::ExtractPdf { media_type, bytes }),
        Ok(DocumentText::Keep) => Ok(BlockStep::Done),
        Err(error) => Err(error),
    }
}

/// Goes on with a document block whose data was decoded.
pub fn finish_decoded_document(
    block: &mut Value,
    media_type: String,
    decoded: Result<Vec<u8>, String>,
) -> (step: Result<BlockStep, MultimodalError>)
    ensures
        follows(
            document_with_decoded(old(block)@, media_type@, bytes_or_text(decoded)),
            step,
            old(block)@,
            final(block)@,
        ),
{
    match decoded {
        Ok(bytes) => finish_document(block, LoadedMedia { media_type, bytes }),
        Err(reason) => Err(
            MultimodalError::because("invalid document base64 data: ", reason.as_str()),
        ),
    }
}

/// Normalises a document block: a document with a known text becomes that text.
pub fn normalize_document_block(block: &mut Value, reply: Reply) -> (step: Result<
    BlockStep,
    MultimodalError,
>)
    ensures
        follows(document_outcome(old(block)@, reply@), step, old(block)@, final(block)@),
{
    let source = match get_source(block) {
        Some(source) => source,
        None => {
            return Ok(BlockStep::Done);
        },
    };
    let kind = get_member_str(source, "type");
    if let Reply::PdfText { media_type, text } = reply {
        return match text {
            Ok(t) => {
                set_document(block, media_type.as_str(), t.as_str());
                Ok(BlockStep::Done)
            },
            Err(reason) => Err(
                MultimodalError::because("failed to extract PDF text: ", reason.as_str()),
            ),
        };
    }
    if is_text(kind, "base64") {
        let media_type: String = match get_member_str(source, "media_type") {
            Some(name) => name.to_owned(),
            None => "application/octet-stream".to_owned(),
        };
        let decoded: Result<Vec<u8>, String> = match get_member_str(source, "data") {
            Some(data) => base64_decode(data),
            None => {
                return Err(MultimodalError::new("document source.data is required".to_owned()));
            },
        };
        finish_decoded_document(block, media_type, decoded)
    } else if is_text(kind, "url") {
        let url: String = match get_member_str(source, "url") {
            Some(url) => url.to_owned(),
            None => {
                return Err(MultimodalError::new("document source.url is required".to_owned()));
            },
        };
        if let Reply::Media(result) = reply {
            return match result {
                Ok(media) => finish_document(block, media),
                Err(error) => Err(error),
            };
        }
        match load_media_from_url(url.as_str(), None) {
            Ok(Some(media)) => finish_document(block, media),
            Ok(None) => Ok(BlockStep::Download { url, expected_prefix: None }),
            Err(error) => Err(error),
        }
    } else {
        Ok(BlockStep::Done)
    }
}

/// Normalises a content block. Blocks of other types stay as they are.
pub fn normalize_block(block: &mut Value, reply: Reply) -> (step: Result<
    BlockStep,
    MultimodalError,
>)
    ensures
        follows(block_outcome(old(block)@, reply@), step, old(block)@, final(block)@),
        step matches Ok(BlockStep::Done) ==> !(reply@ is Media) ==> keeps_payload(
            old(block)@,
            final(block)@,
        ),
{
    let kind = block.get_str("type");
    if is_text(kind, "image") {
        normalize_image_block(block, reply)
    } else if is_text(kind, "document") {
        normalize_document_block(block, reply)
    } else {
        Ok(BlockStep::Done)
    }
}

/// The content blocks of a message; none where its content is no array.
pub open spec fn content_blocks(message: Message) -> Seq<Json> {
    match message.content@ {
        Json::Array(blocks) => blocks,
        _ => Seq::empty(),
    }
}

/// The content blocks of all messages, in order.
pub open spec fn all_blocks(messages: Seq<Message>) -> Seq<Json>
    decreases messages.len(),
{
    if messages.len() == 0 {
        Seq::empty()
    } else {
        all_blocks(messages.drop_last()) + content_blocks(messages.last())
    }
}

/// Two messages differ at most in what their content blocks are.
pub open spec fn same_message(before: Message, after: Message) -> bool {
    &&& after.role == before.role
    &&& after.cache_control == before.cache_control
    &&& match before.content@ {
        Json::Array(blocks) => after.content@ is Array && after.content@->Array_0.len()
            == blocks.len(),
        _ => after.content == before.content,
    }
}

/// Two requests differ at most in what their content blocks are.
pub open spec fn same_request(before: MessagesRequest, after: MessagesRequest) -> bool {
    &&& after.model == before.model
    &&& after.system == before.system
    &&& after.tools == before.tools
    &&& after.messages@.len() == before.messages@.len()
    &&& forall|m: int|
        0 <= m < before.messages@.len() ==> same_message(
            #[trigger] before.messages@[m],
            after.messages@[m],
        )
}

/// The reply that counts for block `i` of a run that begins at block `from`.
pub open spec fn reply_for(reply: ReplyModel, from: int, i: int) -> ReplyModel {
    if i == from {
        reply
    } else {
        ReplyModel::Start
    }
}

/// The blocks in `from..stop` are done, the others are as they were.
pub open spec fn ran(
    before: Seq<Json>,
    after: Seq<Json>,
    from: int,
    stop: int,
    reply: ReplyModel,
) -> bool {
    &&& after.len() == before.len()
    &&& forall|i: int|
        #![trigger before[i]]
        #![trigger after[i]]
        0 <= i < before.len() ==> if from <= i < stop {
            block_outcome(before[i], reply_for(reply, from, i)) == Outcome::Done(after[i])
        } else {
            after[i] == before[i]
        }
}

/// The images behind data URLs in `from..stop` hold the payloads of their URLs.
pub open spec fn payloads_kept(
    before: Seq<Json>,
    after: Seq<Json>,
    from: int,
    stop: int,
    reply: ReplyModel,
) -> bool {
    forall|i: int|
        #![trigger before[i]]
        #![trigger after[i]]
        0 <= i < before.len() && from <= i < stop && !(reply_for(reply, from, i) is Media)
            ==> keeps_payload(before[i], after[i])
}

/// Where the normalisation of a request stands. Blocks are numbered through all messages.
#[derive(Debug)]
pub enum Progress {
    Finished,
    /// Block `at` waits for the media behind the URL; its type is to begin with the prefix.
    Download { at: usize, url: String, expected_prefix: Option<String> },
    /// Block `at` waits for the text of a PDF file of the given media type.
    ExtractPdf { at: usize, media_type: String, bytes: Vec<u8> },
}

/// The blocks of all messages are those before a message, its own, and those behind it.
proof fn lemma_all_blocks_split(messages: Seq<Message>, m: int)
    requires
        0 <= m < messages.len(),
    ensures
        all_blocks(messages) == all_blocks(messages.take(m)) + content_blocks(messages[m])
            + all_blocks(messages.skip(m + 1)),
    decreases messages.len(),
{
    if m == messages.len() - 1 {
        assert(messages.take(m) == messages.drop_last());
        assert(messages.skip(m + 1).len() == 0);
        assert(all_blocks(messages) =~= all_blocks(messages.take(m)) + content_blocks(messages[m])
            + all_blocks(messages.skip(m + 1)));
    } else {
        let front = messages.drop_last();
        lemma_all_blocks_split(front, m);
        assert(front.take(m) == messages.take(m));
        assert(front.skip(m + 1) == messages.skip(m + 1).drop_last());
        assert(messages.skip(m + 1).last() == messages.last());
        assert(all_blocks(messages) =~= all_blocks(messages.take(m)) + content_blocks(messages[m])
            + all_blocks(messages.skip(m + 1)));
    }
}

/// Changing one block of one message changes that block of all.
proof fn lemma_all_blocks_update(
    messages: Seq<Message>,
    m: int,
    message: Message,
    b: int,
    block: Json,
)
    requires
        0 <= m < messages.len(),
        0 <= b < content_blocks(messages[m]).len(),
        content_blocks(message) == content_blocks(messages[m]).update(b, block),
    ensures
        all_blocks(messages.take(m)).len() + b < all_blocks(messages).len(),
        all_blocks(messages)[all_blocks(messages.take(m)).len() + b] == content_blocks(
            messages[m],
        )[b],
        all_blocks(messages.update(m, message)) == all_blocks(messages).update(
            all_blocks(messages.take(m)).len() + b,
            block,
        ),
{
    let after = messages.update(m, message);
    lemma_all_blocks_split(messages, m);
    lemma_all_blocks_split(after, m);
    assert(after.take(m) == messages.take(m));
    assert(after.skip(m + 1) == messages.skip(m + 1));
    assert(all_blocks(after) =~= all_blocks(messages).update(
        all_blocks(messages.take(m)).len() + b,
        block,
    ));
}

/// Normalises one content block of a message.
fn normalize_message_block(message: &mut Message, b: usize, reply: Reply) -> (step: Result<
    BlockStep,
    MultimodalError,
>)
    requires
        b < content_blocks(*old(message)).len(),
    ensures
        same_message(*old(message), *final(message)),
        content_blocks(*final(message)) == content_blocks(*old(message)).update(
            b as int,
            content_blocks(*final(message))[b as int],
        ),
        follows(
            block_outcome(content_blocks(*old(message))[b as int], reply@),
            step,
            content_blocks(*old(message))[b as int],
            content_blocks(*final(message))[b as int],
        ),
        step matches Ok(BlockStep::Done) ==> !(reply@ is Media) ==> keeps_payload(
            content_blocks(*old(message))[b as int],
            content_blocks(*final(message))[b as int],
        ),
{
    let ghost before = message.content;
    proof {
        lemma_view(before);
    }
    let step = if let Value::Array(blocks) = &mut message.content {
        normalize_block(&mut blocks[b], reply)
    } else {
        Ok(BlockStep::Done)
    };
    proof {
        lemma_view(message.content);
        assert(content_blocks(*message) =~= content_blocks(*old(message)).update(
            b as int,
            content_blocks(*message)[b as int],
        ));
    }
    step
}

/// The number of content blocks of a message.
fn count_blocks(message: &Message) -> (n: usize)
    ensures
        n == content_blocks(*message).len(),
{
    proof {
        lemma_view(message.content);
    }
    match &message.content {
        Value::Array(blocks) => blocks.len(),
        _ => 0,
    }
}

/// Normalises the content blocks of a request from block `from` on, until all are done or one needs
/// something from outside. `reply` is what came of it for block `from`.
pub fn normalize_multimodal_sources(payload: &mut MessagesRequest, from: usize, reply: Reply) -> (
    progress: Result<Progress, MultimodalError>)
    requires
        all_blocks(old(payload).messages@).len() <= usize::MAX,
    ensures
        same_request(*old(payload), *final(payload)),
        ({
            let before = all_blocks(old(payload).messages@);
            let after = all_blocks(final(payload).messages@);
            match progress {
                Ok(Progress::Finished) => {
                    &&& ran(before, after, from as int, before.len() as int, reply@)
                    &&& payloads_kept(before, after, from as int, before.len() as int, reply@)
                },
                Ok(Progress::Download { at, url, expected_prefix }) => {
                    &&& from <= at < before.len()
                    &&& ran(before, after, from as int, at as int, reply@)
                    &&& payloads_kept(before, after, from as int, at as int, reply@)
                    &&& block_outcome(
                        before[at as int],
                        reply_for(reply@, from as int, at as int),
                    ) == (Outcome::Download {
                        url: url@,
                        expected: opt_string(expected_prefix),
                    })
                },
                Ok(Progress::ExtractPdf { at, media_type, bytes }) => {
                    &&& from <= at < before.len()
                    &&& ran(before, after, from as int, at as int, reply@)
                    &&& payloads_kept(before, after, from as int, at as int, reply@)
                    &&& block_outcome(
                        before[at as int],
                        reply_for(reply@, from as int, at as int),
                    ) == (Outcome::ExtractPdf { media_type: media_type@, bytes: bytes@ })
                },
                Err(error) => exists|at: int|
                    {
                        &&& from <= at < before.len()
                        &&& #[trigger] ran(before, after, from as int, at, reply@)
                        &&& block_outcome(before[at], reply_for(reply@, from as int, at))
                            == Outcome::Failed(error@)
                    },
            }
        }),
{
    let ghost start = *payload;
    let ghost before = all_blocks(start.messages@);
    let ghost given = reply@;
    let mut pending: Option<Reply> = Some(reply);
    let mut n: usize = 0;
    let mut m: usize = 0;
    proof {
        assert(start.messages@.take(0) =~= Seq::empty());
    }
    while m < payload.messages.len()
        invariant
            m <= payload.messages@.len(),
            start == *old(payload),
            before == all_blocks(start.messages@),
            before.len() <= usize::MAX,
            same_request(start, *payload),
            n == all_blocks(payload.messages@.take(m as int)).len(),
            n <= before.len(),
            n <= from ==> pending == Some(reply),
            n > from ==> pending is None,
            given == reply@,
            ran(before, all_blocks(payload.messages@), from as int, n as int, given),
            payloads_kept(before, all_blocks(payload.messages@), from as int, n as int, given),
        decreases payload.messages@.len() - m,
    {
        let blocks = count_blocks(&payload.messages[m]);
        let mut b: usize = 0;
        proof {
            lemma_all_blocks_split(payload.messages@, m as int);
        }
        while b < blocks
            invariant
                m < payload.messages@.len(),
                b <= blocks,
                blocks == content_blocks(payload.messages@[m as int]).len(),
                start == *old(payload),
                before == all_blocks(start.messages@),
                before.len() <= usize::MAX,
                same_request(start, *payload),
                n == all_blocks(payload.messages@.take(m as int)).len() + b,
                all_blocks(payload.messages@.take(m as int)).len() + blocks <= before.len(),
                n <= from ==> pending == Some(reply),
                n > from ==> pending is None,
                given == reply@,
                ran(before, all_blocks(payload.messages@), from as int, n as int, given),
                payloads_kept(before, all_blocks(payload.messages@), from as int, n as int, given),
            decreases blocks - b,
        {
            if n >= from {
                let this: Reply = match pending.take() {
                    Some(r) => r,
                    None => Reply::Start,
                };
                let ghost messages = payload.messages@;
                let ghost this_view = this@;
                let step = normalize_message_block(&mut payload.messages[m], b, this);
                proof {
                    let message = payload.messages@[m as int];
                    let block = content_blocks(message)[b as int];
                    assert(payload.messages@ =~= messages.update(m as int, message));
                    lemma_all_blocks_update(messages, m as int, message, b as int, block);
                    assert(payload.messages@.take(m as int) == messages.take(m as int));
                    assert(this_view == reply_for(given, from as int, n as int));
                    assert(all_blocks(messages)[n as int] == before[n as int]);
                    assert(same_message(start.messages@[m as int], messages[m as int]));
                    assert(same_request(start, *payload)) by {
                        assert forall|i: int| 0 <= i < start.messages@.len() implies same_message(
                            #[trigger] start.messages@[i],
                            payload.messages@[i],
                        ) by {
                            assert(same_message(start.messages@[i], messages[i]));
                        }
                    }
                }
                match step {
                    Ok(BlockStep::Done) => {},
                    Ok(BlockStep::Download { url, expected_prefix }) => {
                        return Ok(Progress::Download { at: n, url, expected_prefix });
                    },
                    Ok(BlockStep::ExtractPdf { media_type, bytes }) => {
                        return Ok(Progress::ExtractPdf { at: n, media_type, bytes });
                    },
                    Err(error) => {
                        proof {
                            assert(ran(
                                before,
                                all_blocks(payload.messages@),
                                from as int,
                                n as int,
                                given,
                            ));
                        }
                        return Err(error);
                    },
                }
            }
            n = n + 1;
            b = b + 1;
        }
        proof {
            assert(payload.messages@.take(m + 1).drop_last() == payload.messages@.take(m as int));
        }
        m = m + 1;
    }
    proof {
        assert(payload.messages@.take(m as int) == payload.messages@);
    }
    Ok(Progress::Finished)
}

} // verus!
