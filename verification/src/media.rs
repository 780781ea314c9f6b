//! Media behind URLs: data URLs, the checks of a download, and its media type.
use crate::text::{
    begins_with, chars_of, decimal, decimal_text, equal_but_case, has_prefix, opt_string, opt_text,
    same_but_case, same_text, text_of,
};
use vstd::prelude::*;

verus! {

/// The most bytes that are downloaded.
pub const MAX_REMOTE_BYTES: usize = 10_485_760;

/// Why a multimodal source could not be used.
#[derive(Debug)]
pub struct MultimodalError {
    message: String,
}

impl View for MultimodalError {
    type V = Seq<char>;

    closed spec fn view(&self) -> Seq<char> {
        self.message@
    }
}

impl MultimodalError {
    /// The error with the given message.
    pub fn new(message: String) -> (error: MultimodalError)
        ensures
            error@ == message@,
    {
        MultimodalError { message }
    }

    /// The error with a message in two parts.
    pub(crate) fn because(message: &str, reason: &str) -> (error: MultimodalError)
        ensures
            error@ == message@ + reason@,
    {
        let mut text = message.to_owned();
        text.append(reason);
        MultimodalError::new(text)
    }

    /// The message.
    pub fn to_string(&self) -> (message: String)
        ensures
            message@ == self@,
    {
        self.message.clone()
    }
}

/// Bytes with their media type.
#[derive(Debug)]
pub struct LoadedMedia {
    pub media_type: String,
    pub bytes: Vec<u8>,
}

/// What a [`LoadedMedia`] stands for.
pub struct Media {
    pub media_type: Seq<char>,
    pub bytes: Seq<u8>,
}

impl View for LoadedMedia {
    type V = Media;

    open spec fn view(&self) -> Media {
        Media { media_type: self.media_type@, bytes: self.bytes@ }
    }
}

/// The result of an operation that gives a text or the text of an error.
pub open spec fn texts(result: Result<String, String>) -> Result<Seq<char>, Seq<char>> {
    match result {
        Ok(text) => Ok(text@),
        Err(error) => Err(error@),
    }
}

/// The result of an operation that gives bytes or the text of an error.
pub open spec fn bytes_or_text(result: Result<Vec<u8>, String>) -> Result<Seq<u8>, Seq<char>> {
    match result {
        Ok(bytes) => Ok(bytes@),
        Err(error) => Err(error@),
    }
}

/// What standard base64 makes of bytes.
pub uninterp spec fn base64_encoded(bytes: Seq<u8>) -> Seq<char>;

/// The bytes that a standard base64 text stands for, or what is wrong with it.
pub uninterp spec fn base64_decoded(text: Seq<char>) -> Result<Seq<u8>, Seq<char>>;

/// `base64::engine::general_purpose::STANDARD.encode`: the padded standard base64 of the bytes,
/// which decodes to them.
#[verifier::external_body]
pub(crate) fn base64_encode(bytes: &Vec<u8>) -> (text: String)
    ensures
        text@ == base64_encoded(bytes@),
        base64_decoded(text@) is Ok,
        base64_decoded(text@)->Ok_0 == bytes@,
{
    base64::Engine::encode(&base64::engine::general_purpose::STANDARD, bytes)
}

/// `base64::engine::general_purpose::STANDARD.decode`: the bytes, or the message of the error.
/// Only the canonical text of some bytes is accepted, so that encoding the result gives it back.
#[verifier::external_body]
pub(crate) fn base64_decode(text: &str) -> (decoded: Result<Vec<u8>, String>)
    ensures
        bytes_or_text(decoded) == base64_decoded(text@),
        decoded is Ok ==> base64_encoded(decoded->Ok_0@) == text@,
{
    base64::Engine::decode(&base64::engine::general_purpose::STANDARD, text).map_err(
        |e| e.to_string(),
    )
}

/// The first position of `c` in `s`, or its length.
pub open spec fn first_index(s: Seq<char>, c: char) -> int
    decreases s.len(),
{
    if s.len() == 0 || s[0] == c {
        0
    } else {
        1 + first_index(s.drop_first(), c)
    }
}

/// The pieces of `s` between the occurrences of `c`.
pub open spec fn pieces(s: Seq<char>, c: char) -> Seq<Seq<char>>
    decreases s.len(),
{
    let i = first_index(s, c);
    if 0 <= i < s.len() {
        seq![s.take(i)] + pieces(s.skip(i + 1), c)
    } else {
        seq![s]
    }
}

/// What a URL says as a data URL.
pub enum DataUrl {
    /// Its scheme is another one.
    Other,
    /// It has no comma.
    Broken,
    /// Its payload is not in base64.
    Plain,
    /// A payload in base64.
    Base64 { media_type: Seq<char>, payload: Seq<char> },
}

/// Reads a URL as a data URL: `data:`, the media type and parameters between semicolons, a comma,
/// the payload. Without a media type it is `text/plain`.
pub open spec fn data_url(url: Seq<char>) -> DataUrl {
    if !begins_with(url, "data:"@) {
        DataUrl::Other
    } else {
        let rest = url.skip(5);
        let comma = first_index(rest, ',');
        if comma >= rest.len() {
            DataUrl::Broken
        } else {
            let meta = pieces(rest.take(comma), ';');
            if exists|i: int| 1 <= i < meta.len() && same_but_case(#[trigger] meta[i], "base64"@) {
                DataUrl::Base64 {
                    media_type: if meta[0].len() == 0 {
                        "text/plain"@
                    } else {
                        meta[0]
                    },
                    payload: rest.skip(comma + 1),
                }
            } else {
                DataUrl::Plain
            }
        }
    }
}

/// The message for a URL that is no base64 data URL though its scheme says so.
pub open spec fn data_url_error(url: DataUrl) -> Seq<char> {
    match url {
        DataUrl::Broken => "invalid data URL"@,
        _ => "only base64 data URLs are supported"@,
    }
}

/// [`first_index`] is the least index at which the character stands.
pub proof fn lemma_first_index(s: Seq<char>, c: char)
    ensures
        0 <= first_index(s, c) <= s.len(),
        first_index(s, c) < s.len() ==> s[first_index(s, c)] == c,
        forall|j: int| 0 <= j < first_index(s, c) ==> s[j] != c,
    decreases s.len(),
{
    if s.len() > 0 && s[0] != c {
        lemma_first_index(s.drop_first(), c);
        assert forall|j: int| 0 <= j < first_index(s, c) implies s[j] != c by {
            if j > 0 {
                assert(s[j] == s.drop_first()[j - 1]);
            }
        }
    }
}

/// An index with the character, before which it does not stand, is its [`first_index`].
pub proof fn lemma_first_index_is(s: Seq<char>, c: char, i: int)
    requires
        0 <= i <= s.len(),
        i < s.len() ==> s[i] == c,
        forall|j: int| 0 <= j < i ==> s[j] != c,
    ensures
        first_index(s, c) == i,
{
    lemma_first_index(s, c);
}

/// The first position of `c` in `chars[from..to]`, or `to`.
fn find_char(chars: &Vec<char>, from: usize, to: usize, c: char) -> (i: usize)
    requires
        from <= to <= chars@.len(),
    ensures
        from <= i <= to,
        i == from + first_index(chars@.subrange(from as int, to as int), c),
{
    let mut i: usize = from;
    while i < to && chars[i] != c
        invariant
            from <= i <= to <= chars@.len(),
            forall|j: int| from <= j < i ==> chars@[j] != c,
        decreases to - i,
    {
        i = i + 1;
    }
    proof {
        lemma_first_index_is(chars@.subrange(from as int, to as int), c, i - from);
    }
    i
}

/// The pieces of `chars[from..to]` between the occurrences of `c`.
fn split_chars(chars: &Vec<char>, from: usize, to: usize, c: char) -> (parts: Vec<String>)
    requires
        from <= to <= chars@.len(),
    ensures
        parts@.len() == pieces(chars@.subrange(from as int, to as int), c).len(),
        forall|i: int|
            0 <= i < parts@.len() ==> (#[trigger] parts@[i])@ == pieces(
                chars@.subrange(from as int, to as int),
                c,
            )[i],
{
    let ghost all = pieces(chars@.subrange(from as int, to as int), c);
    let mut parts: Vec<String> = Vec::new();
    let mut at: usize = from;
    let mut end: usize = find_char(chars, at, to, c);
    proof {
        assert(Seq::<Seq<char>>::empty() + all =~= all);
    }
    while end < to
        invariant
            from <= at <= end <= to <= chars@.len(),
            end == at + first_index(chars@.subrange(at as int, to as int), c),
            all == pieces(chars@.subrange(from as int, to as int), c),
            all.len() == parts@.len() + pieces(chars@.subrange(at as int, to as int), c).len(),
            forall|i: int| 0 <= i < parts@.len() ==> (#[trigger] parts@[i])@ == all[i],
            all.skip(parts@.len() as int) == pieces(chars@.subrange(at as int, to as int), c),
        decreases to - at,
    {
        let ghost rest = pieces(chars@.subrange(at as int, to as int), c);
        let ghost done = parts@.len() as int;
        parts.push(text_of(chars, at, end));
        proof {
            let s = chars@.subrange(at as int, to as int);
            assert(s.take(end - at) == chars@.subrange(at as int, end as int));
            assert(s.skip(end - at + 1) == chars@.subrange(end + 1, to as int));
            assert(rest == seq![s.take(end - at)] + pieces(s.skip(end - at + 1), c));
            assert(all[done] == all.skip(done)[0]);
            assert(all.skip(done + 1) =~= all.skip(done).skip(1));
            assert(rest.skip(1) =~= pieces(s.skip(end - at + 1), c));
        }
        at = end + 1;
        end = find_char(chars, at, to, c);
    }
    let ghost done = parts@.len() as int;
    parts.push(text_of(chars, at, to));
    proof {
        assert(all[done] == all.skip(done)[0]);
    }
    parts
}

/// A URL read as a data URL: nothing for another scheme, else its media type and its payload.
pub fn split_data_url(url: &str) -> (parts: Result<Option<(String, String)>, MultimodalError>)
    ensures
        match parts {
            Ok(None) => data_url(url@) is Other,
            Ok(Some((media_type, payload))) => data_url(url@) == (DataUrl::Base64 {
                media_type: media_type@,
                payload: payload@,
            }),
            Err(error) => (data_url(url@) is Broken || data_url(url@) is Plain) && error@
                == data_url_error(data_url(url@)),
        },
{
    if !has_prefix(url, "data:") {
        return Ok(None);
    }
    let chars = chars_of(url);
    proof {
        reveal_strlit("data:");
        assert(chars@.subrange(5, chars@.len() as int) == url@.skip(5));
    }
    let comma = find_char(&chars, 5, chars.len(), ',');
    if comma == chars.len() {
        return Err(MultimodalError::new("invalid data URL".to_owned()));
    }
    proof {
        assert(chars@.subrange(5, comma as int) == url@.skip(5).take(comma - 5));
    }
    let meta = split_chars(&chars, 5, comma, ';');
    let ghost all = pieces(url@.skip(5).take(comma - 5), ';');
    let mut is_base64 = false;
    let mut n: usize = 1;
    while n < meta.len()
        invariant
            meta@.len() == all.len(),
            forall|i: int| 0 <= i < meta@.len() ==> (#[trigger] meta@[i])@ == all[i],
            1 <= n,
            is_base64 ==> exists|i: int|
                1 <= i < all.len() && same_but_case(#[trigger] all[i], "base64"@),
            !is_base64 ==> forall|i: int|
                1 <= i < n && i < all.len() ==> !same_but_case(#[trigger] all[i], "base64"@),
        decreases meta@.len() - n,
    {
        if equal_but_case(meta[n].as_str(), "base64") {
            proof {
                assert(same_but_case(all[n as int], "base64"@));
            }
            is_base64 = true;
        }
        n = n + 1;
    }
    if !is_base64 {
        return Err(MultimodalError::new("only base64 data URLs are supported".to_owned()));
    }
    let media_type: String = if meta[0].as_str().is_empty() {
        "text/plain".to_owned()
    } else {
        meta[0].clone()
    };
    let payload = text_of(&chars, comma + 1, chars.len());
    proof {
        assert(payload@ == url@.skip(5).skip(comma - 5 + 1));
    }
    Ok(Some((media_type, payload)))
}

/// The media that was loaded, or the message of the error.
pub open spec fn media_view(result: Result<LoadedMedia, MultimodalError>) -> Result<
    Media,
    Seq<char>,
> {
    match result {
        Ok(media) => Ok(media@),
        Err(error) => Err(error@),
    }
}

/// The media of a data URL whose payload was decoded.
pub open spec fn decoded_media(
    media_type: Seq<char>,
    decoded: Result<Seq<u8>, Seq<char>>,
) -> Result<Media, Seq<char>> {
    match decoded {
        Ok(bytes) => Ok(Media { media_type, bytes }),
        Err(reason) => Err("invalid data URL base64 payload: "@ + reason),
    }
}

/// The media of a data URL whose payload was decoded.
pub fn media_from_decoded(media_type: String, decoded: Result<Vec<u8>, String>) -> (media: Result<
    LoadedMedia,
    MultimodalError,
>)
    ensures
        media_view(media) == decoded_media(media_type@, bytes_or_text(decoded)),
{
    match decoded {
        Ok(bytes) => Ok(LoadedMedia { media_type, bytes }),
        Err(reason) => Err(
            MultimodalError::because("invalid data URL base64 payload: ", reason.as_str()),
        ),
    }
}

/// The media of a data URL, or the message of the error; nothing for another scheme.
pub open spec fn data_url_media(url: Seq<char>) -> Option<Result<Media, Seq<char>>> {
    match data_url(url) {
        DataUrl::Other => None,
        DataUrl::Base64 { media_type, payload } => Some(
            decoded_media(media_type, base64_decoded(payload)),
        ),
        broken => Some(Err(data_url_error(broken))),
    }
}

/// The media of a data URL; nothing for a URL of another scheme.
pub fn parse_data_url(url: &str) -> (media: Result<Option<LoadedMedia>, MultimodalError>)
    ensures
        match media {
            Ok(None) => data_url_media(url@) is None,
            Ok(Some(m)) => data_url_media(url@) == Some(Ok::<Media, Seq<char>>(m@))
                && data_url(url@)->payload == base64_encoded(m.bytes@),
            Err(error) => data_url_media(url@) == Some(Err::<Media, Seq<char>>(error@)),
        },
{
    match split_data_url(url) {
        Ok(Some((media_type, payload))) => {
            match media_from_decoded(media_type, base64_decode(payload.as_str())) {
                Ok(media) => Ok(Some(media)),
                Err(error) => Err(error),
            }
        },
        Ok(None) => Ok(None),
        Err(error) => Err(error),
    }
}

/// The media type is of the kind that is asked for, if any.
pub open spec fn is_expected(media_type: Seq<char>, expected: Option<Seq<char>>) -> bool {
    match expected {
        Some(prefix) => begins_with(media_type, prefix),
        None => true,
    }
}

/// The message for a media type of another kind.
pub open spec fn unexpected(
    media_type: Seq<char>,
    expected: Option<Seq<char>>,
    source: Seq<char>,
) -> Seq<char> {
    match expected {
        Some(prefix) => "expected "@ + prefix + source + media_type,
        None => Seq::empty(),
    }
}

/// Refuses a media type of another kind than is asked for.
fn check_media_type(media_type: &str, expected: Option<&str>, source: &str) -> (checked: Result<
    (),
    MultimodalError,
>)
    ensures
        checked is Ok == is_expected(media_type@, opt_text(expected)),
        checked matches Err(error) ==> error@ == unexpected(
            media_type@,
            opt_text(expected),
            source@,
        ),
{
    if let Some(prefix) = expected {
        if !has_prefix(media_type, prefix) {
            let mut text = "expected ".to_owned();
            text.append(prefix);
            text.append(source);
            text.append(media_type);
            return Err(MultimodalError::new(text));
        }
    }
    Ok(())
}

/// The scheme of a URL, or what is wrong with the URL.
pub uninterp spec fn url_scheme(url: Seq<char>) -> Result<Seq<char>, Seq<char>>;

/// `reqwest::Url::parse` and `scheme`: the scheme of the URL, or the message of the error.
#[verifier::external_body]
fn parse_scheme(url: &str) -> (scheme: Result<String, String>)
    ensures
        texts(scheme) == url_scheme(url@),
{
    reqwest::Url::parse(url).map(|u| u.scheme().to_owned()).map_err(|e| e.to_string())
}

/// Why a URL with the given scheme is not downloaded, if it is not.
pub open spec fn scheme_error(scheme: Result<Seq<char>, Seq<char>>) -> Option<Seq<char>> {
    match scheme {
        Ok(name) => if name == "http"@ || name == "https"@ {
            None
        } else {
            Some("only http, https, and data URLs are supported for multimodal sources"@)
        },
        Err(reason) => Some("invalid media URL: "@ + reason),
    }
}

/// Accepts the schemes that can be downloaded.
pub fn check_scheme(scheme: Result<String, String>) -> (checked: Result<(), MultimodalError>)
    ensures
        match checked {
            Ok(_) => scheme_error(texts(scheme)) is None,
            Err(error) => scheme_error(texts(scheme)) == Some(error@),
        },
{
    match scheme {
        Ok(name) => {
            if same_text(name.as_str(), "http") || same_text(name.as_str(), "https") {
                Ok(())
            } else {
                Err(
                    MultimodalError::new(
                        "only http, https, and data URLs are supported for multimodal sources".to_owned(),
                    ),
                )
            }
        },
        Err(reason) => Err(MultimodalError::because("invalid media URL: ", reason.as_str())),
    }
}

/// How the media of a URL is to be had.
pub enum MediaPlan {
    /// The URL holds it.
    Loaded(Media),
    /// It has to be downloaded.
    Download,
    /// It cannot be had.
    Refused(Seq<char>),
}

/// How the media of `url` is to be had, given what its data is as a data URL and its scheme.
pub open spec fn plan_from(
    data: Option<Result<Media, Seq<char>>>,
    scheme: Result<Seq<char>, Seq<char>>,
    expected: Option<Seq<char>>,
) -> MediaPlan {
    match data {
        Some(Ok(media)) => if is_expected(media.media_type, expected) {
            MediaPlan::Loaded(media)
        } else {
            MediaPlan::Refused(unexpected(media.media_type, expected, "/* data URL, got "@))
        },
        Some(Err(message)) => MediaPlan::Refused(message),
        None => match scheme_error(scheme) {
            None => MediaPlan::Download,
            Some(message) => MediaPlan::Refused(message),
        },
    }
}

/// How the media of `url` is to be had.
pub open spec fn media_plan(url: Seq<char>, expected: Option<Seq<char>>) -> MediaPlan {
    plan_from(data_url_media(url), url_scheme(url), expected)
}

/// The media of a data URL; nothing for a URL that has to be downloaded.
pub fn load_media_from_url(url: &str, expected_prefix: Option<&str>) -> (media: Result<
    Option<LoadedMedia>,
    MultimodalError,
>)
    ensures
        match media {
            Ok(Some(m)) => media_plan(url@, opt_text(expected_prefix)) == MediaPlan::Loaded(m@)
                && data_url(url@)->payload == base64_encoded(m.bytes@),
            Ok(None) => media_plan(url@, opt_text(expected_prefix)) is Download,
            Err(error) => media_plan(url@, opt_text(expected_prefix)) == MediaPlan::Refused(
                error@,
            ),
        },
{
    match parse_data_url(url) {
        Ok(Some(media)) => {
            match check_media_type(
                media.media_type.as_str(),
                expected_prefix,
                "/* data URL, got ",
            ) {
                Ok(_) => Ok(Some(media)),
                Err(error) => Err(error),
            }
        },
        Ok(None) => {
            match check_scheme(parse_scheme(url)) {
                Ok(_) => Ok(None),
                Err(error) => Err(error),
            }
        },
        Err(error) => Err(error),
    }
}

/// White space as Unicode has it.
pub open spec fn is_space(c: char) -> bool {
    let n = c as nat;
    ||| 9 <= n <= 13
    ||| n == 32
    ||| n == 0x85
    ||| n == 0xa0
    ||| n == 0x1680
    ||| 0x2000 <= n <= 0x200a
    ||| n == 0x2028
    ||| n == 0x2029
    ||| n == 0x202f
    ||| n == 0x205f
    ||| n == 0x3000
}

/// `s` without white space at its beginning.
pub open spec fn trim_start(s: Seq<char>) -> Seq<char>
    decreases s.len(),
{
    if s.len() > 0 && is_space(s[0]) {
        trim_start(s.drop_first())
    } else {
        s
    }
}

/// `s` without white space at its end.
pub open spec fn trim_end(s: Seq<char>) -> Seq<char>
    decreases s.len(),
{
    if s.len() > 0 && is_space(s.last()) {
        trim_end(s.drop_last())
    } else {
        s
    }
}

/// Whether `c` is white space.
fn space(c: char) -> (white: bool)
    ensures
        white == is_space(c),
{
    let n = c as u32;
    (9 <= n && n <= 13) || n == 32 || n == 0x85 || n == 0xa0 || n == 0x1680 || (0x2000 <= n && n
        <= 0x200a) || n == 0x2028 || n == 0x2029 || n == 0x202f || n == 0x205f || n == 0x3000
}

/// `chars[from..to]` without white space around it.
fn trimmed_text(chars: &Vec<char>, from: usize, to: usize) -> (text: String)
    requires
        from <= to <= chars@.len(),
    ensures
        text@ == trim_end(trim_start(chars@.subrange(from as int, to as int))),
{
    let ghost all = chars@.subrange(from as int, to as int);
    let mut start: usize = from;
    while start < to && space(chars[start])
        invariant
            from <= start <= to <= chars@.len(),
            trim_start(all) == trim_start(chars@.subrange(start as int, to as int)),
        decreases to - start,
    {
        proof {
            assert(chars@.subrange(start as int, to as int).drop_first() == chars@.subrange(
                start + 1,
                to as int,
            ));
        }
        start = start + 1;
    }
    let ghost rest = chars@.subrange(start as int, to as int);
    let mut end: usize = to;
    while end > start && space(chars[end - 1])
        invariant
            start <= end <= to <= chars@.len(),
            trim_end(rest) == trim_end(chars@.subrange(start as int, end as int)),
        decreases end,
    {
        proof {
            assert(chars@.subrange(start as int, end as int).drop_last() == chars@.subrange(
                start as int,
                end - 1,
            ));
        }
        end = end - 1;
    }
    text_of(chars, start, end)
}

/// The media type in a `Content-Type` header, without parameters.
pub open spec fn declared_type(header: Option<Seq<char>>) -> Option<Seq<char>> {
    match header {
        Some(value) => {
            let name = trim_end(trim_start(value.take(first_index(value, ';'))));
            if name.len() == 0 {
                None
            } else {
                Some(name)
            }
        },
        None => None,
    }
}

/// The media type of a download: declared by its header, guessed from its URL, or unknown.
pub open spec fn download_type(header: Option<Seq<char>>, guess: Option<Seq<char>>) -> Seq<char> {
    match declared_type(header) {
        Some(name) => name,
        None => match guess {
            Some(name) => name,
            None => "application/octet-stream"@,
        },
    }
}

/// The media type that the extension of a path suggests.
pub uninterp spec fn guessed_type(path: Seq<char>) -> Option<Seq<char>>;

/// A path that has the same components on every system: no backslash, no drive letter, no leading
/// double slash.
pub open spec fn plain_path(path: Seq<char>) -> bool {
    &&& !path.contains('\\')
    &&& !(path.len() >= 2 && path[1] == ':')
    &&& !(path.len() >= 2 && path[0] == '/' && path[1] == '/')
}

/// `mime_guess::from_path` and `first_raw`: the first media type known for the extension of the
/// path. The components of other than plain paths differ from system to system; nothing is stated
/// of those.
#[verifier::external_body]
fn guess_type(path: &str) -> (guess: Option<String>)
    ensures
        plain_path(path@) ==> opt_string(guess) == guessed_type(path@),
{
    mime_guess::from_path(path).first_raw().map(|name| name.to_owned())
}

/// What the head of a response says.
#[derive(Debug)]
pub struct ResponseHead {
    /// The status is one of success.
    pub success: bool,
    /// The status as it is shown.
    pub status: String,
    pub content_length: Option<u64>,
    pub content_type: Option<String>,
}

/// The message for a body of `length` bytes, which is too many.
pub open spec fn too_large(length: nat) -> Seq<char> {
    "media URL body is too large: "@ + decimal(length) + " bytes"@
}

/// The media type of a response that is accepted, or why it is refused.
pub open spec fn response_type(
    head: ResponseHead,
    expected: Option<Seq<char>>,
    guess: Option<Seq<char>>,
) -> Result<Seq<char>, Seq<char>> {
    let media_type = download_type(opt_string(head.content_type), guess);
    if !head.success {
        Err("media URL returned HTTP "@ + head.status@)
    } else if head.content_length is Some && head.content_length->0 > MAX_REMOTE_BYTES {
        Err(too_large(head.content_length->0 as nat))
    } else if is_expected(media_type, expected) {
        Ok(media_type)
    } else {
        Err(unexpected(media_type, expected, "/* media URL, got "@))
    }
}

/// The error for a body that is too large.
fn too_large_error(length: u64) -> (error: MultimodalError)
    ensures
        error@ == too_large(length as nat),
{
    let mut text = "media URL body is too large: ".to_owned();
    let digits = decimal_text(length);
    text.append(digits.as_str());
    text.append(" bytes");
    MultimodalError::new(text)
}

/// The result of an operation that gives a text.
pub open spec fn text_or_error(result: Result<String, MultimodalError>) -> Result<
    Seq<char>,
    Seq<char>,
> {
    match result {
        Ok(text) => Ok(text@),
        Err(error) => Err(error@),
    }
}

/// The media type of a response, given what its URL suggests.
pub fn accept_guessed(head: &ResponseHead, expected_prefix: Option<&str>, guess: Option<String>) -> (
    media_type: Result<String, MultimodalError>)
    ensures
        text_or_error(media_type) == response_type(
            *head,
            opt_text(expected_prefix),
            opt_string(guess),
        ),
{
    if !head.success {
        return Err(
            MultimodalError::because("media URL returned HTTP ", head.status.as_str()),
        );
    }
    if let Some(length) = head.content_length {
        if length > MAX_REMOTE_BYTES as u64 {
            return Err(too_large_error(length));
        }
    }
    let declared: Option<String> = match &head.content_type {
        Some(value) => {
            let chars = chars_of(value.as_str());
            proof {
                assert(chars@.subrange(0, chars@.len() as int) == value@);
            }
            let end = find_char(&chars, 0, chars.len(), ';');
            proof {
                assert(chars@.subrange(0, end as int) == value@.take(end as int));
            }
            let name = trimmed_text(&chars, 0, end);
            if name.as_str().is_empty() {
                None
            } else {
                Some(name)
            }
        },
        None => None,
    };
    let media_type: String = match declared {
        Some(name) => name,
        None => match guess {
            Some(name) => name,
            None => "application/octet-stream".to_owned(),
        },
    };
    match check_media_type(media_type.as_str(), expected_prefix, "/* media URL, got ") {
        Ok(_) => Ok(media_type),
        Err(error) => Err(error),
    }
}

/// The media type of the response to a request for `url`, or why it is refused.
pub fn accept_response(head: &ResponseHead, url: &str, expected_prefix: Option<&str>) -> (
    media_type: Result<String, MultimodalError>)
    ensures
        exists|guess: Option<Seq<char>>|
            (plain_path(url@) ==> guess == guessed_type(url@)) && text_or_error(media_type)
                == #[trigger] response_type(*head, opt_text(expected_prefix), guess),
{
    let guess = guess_type(url);
    let ghost seen = opt_string(guess);
    let media_type = accept_guessed(head, expected_prefix, guess);
    proof {
        assert(text_or_error(media_type) == response_type(
            *head,
            opt_text(expected_prefix),
            seen,
        ));
    }
    media_type
}

/// The media of a download whose body was read; too large a body is refused.
pub open spec fn body_media(media_type: Seq<char>, bytes: Seq<u8>) -> Result<Media, Seq<char>> {
    if bytes.len() > MAX_REMOTE_BYTES {
        Err(too_large(bytes.len()))
    } else {
        Ok(Media { media_type, bytes })
    }
}

/// The media of a download whose body was read; too large a body is refused.
pub fn accept_body(media_type: String, bytes: Vec<u8>) -> (media: Result<
    LoadedMedia,
    MultimodalError,
>)
    ensures
        media_view(media) == body_media(media_type@, bytes@),
{
    if bytes.len() > MAX_REMOTE_BYTES {
        return Err(too_large_error(bytes.len() as u64));
    }
    Ok(LoadedMedia { media_type, bytes })
}

/// What went wrong on the way to a response.
#[derive(Debug, Clone, Copy, PartialEq, Eq)]
pub enum DownloadStage {
    Client,
    Request,
    Body,
}

/// The beginning of the message for a download that failed.
pub open spec fn stage_message(stage: DownloadStage) -> Seq<char> {
    match stage {
        DownloadStage::Client => "failed to build HTTP client: "@,
        DownloadStage::Request => "failed to download media URL: "@,
        DownloadStage::Body => "failed to read media URL body: "@,
    }
}

/// The error for a download that failed.
pub fn download_failed(stage: DownloadStage, reason: &str) -> (error: MultimodalError)
    ensures
        error@ == stage_message(stage) + reason@,
{
    match stage {
        DownloadStage::Client => MultimodalError::because("failed to build HTTP client: ", reason),
        DownloadStage::Request => MultimodalError::because(
            "failed to download media URL: ",
            reason,
        ),
        DownloadStage::Body => MultimodalError::because(
            "failed to read media URL body: ",
            reason,
        ),
    }
}

} // verus!
