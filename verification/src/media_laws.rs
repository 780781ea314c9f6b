//! Laws of media behind URLs.
use crate::media::{
    base64_decoded, body_media, data_url, data_url_media, declared_type, download_type,
    first_index, is_expected, is_space, lemma_first_index, lemma_first_index_is, media_plan, pieces,
    response_type, scheme_error, stage_message, too_large, trim_end, trim_start, unexpected,
    url_scheme, DataUrl, DownloadStage, Media, MediaPlan, ResponseHead,
};
use crate::text::{begins_with, decimal, opt_string, same_but_case};
use crate::text_laws::law_text_begins_with_its_beginning;
use vstd::prelude::*;

verus! {

/// Pieces are cut at the character and nowhere else: what stands before its first occurrence is the
/// first piece, and what stands behind it is cut in the same way.
pub proof fn law_pieces_are_cut_at_the_character(a: Seq<char>, c: char, b: Seq<char>)
    requires
        !a.contains(c),
    ensures
        pieces(a, c) == seq![a],
        pieces(a + seq![c] + b, c) == seq![a] + pieces(b, c),
{
    assert forall|j: int| 0 <= j < a.len() implies a[j] != c by {
        assert(a.contains(a[j]));
    }
    lemma_first_index_is(a, c, a.len() as int);
    let whole = a + seq![c] + b;
    assert forall|j: int| 0 <= j < a.len() implies whole[j] != c by {
        assert(whole[j] == a[j]);
    }
    assert(whole[a.len() as int] == c);
    lemma_first_index_is(whole, c, a.len() as int);
    assert(whole.take(a.len() as int) =~= a);
    assert(whole.skip((a.len() + 1) as int) =~= b);
}

/// A data URL is read at its first comma: what stands before it says the media type and whether the
/// payload is in base64, and all that stands behind it is the payload.
pub proof fn law_data_url_is_read_at_its_first_comma(meta: Seq<char>, payload: Seq<char>)
    requires
        !meta.contains(','),
    ensures
        ({
            let url = "data:"@ + meta + seq![','] + payload;
            let parts = pieces(meta, ';');
            let is_base64 = exists|i: int|
                1 <= i < parts.len() && same_but_case(#[trigger] parts[i], "base64"@);
            &&& is_base64 ==> data_url(url) == (DataUrl::Base64 {
                media_type: if parts[0].len() == 0 {
                    "text/plain"@
                } else {
                    parts[0]
                },
                payload,
            })
            &&& !is_base64 ==> data_url(url) is Plain
        }),
{
    reveal_strlit("data:");
    let url = "data:"@ + meta + seq![','] + payload;
    let rest = meta + seq![','] + payload;
    assert(url =~= "data:"@ + rest);
    law_text_begins_with_its_beginning("data:"@, rest);
    assert(url.skip(5) =~= rest);
    assert forall|j: int| 0 <= j < meta.len() implies rest[j] != ',' by {
        assert(rest[j] == meta[j]);
        assert(meta.contains(meta[j]));
    }
    assert(rest[meta.len() as int] == ',');
    lemma_first_index_is(rest, ',', meta.len() as int);
    assert(rest.take(meta.len() as int) =~= meta);
    assert(rest.skip((meta.len() + 1) as int) =~= payload);
}

/// A data URL in base64 gives its media type and its whole payload.
pub proof fn law_base64_data_url_gives_type_and_payload(media_type: Seq<char>, payload: Seq<char>)
    requires
        !media_type.contains(','),
        !media_type.contains(';'),
    ensures
        data_url("data:"@ + media_type + ";base64,"@ + payload) == (DataUrl::Base64 {
            media_type: if media_type.len() == 0 {
                "text/plain"@
            } else {
                media_type
            },
            payload,
        }),
{
    reveal_strlit(";base64,");
    reveal_strlit("base64");
    let meta = media_type + seq![';'] + "base64"@;
    assert forall|j: int| 0 <= j < meta.len() implies meta[j] != ',' by {
        if j < media_type.len() {
            assert(meta[j] == media_type[j]);
            assert(media_type.contains(media_type[j]));
        } else if j > media_type.len() {
            assert(meta[j] == "base64"@[j - media_type.len() - 1]);
        }
    }
    assert(!meta.contains(','));
    assert(!"base64"@.contains(';')) by {
        assert forall|j: int| 0 <= j < "base64"@.len() implies "base64"@[j] != ';' by {}
    }
    law_pieces_are_cut_at_the_character(media_type, ';', "base64"@);
    law_pieces_are_cut_at_the_character("base64"@, ';', Seq::empty());
    let parts = pieces(meta, ';');
    assert(parts =~= seq![media_type, "base64"@]);
    assert(same_but_case(parts[1], "base64"@));
    law_data_url_is_read_at_its_first_comma(meta, payload);
    assert("data:"@ + media_type + ";base64,"@ + payload =~= "data:"@ + meta + seq![','] + payload);
}

/// A data URL without a comma is broken, and a URL that does not begin with `data:` is none.
pub proof fn law_other_urls_are_no_data_urls(url: Seq<char>, rest: Seq<char>)
    ensures
        !begins_with(url, "data:"@) ==> data_url(url) is Other,
        !rest.contains(',') ==> data_url("data:"@ + rest) is Broken,
{
    reveal_strlit("data:");
    if !rest.contains(',') {
        let whole = "data:"@ + rest;
        law_text_begins_with_its_beginning("data:"@, rest);
        assert(whole.skip(5) =~= rest);
        lemma_first_index(rest, ',');
        if first_index(rest, ',') < rest.len() {
            assert(rest.contains(rest[first_index(rest, ',')]));
        }
    }
}

/// How the media of a URL is to be had. That of a data URL is what its payload decodes to, if its
/// type begins as expected. That of an `http` or `https` URL is to be downloaded. Anything else is
/// refused with its reason.
pub proof fn law_how_media_is_had(url: Seq<char>, expected: Option<Seq<char>>)
    ensures
        data_url(url) is Other ==> match url_scheme(url) {
            Ok(scheme) => if scheme == "http"@ || scheme == "https"@ {
                media_plan(url, expected) is Download
            } else {
                media_plan(url, expected) == MediaPlan::Refused(
                    "only http, https, and data URLs are supported for multimodal sources"@,
                )
            },
            Err(reason) => media_plan(url, expected) == MediaPlan::Refused(
                "invalid media URL: "@ + reason,
            ),
        },
        data_url(url) is Broken ==> media_plan(url, expected) == MediaPlan::Refused(
            "invalid data URL"@,
        ),
        data_url(url) is Plain ==> media_plan(url, expected) == MediaPlan::Refused(
            "only base64 data URLs are supported"@,
        ),
        data_url(url) matches DataUrl::Base64 { media_type, payload } ==> match base64_decoded(
            payload,
        ) {
            Ok(bytes) => match expected {
                Some(prefix) => if begins_with(media_type, prefix) {
                    media_plan(url, expected) == MediaPlan::Loaded(Media { media_type, bytes })
                } else {
                    media_plan(url, expected) == MediaPlan::Refused(
                        "expected "@ + prefix + "/* data URL, got "@ + media_type,
                    )
                },
                None => media_plan(url, expected) == MediaPlan::Loaded(Media { media_type, bytes }),
            },
            Err(reason) => media_plan(url, expected) == MediaPlan::Refused(
                "invalid data URL base64 payload: "@ + reason,
            ),
        },
        data_url(url) is Other <==> data_url_media(url) is None,
{
}

/// A scheme that can be downloaded is `http` or `https`.
pub proof fn law_schemes_that_are_downloaded(scheme: Result<Seq<char>, Seq<char>>)
    ensures
        scheme_error(scheme) is None <==> scheme == Ok::<Seq<char>, Seq<char>>("http"@) || scheme
            == Ok::<Seq<char>, Seq<char>>("https"@),
{
}

/// White space is what Unicode calls so.
pub proof fn law_white_space(c: char)
    ensures
        is_space(c) <==> {
            let n = c as int;
            9 <= n <= 13 || n == 32 || n == 133 || n == 160 || n == 5760 || 8192 <= n <= 8202 || n
                == 8232 || n == 8233 || n == 8239 || n == 8287 || n == 12288
        },
{
}

/// Every character is white space.
pub open spec fn blank(s: Seq<char>) -> bool {
    forall|i: int| 0 <= i < s.len() ==> is_space(#[trigger] s[i])
}

/// Trimming takes white space from the two ends and nothing else: a text that neither begins nor
/// ends with white space is what is left of it with any white space around it.
pub proof fn law_trimming_takes_white_space_only(a: Seq<char>, text: Seq<char>, b: Seq<char>)
    requires
        blank(a),
        blank(b),
        text.len() > 0 ==> !is_space(text[0]) && !is_space(text.last()),
    ensures
        trim_end(trim_start(a + text + b)) == text,
    decreases a.len() + b.len(),
{
    let whole = a + text + b;
    if a.len() > 0 {
        let rest = a.drop_first();
        assert(whole[0] == a[0]);
        assert(whole.drop_first() =~= rest + text + b);
        assert forall|i: int| 0 <= i < rest.len() implies is_space(#[trigger] rest[i]) by {
            assert(rest[i] == a[i + 1]);
        }
        law_trimming_takes_white_space_only(rest, text, b);
    } else if text.len() > 0 {
        assert(whole[0] == text[0]);
        assert(whole =~= text + b);
        lemma_trim_end(text, b);
    } else {
        assert(whole =~= b);
        lemma_trim_blank(b);
    }
}

/// White space at the end is taken off.
proof fn lemma_trim_end(text: Seq<char>, b: Seq<char>)
    requires
        text.len() > 0,
        !is_space(text.last()),
        blank(b),
    ensures
        trim_end(text + b) == text,
    decreases b.len(),
{
    let whole = text + b;
    if b.len() > 0 {
        let front = b.drop_last();
        assert(whole.last() == b[b.len() - 1]);
        assert(whole.drop_last() =~= text + front);
        assert forall|i: int| 0 <= i < front.len() implies is_space(#[trigger] front[i]) by {
            assert(front[i] == b[i]);
        }
        lemma_trim_end(text, front);
    } else {
        assert(whole =~= text);
    }
}

/// Of white space nothing is left.
proof fn lemma_trim_blank(b: Seq<char>)
    requires
        blank(b),
    ensures
        trim_start(b).len() == 0,
        trim_end(trim_start(b)).len() == 0,
    decreases b.len(),
{
    if b.len() > 0 {
        let rest = b.drop_first();
        assert forall|i: int| 0 <= i < rest.len() implies is_space(#[trigger] rest[i]) by {
            assert(rest[i] == b[i + 1]);
        }
        assert(is_space(b[0]));
        lemma_trim_blank(rest);
    }
}

/// The declared type of a response is what stands before the first semicolon of its header, without
/// white space around it, if that is not empty.
pub proof fn law_declared_type_stands_before_the_semicolon(
    a: Seq<char>,
    name: Seq<char>,
    b: Seq<char>,
    parameters: Seq<char>,
)
    requires
        blank(a),
        blank(b),
        name.len() > 0 ==> !is_space(name[0]) && !is_space(name.last()),
        !name.contains(';'),
    ensures
        declared_type(None) is None,
        declared_type(Some(a + name + b)) == if name.len() > 0 {
            Some(name)
        } else {
            None
        },
        declared_type(Some(a + name + b + seq![';'] + parameters)) == if name.len() > 0 {
            Some(name)
        } else {
            None
        },
{
    let front = a + name + b;
    let whole = front + seq![';'] + parameters;
    assert forall|j: int| 0 <= j < front.len() implies front[j] != ';' by {
        if j < a.len() {
            assert(is_space(a[j]));
        } else if j < a.len() + name.len() {
            assert(front[j] == name[j - a.len()]);
            assert(name.contains(name[j - a.len()]));
        } else {
            assert(front[j] == b[j - a.len() - name.len()]);
            assert(is_space(b[j - a.len() - name.len()]));
        }
    }
    lemma_first_index_is(front, ';', front.len() as int);
    assert(front.take(front.len() as int) =~= front);
    assert forall|j: int| 0 <= j < front.len() implies whole[j] != ';' by {
        assert(whole[j] == front[j]);
    }
    assert(whole[front.len() as int] == ';');
    lemma_first_index_is(whole, ';', front.len() as int);
    assert(whole.take(front.len() as int) =~= front);
    law_trimming_takes_white_space_only(a, name, b);
}

/// The type of a download is the declared one, else the guessed one, else that of any bytes.
pub proof fn law_declared_type_counts_first(
    header: Option<Seq<char>>,
    guess: Option<Seq<char>>,
)
    ensures
        declared_type(header) matches Some(name) ==> download_type(header, guess) == name,
        declared_type(header) is None && guess is Some ==> download_type(header, guess)
            == guess->0,
        declared_type(header) is None && guess is None ==> download_type(header, guess)
            == "application/octet-stream"@,
{
}

/// A response is accepted if its status is one of success, its length is not known to be more than
/// ten mebibytes, and its type begins as expected; else the first of these that fails is told.
pub proof fn law_responses_that_are_accepted(
    head: ResponseHead,
    expected: Option<Seq<char>>,
    guess: Option<Seq<char>>,
)
    ensures
        ({
            let result = response_type(head, expected, guess);
            let name = download_type(opt_string(head.content_type), guess);
            let large = head.content_length is Some && head.content_length->0 > 10485760;
            let fits = expected is None || begins_with(name, expected->0);
            &&& !head.success ==> result == Err::<Seq<char>, Seq<char>>(
                "media URL returned HTTP "@ + head.status@,
            )
            &&& head.success && large ==> result == Err::<Seq<char>, Seq<char>>(
                "media URL body is too large: "@ + decimal(head.content_length->0 as nat)
                    + " bytes"@,
            )
            &&& head.success && !large && fits ==> result == Ok::<Seq<char>, Seq<char>>(name)
            &&& head.success && !large && !fits ==> result == Err::<Seq<char>, Seq<char>>(
                "expected "@ + expected->0 + "/* media URL, got "@ + name,
            )
        }),
{
}

/// A body of at most ten mebibytes is taken whole; a larger one is refused.
pub proof fn law_bodies_that_are_accepted(media_type: Seq<char>, bytes: Seq<u8>)
    ensures
        bytes.len() <= 10485760 ==> body_media(media_type, bytes) == Ok::<Media, Seq<char>>(
            Media { media_type, bytes },
        ),
        bytes.len() > 10485760 ==> body_media(media_type, bytes) == Err::<Media, Seq<char>>(
            "media URL body is too large: "@ + decimal(bytes.len()) + " bytes"@,
        ),
{
}

/// What is told of a body that is too large, and of a download that failed.
pub proof fn law_messages_of_downloads(length: nat)
    ensures
        too_large(length) == "media URL body is too large: "@ + decimal(length) + " bytes"@,
        stage_message(DownloadStage::Client) == "failed to build HTTP client: "@,
        stage_message(DownloadStage::Request) == "failed to download media URL: "@,
        stage_message(DownloadStage::Body) == "failed to read media URL body: "@,
{
}

/// A type is expected exactly where it begins with the prefix that is asked for.
pub proof fn law_expected_types_begin_with_the_prefix(
    media_type: Seq<char>,
    prefix: Seq<char>,
    source: Seq<char>,
)
    ensures
        is_expected(media_type, None),
        is_expected(media_type, Some(prefix)) <==> begins_with(media_type, prefix),
        unexpected(media_type, Some(prefix), source) == "expected "@ + prefix + source + media_type,
{
}

} // verus!
