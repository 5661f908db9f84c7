//! Urls and uris: which texts are some, and how their paths grow.

use vstd::prelude::*;

use crate::text::{chars_of, texts};

verus! {

/// `url::Url`: a url that was taken apart.
#[verifier::external_type_specification]
#[verifier::external_body]
pub struct ExUrl(url::Url);

/// A url: what is before its path, the path, and what is behind it.
pub struct UrlParts {
    /// Up to the path.
    pub before: Seq<char>,
    /// The path.
    pub path: Seq<char>,
    /// From the end of the path on.
    pub after: Seq<char>,
    /// Whether the path is made of segments.
    pub segmented: bool,
}

impl UrlParts {
    /// The url as a text.
    pub open spec fn text(self) -> Seq<char> {
        self.before + self.path + self.after
    }

    /// Whether the url is one of a file.
    pub open spec fn is_file(self) -> bool {
        "file:"@.is_prefix_of(self.before)
    }
}

/// The parts of a url.
pub uninterp spec fn url_parts(url: url::Url) -> UrlParts;

/// The parts of the url that `url` takes a text for, if it takes it for one.
pub uninterp spec fn parsed_parts(text: Seq<char>) -> Option<UrlParts>;

/// The parts of a url after `url` has added segments to its path.
pub uninterp spec fn extended_parts(parts: UrlParts, segments: Seq<Seq<char>>) -> UrlParts;

/// The most characters that a url may have whose path is changed.
pub const MAX_URL_LEN: usize = 0x3fff_0000;

/// `url::Url::parse`: whether the text is a url, and what its parts are, depends on the text
/// alone. Which texts are urls is left unsaid.
#[verifier::external_body]
fn parse(text: &str) -> (r: Option<url::Url>)
    ensures
        match r {
            Some(url) => parsed_parts(text@) == Some(url_parts(url)),
            None => parsed_parts(text@) is None,
        },
{
    url::Url::parse(text).ok()
}

/// `url::Url::as_str` gives the parts of a url one after the other.
#[verifier::external_body]
fn text_of(url: &url::Url) -> (r: String)
    ensures
        r@ == url_parts(*url).text(),
{
    url.as_str().to_string()
}

/// The path without its last segment where that is empty and not the only one.
pub open spec fn without_empty_segment(path: Seq<char>) -> Seq<char> {
    if path.len() > 1 && path.last() == '/' {
        path.drop_last()
    } else {
        path
    }
}

/// `url::PathSegmentsMut::pop_if_empty` drops the slash at the end of a path, unless it is all
/// of the path. `url::Url::path_segments_mut` refuses urls whose path is not made of segments.
#[verifier::external_body]
fn drop_empty_segment(url: &mut url::Url) -> (r: bool)
    requires
        url_parts(*old(url)).text().len() <= MAX_URL_LEN,
    ensures
        r == url_parts(*old(url)).segmented,
        url_parts(*final(url)) == if r {
            UrlParts {
                path: without_empty_segment(url_parts(*old(url)).path),
                ..url_parts(*old(url))
            }
        } else {
            url_parts(*old(url))
        },
{
    match url.path_segments_mut() {
        Ok(mut segments) => {
            segments.pop_if_empty();
            true
        },
        Err(()) => false,
    }
}

/// A character that stands for itself in a path.
pub open spec fn is_plain_char(c: char) -> bool {
    'a' <= c <= 'z' || 'A' <= c <= 'Z' || '0' <= c <= '9' || c == '-' || c == '.' || c == '_'
}

/// A segment that is added to a path as it is.
pub open spec fn is_plain(segment: Seq<char>) -> bool {
    &&& segment.len() > 0
    &&& segment != "."@
    &&& segment != ".."@
    &&& forall|i: int| 0 <= i < segment.len() ==> is_plain_char(#[trigger] segment[i])
}

/// A path with segments behind it, each after a slash.
pub open spec fn with_segments(path: Seq<char>, segments: Seq<Seq<char>>) -> Seq<char>
    decreases segments.len(),
{
    if segments.len() == 0 {
        path
    } else {
        let rest = with_segments(path, segments.drop_last());
        if rest.len() == 1 {
            rest + segments.last()
        } else {
            rest.push('/') + segments.last()
        }
    }
}

/// `url::PathSegmentsMut::extend` adds segments to a path, and `url::Url::path_segments_mut`
/// refuses urls whose path is not made of segments. What comes out depends on the url and the
/// segments alone. Segments of plain characters are added as they are, each after a slash that
/// is not there twice at the start. What becomes of other characters, and of urls of files,
/// which have rules of their own, is left unsaid.
#[verifier::external_body]
fn add_segments(url: &mut url::Url, segments: &Vec<String>) -> (r: bool)
    requires
        url_parts(*old(url)).text().len() <= MAX_URL_LEN,
        segments@.len() <= 16,
        forall|i: int| 0 <= i < segments@.len() ==> (#[trigger] segments@[i])@.len() <= 64,
    ensures
        r == url_parts(*old(url)).segmented,
        url_parts(*final(url)) == if r {
            extended_parts(url_parts(*old(url)), texts(segments@))
        } else {
            url_parts(*old(url))
        },
        r && !url_parts(*old(url)).is_file() && (forall|i: int|
            0 <= i < segments@.len() ==> is_plain((#[trigger] segments@[i])@)) ==> url_parts(
            *final(url),
        ) == (UrlParts {
            path: with_segments(url_parts(*old(url)).path, texts(segments@)),
            ..url_parts(*old(url))
        }),
{
    match url.path_segments_mut() {
        Ok(mut path) => {
            path.extend(segments);
            true
        },
        Err(()) => false,
    }
}

/// The text of a url as `url` writes it, if it is one.
pub open spec fn parsed_url(text: Seq<char>) -> Option<Seq<char>> {
    match parsed_parts(text) {
        Some(parts) => Some(parts.text()),
        None => None,
    }
}

/// The url that a text stands for, written in full.
pub fn parse_url(text: &str) -> (r: Option<String>)
    ensures
        match r {
            Some(url) => parsed_url(text@) == Some(url@),
            None => parsed_url(text@) is None,
        },
{
    match parse(text) {
        Some(url) => Some(text_of(&url)),
        None => None,
    }
}

/// Whether the url of a text has no more characters than one may have whose path is changed.
pub open spec fn is_short_url(text: Seq<char>) -> bool {
    parsed_url(text) matches Some(url) ==> url.len() <= MAX_URL_LEN
}

/// Whether the url of a text has no more characters than one may have whose path is changed.
pub fn check_short_url(text: &str) -> (r: bool)
    ensures
        r == is_short_url(text@),
{
    match parse_url(text) {
        Some(url) => chars_of(url.as_str()).len() <= MAX_URL_LEN,
        None => true,
    }
}

/// A url with the slash at the end of its path dropped and then segments added to the path,
/// where the path is made of segments.
pub open spec fn below(parts: Option<UrlParts>, segments: Seq<Seq<char>>) -> Option<Seq<char>> {
    match parts {
        Some(parts) => if parts.segmented {
            let shorter = UrlParts { path: without_empty_segment(parts.path), ..parts };
            Some(extended_parts(shorter, segments).text())
        } else {
            None
        },
        None => None,
    }
}

/// The url below the one of a text: the slash at the end of its path is dropped and then the
/// segments are added.
pub(crate) fn url_below(text: &str, segments: &Vec<String>) -> (r: Option<String>)
    requires
        is_short_url(text@),
        segments@.len() <= 16,
        forall|i: int| 0 <= i < segments@.len() ==> (#[trigger] segments@[i])@.len() <= 64,
        forall|i: int| 0 <= i < segments@.len() ==> is_plain((#[trigger] segments@[i])@),
    ensures
        match r {
            Some(url) => below(parsed_parts(text@), texts(segments@)) == Some(url@),
            None => below(parsed_parts(text@), texts(segments@)) is None,
        },
        r matches Some(url) ==> ({
            let parts = parsed_parts(text@)->0;
            parts.is_file() || url@ == parts.before + with_segments(
                without_empty_segment(parts.path),
                texts(segments@),
            ) + parts.after
        }),
{
    let mut url = match parse(text) {
        Some(url) => url,
        None => {
            return None;
        },
    };
    if !drop_empty_segment(&mut url) {
        return None;
    }
    if !add_segments(&mut url, segments) {
        return None;
    }
    Some(text_of(&url))
}

/// The uri that `http` takes a text for, as it writes it, if it takes it for one.
pub uninterp spec fn parsed_uri(text: Seq<char>) -> Option<Seq<char>>;

/// `http::Uri::from_str`, and its `Display` for what comes out: both depend on the text alone.
/// Which texts are uris, and how they are written, is left unsaid.
#[verifier::external_body]
fn read_uri(text: &str) -> (r: Option<String>)
    ensures
        match r {
            Some(uri) => parsed_uri(text@) == Some(uri@),
            None => parsed_uri(text@) is None,
        },
{
    text.parse::<http::Uri>().ok().map(|uri| uri.to_string())
}

/// The uri that a text stands for, written in full.
pub fn parse_uri(text: &str) -> (r: Option<String>)
    ensures
        match r {
            Some(uri) => parsed_uri(text@) == Some(uri@),
            None => parsed_uri(text@) is None,
        },
{
    read_uri(text)
}

/// A path loses one slash at its end, and the path that is nothing but a slash keeps it.
pub proof fn law_slash_at_end(path: Seq<char>)
    ensures
        path.len() > 0 ==> without_empty_segment(path.push('/')) == path,
        path.len() > 0 && path.last() != '/' ==> without_empty_segment(path) == path,
        without_empty_segment(seq!['/']) == seq!['/'],
{
    assert(path.push('/').drop_last() =~= path);
}

/// Segments are added one after the other, each behind one slash.
pub proof fn law_segments_are_added(path: Seq<char>, segments: Seq<Seq<char>>, segment: Seq<char>)
    ensures
        with_segments(path, Seq::empty()) == path,
        with_segments(path, segments).len() > 1 ==> with_segments(path, segments.push(segment))
            == with_segments(path, segments) + seq!['/'] + segment,
        with_segments(seq!['/'], seq![segment]) == seq!['/'] + segment,
        path.len() > 1 ==> with_segments(path, seq![segment]) == path + seq!['/'] + segment,
{
    let more = segments.push(segment);
    assert(more.drop_last() =~= segments);
    let rest = with_segments(path, segments);
    assert(rest.push('/') =~= rest + seq!['/']);
    let one = seq![segment];
    assert(one.drop_last() =~= Seq::<Seq<char>>::empty());
    assert(path.push('/') =~= path + seq!['/']);
    reveal_with_fuel(with_segments, 2);
    assert(one.last() == segment);
    assert(with_segments(seq!['/'], one) =~= seq!['/'] + segment);
}

/// The parts of a url stand one after the other in its text.
pub proof fn law_parts_make_text(parts: UrlParts)
    ensures
        parts.text().len() == parts.before.len() + parts.path.len() + parts.after.len(),
        parts.text().take(parts.before.len() as int) == parts.before,
        parts.text().subrange(
            parts.before.len() as int,
            (parts.before.len() + parts.path.len()) as int,
        ) == parts.path,
        parts.text().skip((parts.before.len() + parts.path.len()) as int) == parts.after,
{
    assert(parts.text().take(parts.before.len() as int) =~= parts.before);
    assert(parts.text().subrange(
        parts.before.len() as int,
        (parts.before.len() + parts.path.len()) as int,
    ) =~= parts.path);
    assert(parts.text().skip((parts.before.len() + parts.path.len()) as int) =~= parts.after);
}

} // verus!
