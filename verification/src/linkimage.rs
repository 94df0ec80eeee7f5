//! Images posted as links: which are looked at, and what a server's reply means.
use vstd::prelude::*;

use crate::lists::{at_most, has_text};
use crate::patterns::{
    capture_first, compile, compiles, find_all, first_group, is_match, matches_in, pattern_of,
};
use crate::text::{
    chars_of, ends_with, ends_with_text, same_text, starts_with, starts_with_text,
    string_of, texts,
};
use crate::unicode::{from_utf8_lossy, lossy_text, lowercase, to_lowercase};

verus! {

/// The most bytes of a linked image that are held.
pub const MAX_BYTES: usize = 15728640;

/// The most links of a message that are looked at.
pub const MAX_URLS_PER_MESSAGE: usize = 4;

pub const URL_PATTERN: &'static str = r"https?://[^\s<>]+";

pub const META_TAG_PATTERN: &'static str = r"(?is)<meta\b[^>]*>";

pub const OG_IMAGE_PROPERTY_PATTERN: &'static str =
    "(?i)property\\s*=\\s*[\"']og:image[^\"']*[\"']";

pub const CONTENT_ATTR_PATTERN: &'static str = "(?i)content\\s*=\\s*[\"']([^\"']+)[\"']";

/// The host that `Url::parse` and `Url::host_str` find in a URL.
pub uninterp spec fn host_of(url: Seq<char>) -> Option<Seq<char>>;

/// `Url::parse`, then `Url::host_str`: the host of a URL, where it is a URL and
/// has one.
#[verifier::external_body]
fn url_host(url: &str) -> (r: Option<String>)
    ensures
        match r {
            Some(host) => host_of(url@) == Some(host@),
            None => host_of(url@) is None,
        },
{
    let parsed = reqwest::Url::parse(url).ok()?;
    parsed.host_str().map(|h| h.to_owned())
}

/// The host is a listed one, or below one.
pub open spec fn listed(host: Seq<char>, allowed: Seq<Seq<char>>) -> bool {
    exists|i: int|
        0 <= i < allowed.len() && (host == (#[trigger] allowed[i]) || ends_with_text(
            host,
            seq!['.'] + allowed[i],
        ))
}

/// The host of a URL, if there is one, is a listed one, whatever its case.
pub open spec fn host_passes(host: Option<Seq<char>>, allowed: Seq<Seq<char>>) -> bool {
    match host {
        Some(host) => listed(lowercase(host), allowed),
        None => false,
    }
}

/// Whether a host in lower case is a listed one, or below one.
pub fn host_is_listed(host: &str, allowed_hosts: &[String]) -> (r: bool)
    ensures
        r == listed(host@, texts(allowed_hosts@)),
{
    let ghost allowed = texts(allowed_hosts@);
    for i in 0..allowed_hosts.len()
        invariant
            allowed == texts(allowed_hosts@),
            forall|k: int|
                0 <= k < i ==> host@ != (#[trigger] allowed[k]) && !ends_with_text(
                    host@,
                    seq!['.'] + allowed[k],
                ),
    {
        assert(allowed[i as int] == allowed_hosts@[i as int]@);
        let mut below = String::new();
        below.push('.');
        below.append(allowed_hosts[i].as_str());
        assert(below@ =~= seq!['.'] + allowed[i as int]);
        if same_text(host, allowed_hosts[i].as_str()) || ends_with(host, below.as_str()) {
            return true;
        }
    }
    false
}

/// Whether the host of a URL, which was found already, is a listed one.
pub fn host_is_passed(host: Option<&str>, allowed_hosts: &[String]) -> (r: bool)
    ensures
        r == host_passes(
            (match host {
                Some(h) => Some(h@),
                None => None,
            }),
            texts(allowed_hosts@),
        ),
{
    match host {
        Some(h) => host_is_listed(to_lowercase(h).as_str(), allowed_hosts),
        None => false,
    }
}

/// Whether a URL may be fetched: its host is a listed one, or below one.
pub fn host_is_allowed(url: &str, allowed_hosts: &[String]) -> (r: bool)
    ensures
        r == host_passes(host_of(url@), texts(allowed_hosts@)),
{
    match url_host(url) {
        Some(host) => host_is_passed(Some(host.as_str()), allowed_hosts),
        None => host_is_passed(None, allowed_hosts),
    }
}

/// A character that is not taken as the end of a URL in running text.
pub open spec fn trails(c: char) -> bool {
    c == '>' || c == ')' || c == ',' || c == '.' || c == '!' || c == '?'
}

/// A text without the trailing characters that do not belong to a URL.
pub open spec fn trimmed_url(s: Seq<char>) -> Seq<char>
    decreases s.len(),
{
    if s.len() > 0 && trails(s.last()) {
        trimmed_url(s.drop_last())
    } else {
        s
    }
}

/// A text without the trailing characters that do not belong to a URL.
pub fn trim_url(s: &str) -> (r: String)
    ensures
        r@ == trimmed_url(s@),
{
    let mut chars = chars_of(s);
    while chars.len() > 0 && (chars[chars.len() - 1] == '>' || chars[chars.len() - 1] == ')'
        || chars[chars.len() - 1] == ',' || chars[chars.len() - 1] == '.' || chars[chars.len() - 1]
        == '!' || chars[chars.len() - 1] == '?')
        invariant
            trimmed_url(chars@) == trimmed_url(s@),
        decreases chars@.len(),
    {
        chars.pop();
    }
    string_of(chars.as_slice())
}

/// A URL found in a message, with its host.
#[derive(Debug)]
pub struct FoundUrl {
    pub url: String,
    pub host: Option<String>,
}

/// A URL, and its host if it has one.
pub open spec fn found_view(f: FoundUrl) -> (Seq<char>, Option<Seq<char>>) {
    (
        f.url@,
        match f.host {
            Some(h) => Some(h@),
            None => None,
        },
    )
}

/// The URLs found in a message, with their hosts.
pub open spec fn found_views(found: Seq<FoundUrl>) -> Seq<(Seq<char>, Option<Seq<char>>)> {
    found.map_values(|f: FoundUrl| found_view(f))
}

/// The different URLs with a listed host, in the order of their first occurrence.
pub open spec fn passing_urls(
    found: Seq<(Seq<char>, Option<Seq<char>>)>,
    allowed: Seq<Seq<char>>,
) -> Seq<Seq<char>>
    decreases found.len(),
{
    if found.len() == 0 {
        Seq::empty()
    } else {
        let init = passing_urls(found.drop_last(), allowed);
        let (url, host) = found.last();
        if host_passes(host, allowed) && !init.contains(url) {
            init.push(url)
        } else {
            init
        }
    }
}

/// The first few of a list of URLs.
pub open spec fn first_urls(urls: Seq<Seq<char>>) -> Seq<Seq<char>> {
    at_most(urls, MAX_URLS_PER_MESSAGE as int)
}

/// Picks the URLs to look at from those found in a message.
pub fn pick_urls(found: &[FoundUrl], allowed_hosts: &[String]) -> (r: Vec<String>)
    ensures
        texts(r@) == first_urls(passing_urls(found_views(found@), texts(allowed_hosts@))),
{
    let ghost all = found_views(found@);
    let ghost allowed = texts(allowed_hosts@);
    let mut urls: Vec<String> = Vec::new();
    assert(texts(urls@) =~= passing_urls(all.take(0), allowed));
    for i in 0..found.len()
        invariant
            all == found_views(found@),
            allowed == texts(allowed_hosts@),
            texts(urls@) == passing_urls(all.take(i as int), allowed),
    {
        assert(all.take(i + 1).drop_last() =~= all.take(i as int));
        assert(all.take(i + 1).last() == found_view(found@[i as int]));
        let f = &found[i];
        let passes = match &f.host {
            Some(host) => host_is_passed(Some(host.as_str()), allowed_hosts),
            None => false,
        };
        let ghost before = texts(urls@);
        if passes && !has_text(urls.as_slice(), f.url.as_str()) {
            urls.push(f.url.clone());
            assert(texts(urls@) =~= before.push(f.url@));
        }
    }
    assert(all.take(all.len() as int) =~= all);
    let ghost passing = texts(urls@);
    if urls.len() > MAX_URLS_PER_MESSAGE {
        urls.truncate(MAX_URLS_PER_MESSAGE);
        assert(texts(urls@) =~= passing.take(MAX_URLS_PER_MESSAGE as int));
    }
    urls
}

/// The URLs that a message holds, each without the characters that trail it,
/// with their hosts.
pub open spec fn urls_in(content: Seq<char>) -> Seq<(Seq<char>, Option<Seq<char>>)> {
    if compiles(URL_PATTERN@) {
        matches_in(URL_PATTERN@, content).map_values(
            |m: Seq<char>| (trimmed_url(m), host_of(trimmed_url(m))),
        )
    } else {
        Seq::empty()
    }
}

/// A `<meta>` tag: whether it names a preview image, and what its content is.
#[derive(Debug)]
pub struct MetaTag {
    pub og_image: bool,
    pub content: Option<String>,
}

/// What a [`MetaTag`] says.
pub open spec fn tag_view(tag: MetaTag) -> (bool, Option<Seq<char>>) {
    (
        tag.og_image,
        match tag.content {
            Some(c) => Some(c@),
            None => None,
        },
    )
}

/// What each of a list of tags says.
pub open spec fn tag_views(tags: Seq<MetaTag>) -> Seq<(bool, Option<Seq<char>>)> {
    tags.map_values(|t: MetaTag| tag_view(t))
}

/// The content of the first tag that names a preview image and has one.
pub open spec fn first_preview(tags: Seq<(bool, Option<Seq<char>>)>) -> Option<Seq<char>>
    decreases tags.len(),
{
    if tags.len() == 0 {
        None
    } else if tags[0].0 && tags[0].1 is Some {
        tags[0].1
    } else {
        first_preview(tags.drop_first())
    }
}

/// The `<meta>` tags of a page.
pub open spec fn meta_tags(html: Seq<char>) -> Seq<(bool, Option<Seq<char>>)> {
    if compiles(META_TAG_PATTERN@) && compiles(OG_IMAGE_PROPERTY_PATTERN@) && compiles(
        CONTENT_ATTR_PATTERN@,
    ) {
        matches_in(META_TAG_PATTERN@, html).map_values(
            |tag: Seq<char>|
                (
                    matches_in(OG_IMAGE_PROPERTY_PATTERN@, tag).len() > 0,
                    first_group(CONTENT_ATTR_PATTERN@, tag),
                ),
        )
    } else {
        Seq::empty()
    }
}

/// The content of the first tag that names a preview image and has one.
pub fn preview_of(tags: &[MetaTag]) -> (r: Option<String>)
    ensures
        match r {
            Some(url) => first_preview(tag_views(tags@)) == Some(url@),
            None => first_preview(tag_views(tags@)) is None,
        },
{
    let ghost all = tag_views(tags@);
    assert(all.skip(0) =~= all);
    for i in 0..tags.len()
        invariant
            all == tag_views(tags@),
            first_preview(all) == first_preview(all.skip(i as int)),
    {
        let ghost left = all.skip(i as int);
        assert(left[0] == tag_view(tags@[i as int]));
        assert(left.drop_first() =~= all.skip(i + 1));
        let tag = &tags[i];
        if tag.og_image {
            if let Some(content) = &tag.content {
                return Some(content.clone());
            }
        }
    }
    None
}

/// The `<meta>` tags of a page.
fn read_meta_tags(html: &str) -> (r: Vec<MetaTag>)
    ensures
        tag_views(r@) == meta_tags(html@),
{
    let mut tags: Vec<MetaTag> = Vec::new();
    assert(tag_views(tags@) =~= Seq::empty());
    let (Ok(meta), Ok(property), Ok(content)) = (
        compile(META_TAG_PATTERN),
        compile(OG_IMAGE_PROPERTY_PATTERN),
        compile(CONTENT_ATTR_PATTERN),
    ) else {
        return tags;
    };
    let found = find_all(&meta, html);
    for i in 0..found.len()
        invariant
            compiles(META_TAG_PATTERN@) && compiles(OG_IMAGE_PROPERTY_PATTERN@) && compiles(
                CONTENT_ATTR_PATTERN@,
            ),
            texts(found@) == matches_in(META_TAG_PATTERN@, html@),
            pattern_of(property) == OG_IMAGE_PROPERTY_PATTERN@,
            pattern_of(content) == CONTENT_ATTR_PATTERN@,
            tag_views(tags@) == meta_tags(html@).take(i as int),
    {
        let ghost before = tag_views(tags@);
        let text = found[i].as_str();
        assert(matches_in(META_TAG_PATTERN@, html@)[i as int] == text@);
        let tag = MetaTag {
            og_image: is_match(&property, text),
            content: capture_first(&content, text),
        };
        tags.push(tag);
        assert(tag_views(tags@) =~= before.push(tag_view(tag)));
        assert(meta_tags(html@).take(i + 1) =~= before.push(meta_tags(html@)[i as int]));
    }
    assert(meta_tags(html@).take(found@.len() as int) =~= meta_tags(html@));
    tags
}

/// The preview image that a page names in its `og:image` tag.
pub fn find_og_image(html: &str) -> (r: Option<String>)
    ensures
        match r {
            Some(url) => first_preview(meta_tags(html@)) == Some(url@),
            None => first_preview(meta_tags(html@)) is None,
        },
{
    let tags = read_meta_tags(html);
    preview_of(tags.as_slice())
}

/// What a server's reply holds, by its content type.
#[derive(Debug, Clone, Copy, PartialEq, Eq, Structural)]
pub enum BodyKind {
    Image,
    Page,
    Other,
}

/// What a reply of this content type holds.
pub open spec fn kind_of(content_type: Seq<char>) -> BodyKind {
    if starts_with_text(content_type, "image/"@) {
        BodyKind::Image
    } else if starts_with_text(content_type, "text/html"@) {
        BodyKind::Page
    } else {
        BodyKind::Other
    }
}

/// What a reply of this content type holds.
pub fn body_kind(content_type: &str) -> (r: BodyKind)
    ensures
        r == kind_of(content_type@),
{
    if starts_with(content_type, "image/") {
        BodyKind::Image
    } else if starts_with(content_type, "text/html") {
        BodyKind::Page
    } else {
        BodyKind::Other
    }
}

/// Whether the body of a reply is read at all: only of a success, and not where
/// the server announces more than is held.
pub fn wants_body(success: bool, content_length: Option<u64>) -> (r: bool)
    ensures
        r == (success && (content_length matches Some(len) ==> len <= MAX_BYTES)),
{
    success && match content_length {
        Some(len) => len <= MAX_BYTES as u64,
        None => true,
    }
}

/// Adds a piece of a body to what was read. Says whether all of it may be held.
pub fn read_chunk(bytes: &mut Vec<u8>, chunk: &[u8]) -> (r: bool)
    ensures
        final(bytes)@ == old(bytes)@ + chunk@,
        r == (old(bytes)@.len() + chunk@.len() <= MAX_BYTES),
{
    bytes.extend_from_slice(chunk);
    assert(bytes@ =~= old(bytes)@ + chunk@);
    bytes.len() <= MAX_BYTES
}

/// What is done after a reply.
#[derive(Debug, PartialEq, Eq)]
pub enum Fetched {
    /// The reply is the image.
    Image(Vec<u8>),
    /// The reply is a page that names an image: fetch that.
    Follow(String),
    /// There is no image here.
    Nothing,
}

/// What is done after a reply, as a value to compare with.
pub enum FetchStep {
    Image(Seq<u8>),
    Follow(Seq<char>),
    Nothing,
}

impl View for Fetched {
    type V = FetchStep;

    open spec fn view(&self) -> FetchStep {
        match self {
            Fetched::Image(bytes) => FetchStep::Image(bytes@),
            Fetched::Follow(url) => FetchStep::Follow(url@),
            Fetched::Nothing => FetchStep::Nothing,
        }
    }
}

/// What is done after a page that names this image, on this host.
pub open spec fn page_step(
    preview: Option<Seq<char>>,
    host: Option<Seq<char>>,
    allowed: Seq<Seq<char>>,
) -> FetchStep {
    match preview {
        Some(url) => if host_passes(host, allowed) {
            FetchStep::Follow(url)
        } else {
            FetchStep::Nothing
        },
        None => FetchStep::Nothing,
    }
}

/// What is done after the first reply.
pub open spec fn first_step(
    bytes: Seq<u8>,
    content_type: Seq<char>,
    allowed: Seq<Seq<char>>,
) -> FetchStep {
    match kind_of(content_type) {
        BodyKind::Image => FetchStep::Image(bytes),
        BodyKind::Page => {
            let preview = first_preview(meta_tags(lossy_text(bytes)));
            let host = match preview {
                Some(url) => host_of(url),
                None => None,
            };
            page_step(preview, host, allowed)
        },
        BodyKind::Other => FetchStep::Nothing,
    }
}

/// What is done after a page that names this image, on this host: the image is
/// followed once, and only to a listed host.
pub fn after_page(preview: Option<String>, host: Option<&str>, allowed_hosts: &[String]) -> (r:
    Fetched)
    ensures
        r@ == page_step(
            (match preview {
                Some(url) => Some(url@),
                None => None,
            }),
            (match host {
                Some(h) => Some(h@),
                None => None,
            }),
            texts(allowed_hosts@),
        ),
{
    match preview {
        Some(url) => if host_is_passed(host, allowed_hosts) {
            Fetched::Follow(url)
        } else {
            Fetched::Nothing
        },
        None => Fetched::Nothing,
    }
}

/// Looks at images that are posted as links. Only listed hosts are ever fetched
/// from: the bot must not fetch whatever a message happens to contain.
#[derive(Debug)]
pub struct LinkImageFetcher {
    allowed_hosts: Vec<String>,
}

impl View for LinkImageFetcher {
    type V = Seq<Seq<char>>;

    closed spec fn view(&self) -> Seq<Seq<char>> {
        texts(self.allowed_hosts@)
    }
}

impl LinkImageFetcher {
    /// A fetcher for these hosts, whatever their case.
    pub fn new(allowed_hosts: &[String]) -> (r: LinkImageFetcher)
        ensures
            r@ == texts(allowed_hosts@).map_values(|h: Seq<char>| lowercase(h)),
    {
        let ghost wanted = texts(allowed_hosts@).map_values(|h: Seq<char>| lowercase(h));
        let mut hosts: Vec<String> = Vec::new();
        for i in 0..allowed_hosts.len()
            invariant
                wanted == texts(allowed_hosts@).map_values(|h: Seq<char>| lowercase(h)),
                texts(hosts@) == wanted.take(i as int),
        {
            let ghost before = texts(hosts@);
            let host = to_lowercase(allowed_hosts[i].as_str());
            assert(texts(allowed_hosts@)[i as int] == allowed_hosts@[i as int]@);
            hosts.push(host);
            assert(texts(hosts@) =~= before.push(host@));
            assert(wanted.take(i + 1) =~= before.push(wanted[i as int]));
        }
        assert(wanted.take(allowed_hosts@.len() as int) =~= wanted);
        LinkImageFetcher { allowed_hosts: hosts }
    }

    /// The hosts that are fetched from, in lower case.
    pub fn allowed_hosts(&self) -> (r: &[String])
        ensures
            texts(r@) == self@,
    {
        self.allowed_hosts.as_slice()
    }

    /// Whether a URL may be fetched.
    pub fn host_allowed(&self, url: &str) -> (r: bool)
        ensures
            r == host_passes(host_of(url@), self@),
    {
        host_is_allowed(url, self.allowed_hosts.as_slice())
    }

    /// The URLs in a message that may be fetched: each once, and only a few.
    pub fn extract_urls(&self, content: &str) -> (r: Vec<String>)
        ensures
            texts(r@) == first_urls(passing_urls(urls_in(content@), self@)),
    {
        let mut found: Vec<FoundUrl> = Vec::new();
        assert(found_views(found@) =~= Seq::empty());
        if let Ok(re) = compile(URL_PATTERN) {
            let matches = find_all(&re, content);
            for i in 0..matches.len()
                invariant
                    compiles(URL_PATTERN@),
                    texts(matches@) == matches_in(URL_PATTERN@, content@),
                    found_views(found@) == urls_in(content@).take(i as int),
            {
                let ghost before = found_views(found@);
                assert(matches_in(URL_PATTERN@, content@)[i as int] == matches@[i as int]@);
                let url = trim_url(matches[i].as_str());
                let host = url_host(url.as_str());
                let f = FoundUrl { url, host };
                found.push(f);
                assert(found_views(found@) =~= before.push(found_view(f)));
                assert(urls_in(content@).take(i + 1) =~= before.push(urls_in(content@)[i as int]));
            }
            assert(urls_in(content@).take(matches@.len() as int) =~= urls_in(content@));
        }
        assert(found_views(found@) =~= urls_in(content@));
        pick_urls(found.as_slice(), self.allowed_hosts.as_slice())
    }

    /// What is done after the first reply: a page is followed to the image that
    /// it names, where that is on a listed host.
    pub fn after_first(&self, bytes: Vec<u8>, content_type: &str) -> (r: Fetched)
        ensures
            r@ == first_step(bytes@, content_type@, self@),
    {
        match body_kind(content_type) {
            BodyKind::Image => Fetched::Image(bytes),
            BodyKind::Page => {
                let html = from_utf8_lossy(bytes.as_slice());
                let preview = find_og_image(html.as_str());
                match preview {
                    Some(url) => {
                        let host = url_host(url.as_str());
                        match host {
                            Some(h) => after_page(
                                Some(url),
                                Some(h.as_str()),
                                self.allowed_hosts.as_slice(),
                            ),
                            None => Fetched::Nothing,
                        }
                    },
                    None => Fetched::Nothing,
                }
            },
            BodyKind::Other => Fetched::Nothing,
        }
    }

    /// What is left of the second reply: an image, or nothing. It is not followed
    /// any further.
    pub fn after_second(&self, bytes: Vec<u8>, content_type: &str) -> (r: Option<Vec<u8>>)
        ensures
            r == if kind_of(content_type@) == BodyKind::Image {
                Some(bytes)
            } else {
                None
            },
    {
        match body_kind(content_type) {
            BodyKind::Image => Some(bytes),
            _ => None,
        }
    }
}

proof fn passing_urls_pass(
    found: Seq<(Seq<char>, Option<Seq<char>>)>,
    allowed: Seq<Seq<char>>,
)
    ensures
        passing_urls(found, allowed).no_duplicates(),
        forall|i: int|
            0 <= i < passing_urls(found, allowed).len() ==> exists|k: int|
                0 <= k < found.len() && (#[trigger] found[k]).0 == (#[trigger] passing_urls(
                    found,
                    allowed,
                )[i]) && host_passes(found[k].1, allowed),
    decreases found.len(),
{
    if found.len() > 0 {
        let rest = found.drop_last();
        let init = passing_urls(rest, allowed);
        let all = passing_urls(found, allowed);
        passing_urls_pass(rest, allowed);
        assert forall|i: int| 0 <= i < all.len() implies exists|k: int|
            0 <= k < found.len() && (#[trigger] found[k]).0 == (#[trigger] all[i])
                && host_passes(found[k].1, allowed) by {
            if i < init.len() {
                assert(all[i] == init[i]);
                let k = choose|k: int|
                    0 <= k < rest.len() && (#[trigger] rest[k]).0 == init[i] && host_passes(
                        rest[k].1,
                        allowed,
                    );
                assert(found[k] == rest[k]);
            } else {
                assert(found[found.len() - 1] == found.last());
            }
        }
    }
}

/// Whatever a message holds, only a few URLs are looked at, none of them twice,
/// and each with a listed host.
pub proof fn picked_urls_are_few_and_listed(
    found: Seq<(Seq<char>, Option<Seq<char>>)>,
    allowed: Seq<Seq<char>>,
)
    ensures
        first_urls(passing_urls(found, allowed)).len() <= MAX_URLS_PER_MESSAGE,
        first_urls(passing_urls(found, allowed)).no_duplicates(),
        forall|i: int|
            0 <= i < first_urls(passing_urls(found, allowed)).len() ==> exists|k: int|
                0 <= k < found.len() && (#[trigger] found[k]).0 == (#[trigger] first_urls(
                    passing_urls(found, allowed),
                )[i]) && host_passes(found[k].1, allowed),
{
    passing_urls_pass(found, allowed);
    let all = passing_urls(found, allowed);
    assert forall|i: int| 0 <= i < first_urls(all).len() implies exists|k: int|
        0 <= k < found.len() && (#[trigger] found[k]).0 == (#[trigger] first_urls(all)[i])
            && host_passes(found[k].1, allowed) by {
        assert(first_urls(all)[i] == all[i]);
    }
}

/// A URL that a page leads to is only followed to a listed host.
pub proof fn followed_urls_are_listed(
    bytes: Seq<u8>,
    content_type: Seq<char>,
    allowed: Seq<Seq<char>>,
    url: Seq<char>,
)
    requires
        first_step(bytes, content_type, allowed) == FetchStep::Follow(url),
    ensures
        host_passes(host_of(url), allowed),
{
}

/// A host that is longer than a listed name and does not have a dot before it is
/// not below it: a look-alike is refused.
pub proof fn look_alikes_are_refused(host: Seq<char>, name: Seq<char>)
    requires
        host != name,
        host.len() > name.len() ==> host[host.len() - name.len() - 1] != '.',
    ensures
        !listed(host, seq![name]),
{
    if listed(host, seq![name]) {
        let below = seq!['.'] + name;
        assert(seq![name][0] == name);
        assert(ends_with_text(host, below));
        assert(host.subrange(host.len() - below.len(), host.len() as int)[0] == below[0]);
    }
}

/// A host that does not end in a listed name is not below it.
pub proof fn listed_hosts_end_in_the_name(host: Seq<char>, name: Seq<char>)
    requires
        listed(host, seq![name]),
    ensures
        ends_with_text(host, name),
{
    let below = seq!['.'] + name;
    assert(seq![name][0] == name);
    if host == name {
        assert(host.subrange(0, host.len() as int) =~= name);
    } else {
        let tail = host.subrange(host.len() - below.len(), host.len() as int);
        assert(tail == below);
        assert(host.subrange(host.len() - name.len(), host.len() as int) =~= tail.skip(1));
        assert(below.skip(1) =~= name);
    }
}

/// A reply whose content type starts with `image/` is the image, whatever follows and
/// whatever the hosts: the first reply is handed over with all its bytes, and the second
/// is taken for an image too.
pub proof fn image_replies_are_images(
    bytes: Seq<u8>,
    subtype: Seq<char>,
    allowed: Seq<Seq<char>>,
)
    ensures
        kind_of("image/"@ + subtype) is Image,
        first_step(bytes, "image/"@ + subtype, allowed) matches FetchStep::Image(image) && image
            == bytes,
{
    let content_type = "image/"@ + subtype;
    assert(content_type.subrange(0, "image/"@.len() as int) =~= "image/"@);
}

/// A reply whose content type starts with `text/html` is a page: its preview is followed
/// where it has one and the preview's host is listed, and else it leads to nothing. As a
/// second reply it is no image.
pub proof fn previews_of_pages_are_followed(
    bytes: Seq<u8>,
    parameters: Seq<char>,
    allowed: Seq<Seq<char>>,
)
    ensures
        ({
            let step = first_step(bytes, "text/html"@ + parameters, allowed);
            match first_preview(meta_tags(lossy_text(bytes))) {
                Some(url) => if host_passes(host_of(url), allowed) {
                    step matches FetchStep::Follow(followed) && followed == url
                } else {
                    step is Nothing
                },
                None => step is Nothing,
            }
        }),
        kind_of("text/html"@ + parameters) is Page,
{
    let content_type = "text/html"@ + parameters;
    reveal_strlit("image/");
    reveal_strlit("text/html");
    assert(content_type.subrange(0, "text/html"@.len() as int) =~= "text/html"@);
    if content_type.subrange(0, 6) == "image/"@ {
        assert(content_type.subrange(0, 6)[0] == 't');
        assert("image/"@[0] == 'i');
    }
}

/// Any other reply leads to nothing.
pub proof fn other_replies_lead_to_nothing(
    bytes: Seq<u8>,
    content_type: Seq<char>,
    allowed: Seq<Seq<char>>,
)
    requires
        forall|rest: Seq<char>| #[trigger] ("image/"@ + rest) != content_type,
        forall|rest: Seq<char>| #[trigger] ("text/html"@ + rest) != content_type,
    ensures
        kind_of(content_type) is Other,
        first_step(bytes, content_type, allowed) is Nothing,
{
    let image = "image/"@;
    let page = "text/html"@;
    if starts_with_text(content_type, image) {
        assert(image + content_type.skip(image.len() as int) =~= content_type);
    }
    if starts_with_text(content_type, page) {
        assert(page + content_type.skip(page.len() as int) =~= content_type);
    }
}

/// A host passes where it is a listed name or anything below one, whatever its case, and
/// nowhere else.
pub proof fn names_and_what_is_below_them_are_listed(
    host: Seq<char>,
    below: Seq<char>,
    allowed: Seq<Seq<char>>,
    i: int,
)
    requires
        0 <= i < allowed.len(),
    ensures
        listed(allowed[i], allowed),
        listed(below + seq!['.'] + allowed[i], allowed),
        host_passes(Some(host), allowed) <==> exists|k: int, sub: Seq<char>|
            0 <= k < allowed.len() && (lowercase(host) == allowed[k] || lowercase(host) == sub
                + seq!['.'] + #[trigger] allowed[k]) && #[trigger] sub.len() <= lowercase(
                host,
            ).len(),
        !host_passes(None, allowed),
{
    let name = below + seq!['.'] + allowed[i];
    let end = seq!['.'] + allowed[i];
    assert(name.subrange(name.len() - end.len(), name.len() as int) =~= end);
    assert(ends_with_text(name, end));
    let low = lowercase(host);
    if listed(low, allowed) {
        let k = choose|k: int|
            0 <= k < allowed.len() && (low == (#[trigger] allowed[k]) || ends_with_text(
                low,
                seq!['.'] + allowed[k],
            ));
        let tail = seq!['.'] + allowed[k];
        if low != allowed[k] {
            let sub = low.take(low.len() - tail.len());
            assert(sub + tail =~= low) by {
                let found = low.subrange(low.len() - tail.len(), low.len() as int);
                assert forall|j: int| 0 <= j < tail.len() implies low[low.len() - tail.len() + j]
                    == tail[j] by {
                    assert(found[j] == tail[j]);
                }
            }
            assert(sub + seq!['.'] + allowed[k] =~= sub + tail);
            assert(sub.len() <= low.len());
        } else {
            let sub = Seq::<char>::empty();
            assert(sub.len() <= low.len() && low == allowed[k]);
        }
    }
    if exists|k: int, sub: Seq<char>|
        0 <= k < allowed.len() && (low == allowed[k] || low == sub + seq!['.']
            + #[trigger] allowed[k]) && #[trigger] sub.len() <= low.len() {
        let (k, sub) = choose|k: int, sub: Seq<char>|
            0 <= k < allowed.len() && (low == allowed[k] || low == sub + seq!['.']
                + #[trigger] allowed[k]) && #[trigger] sub.len() <= low.len();
        if low != allowed[k] {
            let tail = seq!['.'] + allowed[k];
            assert(low.subrange(low.len() - tail.len(), low.len() as int) =~= tail);
            assert(ends_with_text(low, tail));
        }
        assert(listed(low, allowed));
    }
}

/// Every URL with a listed host is picked, as long as there are no more than four
/// different ones. Of more, the four that come first are.
pub proof fn the_first_four_urls_are_picked(
    found: Seq<(Seq<char>, Option<Seq<char>>)>,
    allowed: Seq<Seq<char>>,
    k: int,
)
    requires
        0 <= k < found.len(),
        host_passes(found[k].1, allowed),
    ensures
        passing_urls(found, allowed).contains(found[k].0),
        passing_urls(found, allowed).len() <= 4 ==> first_urls(passing_urls(found, allowed))
            == passing_urls(found, allowed),
        passing_urls(found, allowed).len() > 4 ==> first_urls(passing_urls(found, allowed))
            == passing_urls(found, allowed).take(4),
    decreases found.len(),
{
    let init = found.drop_last();
    let before = passing_urls(init, allowed);
    let after = passing_urls(found, allowed);
    if k < init.len() {
        assert(init[k] == found[k]);
        the_first_four_urls_are_picked(init, allowed, k);
        let i = choose|i: int| 0 <= i < before.len() && before[i] == found[k].0;
        assert(after[i] == found[k].0);
    } else if !before.contains(found[k].0) {
        assert(after[after.len() - 1] == found[k].0);
    }
}

/// What is picked so far stays in its place when more is found.
pub proof fn later_urls_come_later(
    found: Seq<(Seq<char>, Option<Seq<char>>)>,
    more: (Seq<char>, Option<Seq<char>>),
    allowed: Seq<Seq<char>>,
)
    ensures
        passing_urls(found.push(more), allowed).len() >= passing_urls(found, allowed).len(),
        passing_urls(found.push(more), allowed).take(passing_urls(found, allowed).len() as int)
            == passing_urls(found, allowed),
{
    let before = passing_urls(found, allowed);
    assert(found.push(more).drop_last() =~= found);
    assert(passing_urls(found.push(more), allowed).take(before.len() as int) =~= before);
}

/// Every link in a message is found by its scheme, up to white space or an angle bracket,
/// without what trails it, and with its own host.
pub proof fn every_link_is_found(content: Seq<char>)
    requires
        compiles("https?://[^\\s<>]+"@),
    ensures
        ({
            let links = matches_in("https?://[^\\s<>]+"@, content);
            let found = urls_in(content);
            &&& found.len() == links.len()
            &&& forall|i: int|
                0 <= i < links.len() ==> (#[trigger] found[i]).0 == trimmed_url(links[i])
                    && found[i].1 == host_of(trimmed_url(links[i]))
        }),
{
    reveal_strlit("https?://[^\\s<>]+");
    reveal_strlit(r"https?://[^\s<>]+");
    assert("https?://[^\\s<>]+"@ =~= r"https?://[^\s<>]+"@);
}

/// A URL loses the brackets and punctuation marks at its end, all of them and nothing
/// else.
pub proof fn urls_lose_only_what_trails_them(s: Seq<char>)
    ensures
        ({
            let url = trimmed_url(s);
            &&& url.len() <= s.len()
            &&& url == s.take(url.len() as int)
            &&& url.len() > 0 ==> !seq!['>', ')', ',', '.', '!', '?'].contains(url.last())
            &&& forall|i: int|
                url.len() <= i < s.len() ==> seq!['>', ')', ',', '.', '!', '?'].contains(
                    #[trigger] s[i],
                )
        }),
    decreases s.len(),
{
    let marks = seq!['>', ')', ',', '.', '!', '?'];
    assert(marks[0] == '>' && marks[1] == ')' && marks[2] == ',' && marks[3] == '.' && marks[4]
        == '!' && marks[5] == '?');
    if s.len() > 0 && trails(s.last()) {
        let init = s.drop_last();
        urls_lose_only_what_trails_them(init);
        let url = trimmed_url(s);
        assert(init.take(url.len() as int) =~= s.take(url.len() as int));
        assert forall|i: int| url.len() <= i < s.len() implies marks.contains(#[trigger] s[i]) by {
            if i < init.len() {
                assert(init[i] == s[i]);
            } else {
                assert(marks.contains(s.last()));
            }
        }
    } else {
        assert(s.take(s.len() as int) =~= s);
        if s.len() > 0 && marks.contains(s.last()) {
            let k = choose|k: int| 0 <= k < marks.len() && marks[k] == s.last();
            assert(false);
        }
    }
}

/// The preview of a page is the content of the first tag that is one and has a content.
pub proof fn the_first_preview_counts(tags: Seq<(bool, Option<Seq<char>>)>)
    ensures
        match first_preview(tags) {
            Some(url) => exists|i: int|
                0 <= i < tags.len() && (#[trigger] tags[i]).0 && tags[i].1 == Some(url) && forall|
                    k: int,
                |
                    0 <= k < i ==> !((#[trigger] tags[k]).0 && tags[k].1 is Some),
            None => forall|k: int|
                0 <= k < tags.len() ==> !((#[trigger] tags[k]).0 && tags[k].1 is Some),
        },
    decreases tags.len(),
{
    if tags.len() > 0 {
        if tags[0].0 && tags[0].1 is Some {
            assert(tags[0].1 == first_preview(tags));
        } else {
            let rest = tags.drop_first();
            the_first_preview_counts(rest);
            if let Some(url) = first_preview(rest) {
                let i = choose|i: int|
                    0 <= i < rest.len() && (#[trigger] rest[i]).0 && rest[i].1 == Some(url)
                        && forall|k: int|
                        0 <= k < i ==> !((#[trigger] rest[k]).0 && rest[k].1 is Some);
                assert(tags[i + 1] == rest[i]);
                assert forall|k: int| 0 <= k < i + 1 implies !((#[trigger] tags[k]).0
                    && tags[k].1 is Some) by {
                    if k > 0 {
                        assert(tags[k] == rest[k - 1]);
                    }
                }
            } else {
                assert forall|k: int| 0 <= k < tags.len() implies !((#[trigger] tags[k]).0
                    && tags[k].1 is Some) by {
                    if k > 0 {
                        assert(tags[k] == rest[k - 1]);
                    }
                }
            }
        }
    }
}

/// A page's tags are all of its meta tags, over line ends and whatever the case. Each comes
/// with whether it is a preview, and with its own content.
pub proof fn every_meta_tag_is_read(html: Seq<char>)
    requires
        compiles(META_TAG_PATTERN@),
        compiles(OG_IMAGE_PROPERTY_PATTERN@),
        compiles(CONTENT_ATTR_PATTERN@),
    ensures
        ({
            let found = matches_in("(?is)<meta\\b[^>]*>"@, html);
            let preview = "(?i)property\\s*=\\s*[\"']og:image[^\"']*[\"']"@;
            let content = "(?i)content\\s*=\\s*[\"']([^\"']+)[\"']"@;
            &&& meta_tags(html).len() == found.len()
            &&& forall|i: int|
                0 <= i < found.len() ==> {
                    &&& (#[trigger] meta_tags(html)[i]).0 == (matches_in(preview, found[i]).len()
                        > 0)
                    &&& meta_tags(html)[i].1 == first_group(content, found[i])
                }
        }),
{
    reveal_strlit("(?is)<meta\\b[^>]*>");
    reveal_strlit(r"(?is)<meta\b[^>]*>");
    assert("(?is)<meta\\b[^>]*>"@ =~= r"(?is)<meta\b[^>]*>"@);
}

/// Fifteen MiB of a body are held, and four links of a text are looked at.
pub proof fn limits_of_links()
    ensures
        MAX_BYTES == 15 * 1024 * 1024,
        MAX_URLS_PER_MESSAGE == 4,
{
}

} // verus!
