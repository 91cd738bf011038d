//! Previews of pasted links.
//!
//! A preview is made in steps. The caller does the fetching; between the
//! fetches the functions here decide what is fetched next and what the
//! preview holds: [`begin_fetch`] checks the address, [`page_fetched`] reads
//! the page, [`image_fetched`] judges the image, [`finish_fetch`] closes.
//! Reading tags out of a page is left to the `scraper` crate.

use crate::assets::{ext_from_content_type, extension_for, MAX_IMAGE_BYTES};
use crate::board_id::{is_valid_board_id, valid_board_id};
use crate::net::{
    has_web_scheme, is_safe_host, is_safe_url, is_web_scheme, join_url, joined_url, parse_url,
    parsed_url, ParsedUrl, UrlView,
};
use crate::text::{clean_text, cleaned, starts_with, text_of, to_chars};
use vstd::prelude::*;

verus! {

/// Why no preview is made.
#[derive(Debug, Clone, Copy, PartialEq, Eq, Structural)]
pub enum FetchError {
    /// The board identifier is not safe to embed in a path.
    InvalidIdentifier,
    /// The text is no absolute address.
    InvalidUrl,
    /// The address is neither `http` nor `https`.
    UnsupportedScheme,
    /// The address leads to the local network.
    BlockedHost,
}

impl FetchError {
    /// The words in which the refusal is reported.
    pub fn message(&self) -> (text: String)
        ensures
            text@ == match *self {
                FetchError::InvalidIdentifier => "invalid board id"@,
                FetchError::InvalidUrl => "invalid url"@,
                FetchError::UnsupportedScheme => "unsupported url scheme"@,
                FetchError::BlockedHost => "blocked url host"@,
            },
    {
        match self {
            FetchError::InvalidIdentifier => "invalid board id".to_string(),
            FetchError::InvalidUrl => "invalid url".to_string(),
            FetchError::UnsupportedScheme => "unsupported url scheme".to_string(),
            FetchError::BlockedHost => "blocked url host".to_string(),
        }
    }
}

/// The preview of a link.
#[derive(Debug, Clone, PartialEq, Eq)]
pub struct LinkMetadata {
    /// The address the page was found at, after redirects.
    pub url: String,
    pub title: String,
    /// The path of the saved preview image, relative to the board.
    pub image: Option<String>,
    pub site_name: Option<String>,
}

/// The view of a [`LinkMetadata`].
pub struct MetadataView {
    pub url: Seq<char>,
    pub title: Seq<char>,
    pub image: Option<Seq<char>>,
    pub site_name: Option<Seq<char>>,
}

impl View for LinkMetadata {
    type V = MetadataView;

    open spec fn view(&self) -> MetadataView {
        MetadataView {
            url: self.url@,
            title: self.title@,
            image: text_of(self.image),
            site_name: text_of(self.site_name),
        }
    }
}

/// What a page says of itself, each text without surrounding whitespace
/// and absent where nothing was left.
#[derive(Debug, Clone, PartialEq, Eq)]
pub struct PageTags {
    pub og_title: Option<String>,
    pub twitter_title: Option<String>,
    pub title: Option<String>,
    pub og_site_name: Option<String>,
    pub og_image: Option<String>,
    pub twitter_image: Option<String>,
}

/// The view of a [`PageTags`].
pub struct TagsView {
    pub og_title: Option<Seq<char>>,
    pub twitter_title: Option<Seq<char>>,
    pub title: Option<Seq<char>>,
    pub og_site_name: Option<Seq<char>>,
    pub og_image: Option<Seq<char>>,
    pub twitter_image: Option<Seq<char>>,
}

impl View for PageTags {
    type V = TagsView;

    open spec fn view(&self) -> TagsView {
        TagsView {
            og_title: text_of(self.og_title),
            twitter_title: text_of(self.twitter_title),
            title: text_of(self.title),
            og_site_name: text_of(self.og_site_name),
            og_image: text_of(self.og_image),
            twitter_image: text_of(self.twitter_image),
        }
    }
}

/// What `scraper` finds in a page: the value of attribute `attr` on the
/// first element that matches the selector; `None` where the selector does
/// not parse, nothing matches, or the element lacks the attribute.
pub uninterp spec fn first_attr_value(html: Seq<char>, selector: Seq<char>, attr: Seq<char>) -> Option<
    Seq<char>,
>;

/// What `scraper` finds in a page: the inner HTML of the first element that
/// matches the selector; `None` where the selector does not parse or
/// nothing matches.
pub uninterp spec fn first_inner_html(html: Seq<char>, selector: Seq<char>) -> Option<Seq<char>>;

/// Parses the page with `scraper::Html::parse_document` and the selector
/// with `scraper::Selector::parse`, takes the first element of
/// `Html::select`, and reads the attribute with `Element::attr`. The
/// contract names the outcome `first_attr_value(html, selector, attr)` and
/// claims nothing else of it.
#[verifier::external_body]
fn select_first_attr(html: &str, selector: &str, attr: &str) -> (value: Option<String>)
    ensures
        text_of(value) == first_attr_value(html@, selector@, attr@),
{
    let parsed = scraper::Selector::parse(selector).ok()?;
    let document = scraper::Html::parse_document(html);
    let element = document.select(&parsed).next()?;
    element.value().attr(attr).map(|v| v.to_string())
}

/// Parses the page with `scraper::Html::parse_document` and the selector
/// with `scraper::Selector::parse`, takes the first element of
/// `Html::select`, and serialises its children with
/// `ElementRef::inner_html`. The contract names the outcome
/// `first_inner_html(html, selector)` and claims nothing else of it.
#[verifier::external_body]
fn select_first_inner(html: &str, selector: &str) -> (inner: Option<String>)
    ensures
        text_of(inner) == first_inner_html(html@, selector@),
{
    let parsed = scraper::Selector::parse(selector).ok()?;
    let document = scraper::Html::parse_document(html);
    let element = document.select(&parsed).next()?;
    Some(element.inner_html())
}

/// A text that may be absent, without its surrounding whitespace.
pub open spec fn cleaned_option(raw: Option<Seq<char>>) -> Option<Seq<char>> {
    match raw {
        Some(text) => cleaned(text),
        None => None,
    }
}

/// A text that may be absent, without its surrounding whitespace; absent
/// where nothing is left.
pub fn clean_option(raw: Option<String>) -> (out: Option<String>)
    ensures
        text_of(out) == cleaned_option(text_of(raw)),
{
    match raw {
        Some(text) => clean_text(text.as_str()),
        None => None,
    }
}

/// The `content` of the first element of the page that matches
/// `selector`, without surrounding whitespace.
pub fn meta_content(html: &str, selector: &str) -> (content: Option<String>)
    ensures
        text_of(content) == cleaned_option(first_attr_value(html@, selector@, "content"@)),
{
    clean_option(select_first_attr(html, selector, "content"))
}

/// The text of the page's `title` element, without surrounding whitespace.
pub fn title_text(html: &str) -> (title: Option<String>)
    ensures
        text_of(title) == cleaned_option(first_inner_html(html@, "title"@)),
{
    clean_option(select_first_inner(html, "title"))
}

/// What the page `html` says of itself.
pub open spec fn page_tags(html: Seq<char>) -> TagsView {
    TagsView {
        og_title: cleaned_option(
            first_attr_value(html, "meta[property='og:title']"@, "content"@),
        ),
        twitter_title: cleaned_option(
            first_attr_value(html, "meta[name='twitter:title']"@, "content"@),
        ),
        title: cleaned_option(first_inner_html(html, "title"@)),
        og_site_name: cleaned_option(
            first_attr_value(html, "meta[property='og:site_name']"@, "content"@),
        ),
        og_image: cleaned_option(
            first_attr_value(html, "meta[property='og:image']"@, "content"@),
        ),
        twitter_image: cleaned_option(
            first_attr_value(html, "meta[name='twitter:image']"@, "content"@),
        ),
    }
}

/// Reads what the page says of itself.
pub fn read_page_tags(html: &str) -> (tags: PageTags)
    ensures
        tags@ == page_tags(html@),
{
    PageTags {
        og_title: meta_content(html, "meta[property='og:title']"),
        twitter_title: meta_content(html, "meta[name='twitter:title']"),
        title: title_text(html),
        og_site_name: meta_content(html, "meta[property='og:site_name']"),
        og_image: meta_content(html, "meta[property='og:image']"),
        twitter_image: meta_content(html, "meta[name='twitter:image']"),
    }
}

/// The first of two texts that is there.
pub open spec fn first_of(a: Option<Seq<char>>, b: Option<Seq<char>>) -> Option<Seq<char>> {
    if a is Some {
        a
    } else {
        b
    }
}

/// The title of a preview: the page's `og:title`, else its
/// `twitter:title`, else its `title` element, else the host of its
/// address, else "Link".
pub open spec fn title_from(tags: TagsView, host: Option<Seq<char>>) -> Seq<char> {
    match first_of(first_of(first_of(tags.og_title, tags.twitter_title), tags.title), host) {
        Some(title) => title,
        None => "Link"@,
    }
}

/// The site name of a preview: the page's `og:site_name`, else the host of
/// its address.
pub open spec fn site_name_from(tags: TagsView, host: Option<Seq<char>>) -> Option<Seq<char>> {
    first_of(tags.og_site_name, host)
}

/// The image a page offers for its preview: its `og:image`, else its
/// `twitter:image`.
pub open spec fn image_from(tags: TagsView) -> Option<Seq<char>> {
    first_of(tags.og_image, tags.twitter_image)
}

/// The first of two texts that is there.
fn first_text(a: Option<String>, b: Option<String>) -> (out: Option<String>)
    ensures
        text_of(out) == first_of(text_of(a), text_of(b)),
{
    match a {
        Some(text) => Some(text),
        None => b,
    }
}

/// The address to fetch for a preview, given what the pasted text parses
/// to. No preview is made for an invalid board identifier, for a text that
/// is no address, for a scheme other than `http` and `https`, and for a
/// host in the local network.
pub open spec fn fetch_target(board_id: Seq<char>, parsed: Option<UrlView>) -> Result<
    Seq<char>,
    FetchError,
> {
    if !valid_board_id(board_id) {
        Err(FetchError::InvalidIdentifier)
    } else {
        match parsed {
            None => Err(FetchError::InvalidUrl),
            Some(url) => if !is_web_scheme(url.scheme) {
                Err(FetchError::UnsupportedScheme)
            } else if !is_safe_host(url.host) {
                Err(FetchError::BlockedHost)
            } else {
                Ok(url.href)
            },
        }
    }
}

/// A result with its text taken by its view.
pub open spec fn target_view(result: Result<String, FetchError>) -> Result<Seq<char>, FetchError> {
    match result {
        Ok(text) => Ok(text@),
        Err(e) => Err(e),
    }
}

/// Decides whether a parsed address may be fetched for a preview, and
/// returns the address to fetch.
pub fn check_target(board_id: &str, parsed: Option<ParsedUrl>) -> (target: Result<
    String,
    FetchError,
>)
    ensures
        target_view(target) == fetch_target(
            board_id@,
            match parsed {
                Some(url) => Some(url@),
                None => None,
            },
        ),
{
    if !is_valid_board_id(board_id) {
        return Err(FetchError::InvalidIdentifier);
    }
    match parsed {
        None => Err(FetchError::InvalidUrl),
        Some(url) => {
            if !has_web_scheme(&url) {
                Err(FetchError::UnsupportedScheme)
            } else if !is_safe_url(&url) {
                Err(FetchError::BlockedHost)
            } else {
                Ok(url.href)
            }
        },
    }
}

/// The first step of a preview: checks the board identifier and the pasted
/// address, and returns the address to fetch.
pub fn begin_fetch(board_id: &str, url: &str) -> (target: Result<String, FetchError>)
    ensures
        target_view(target) == fetch_target(board_id@, parsed_url(url@)),
{
    if !is_valid_board_id(board_id) {
        return Err(FetchError::InvalidIdentifier);
    }
    check_target(board_id, parse_url(url))
}

/// What is known after the page was read.
#[derive(Debug, Clone, PartialEq, Eq)]
pub struct PagePlan {
    /// The preview, still without image.
    pub meta: LinkMetadata,
    /// The image that the page offers, as the page wrote it.
    pub image_ref: Option<String>,
}

/// The preview of a page found at `found`, and the image it offers. No
/// preview is made where the address the page was found at does not parse
/// or leads to the local network.
pub open spec fn page_outcome(found: Option<UrlView>, tags: TagsView) -> Result<
    (MetadataView, Option<Seq<char>>),
    FetchError,
> {
    match found {
        None => Err(FetchError::InvalidUrl),
        Some(url) => if !is_safe_host(url.host) {
            Err(FetchError::BlockedHost)
        } else {
            Ok(
                (
                    MetadataView {
                        url: url.href,
                        title: title_from(tags, url.host_text),
                        image: None,
                        site_name: site_name_from(tags, url.host_text),
                    },
                    image_from(tags),
                ),
            )
        },
    }
}

/// A page result taken by its views.
pub open spec fn plan_view(result: Result<PagePlan, FetchError>) -> Result<
    (MetadataView, Option<Seq<char>>),
    FetchError,
> {
    match result {
        Ok(plan) => Ok((plan.meta@, text_of(plan.image_ref))),
        Err(e) => Err(e),
    }
}

/// Makes the preview of a page from the address it was found at and from
/// what it says of itself.
pub fn describe_page(found: Option<ParsedUrl>, tags: PageTags) -> (plan: Result<
    PagePlan,
    FetchError,
>)
    ensures
        plan_view(plan) == page_outcome(
            match found {
                Some(url) => Some(url@),
                None => None,
            },
            tags@,
        ),
{
    match found {
        None => Err(FetchError::InvalidUrl),
        Some(url) => {
            if !is_safe_url(&url) {
                return Err(FetchError::BlockedHost);
            }
            let host_for_title = match &url.host_text {
                Some(host) => Some(host.clone()),
                None => None,
            };
            let title = match first_text(
                first_text(first_text(tags.og_title, tags.twitter_title), tags.title),
                host_for_title,
            ) {
                Some(title) => title,
                None => "Link".to_string(),
            };
            let site_name = first_text(tags.og_site_name, url.host_text);
            let image_ref = first_text(tags.og_image, tags.twitter_image);
            Ok(PagePlan { meta: LinkMetadata { url: url.href, title, image: None, site_name }, image_ref })
        },
    }
}

/// The second step of a preview: reads the fetched page. `final_url` is the
/// address the page was found at after redirects, `body` its text.
pub fn page_fetched(final_url: &str, body: &str) -> (plan: Result<PagePlan, FetchError>)
    ensures
        plan_view(plan) == page_outcome(parsed_url(final_url@), page_tags(body@)),
{
    describe_page(parse_url(final_url), read_page_tags(body))
}

/// The address to fetch an image from, given what the page's reference to
/// it resolves to: the resolved address where there is one outside the
/// local network, else none.
pub open spec fn image_target(resolved: Option<UrlView>) -> Option<Seq<char>> {
    match resolved {
        Some(url) if is_safe_host(url.host) => Some(url.href),
        _ => None,
    }
}

/// Decides whether a resolved image address may be fetched.
pub fn check_image_target(resolved: Option<ParsedUrl>) -> (target: Option<String>)
    ensures
        text_of(target) == image_target(
            match resolved {
                Some(url) => Some(url@),
                None => None,
            },
        ),
{
    match resolved {
        Some(url) => if is_safe_url(&url) {
            Some(url.href)
        } else {
            None
        },
        None => None,
    }
}

/// The address to fetch the preview image from, where the page offers one
/// that may be fetched: its reference is resolved against the address of
/// the page and has to pass the safety check.
pub fn image_to_fetch(plan: &PagePlan) -> (target: Option<String>)
    ensures
        text_of(target) == match text_of(plan.image_ref) {
            Some(reference) => image_target(joined_url(plan.meta@.url, reference)),
            None => None,
        },
{
    match &plan.image_ref {
        Some(reference) => check_image_target(
            join_url(plan.meta.url.as_str(), reference.as_str()),
        ),
        None => None,
    }
}

/// The extension under which a fetched image is kept: none unless the
/// status is a success, the content type begins with `image/` and the
/// body is at most five mebibytes long; then the extension that goes with
/// the content type, or `.img` where none does.
pub open spec fn image_extension(status: u16, content_type: Seq<char>, size: nat) -> Option<
    Seq<char>,
> {
    if 200 <= status < 300 && starts_with(content_type, "image/"@) && size <= MAX_IMAGE_BYTES {
        match extension_for(content_type) {
            Some(ext) => Some(ext),
            None => Some(".img"@),
        }
    } else {
        None
    }
}

/// Whether a status code reports success.
pub fn is_success_status(status: u16) -> (ok: bool)
    ensures
        ok == (200 <= status < 300),
{
    200 <= status && status < 300
}

/// The third step of a preview: judges the fetched image by its status,
/// its content type and the length of its body, and returns the extension
/// to keep it under, or `None` where it is dropped.
pub fn image_fetched(status: u16, content_type: &str, size: usize) -> (ext: Option<&'static str>)
    ensures
        match ext {
            Some(e) => image_extension(status, content_type@, size as nat) == Some(e@),
            None => image_extension(status, content_type@, size as nat) is None,
        },
{
    if !is_success_status(status) || size > MAX_IMAGE_BYTES {
        return None;
    }
    let chars = to_chars(content_type);
    if !begins_with(&chars, "image/") {
        return None;
    }
    match ext_from_content_type(content_type) {
        Some(ext) => Some(ext),
        None => Some(".img"),
    }
}

/// Whether `v` begins with `prefix`.
fn begins_with(v: &Vec<char>, prefix: &str) -> (found: bool)
    ensures
        found == starts_with(v@, prefix@),
{
    let p = to_chars(prefix);
    if p.len() > v.len() {
        return false;
    }
    let mut i: usize = 0;
    while i < p.len()
        invariant
            i <= p.len() <= v.len(),
            p@ == prefix@,
            v@.take(i as int) == p@.take(i as int),
        decreases p.len() - i,
    {
        if v[i] != p[i] {
            assert(v@.take(p.len() as int)[i as int] != p@[i as int]);
            return false;
        }
        assert(v@.take(i + 1) == v@.take(i as int).push(v@[i as int]));
        assert(p@.take(i + 1) == p@.take(i as int).push(p@[i as int]));
        i += 1;
    }
    assert(p@.take(p.len() as int) == p@);
    true
}

/// The last step of a preview: the preview with the path of its saved
/// image, or without image where none was saved.
pub fn finish_fetch(meta: LinkMetadata, saved: Option<String>) -> (done: LinkMetadata)
    ensures
        done@ == (MetadataView {
            url: meta@.url,
            title: meta@.title,
            image: text_of(saved),
            site_name: meta@.site_name,
        }),
{
    LinkMetadata { url: meta.url, title: meta.title, image: saved, site_name: meta.site_name }
}

/// The address to hand to the system's browser, given what the text
/// parses to: the address in its normal form. Nothing is opened for a text
/// that is no address, and for a scheme other than `http` and `https`.
pub open spec fn external_target(parsed: Option<UrlView>) -> Result<Seq<char>, FetchError> {
    match parsed {
        None => Err(FetchError::InvalidUrl),
        Some(url) => if is_web_scheme(url.scheme) {
            Ok(url.href)
        } else {
            Err(FetchError::UnsupportedScheme)
        },
    }
}

/// Decides whether a parsed address may be opened in the browser.
pub fn check_external_url(parsed: Option<ParsedUrl>) -> (target: Result<String, FetchError>)
    ensures
        target_view(target) == external_target(
            match parsed {
                Some(url) => Some(url@),
                None => None,
            },
        ),
{
    match parsed {
        None => Err(FetchError::InvalidUrl),
        Some(url) => if has_web_scheme(&url) {
            Ok(url.href)
        } else {
            Err(FetchError::UnsupportedScheme)
        },
    }
}

/// The address to open in the system's browser for `url`.
pub fn open_external_url(url: &str) -> (target: Result<String, FetchError>)
    ensures
        target_view(target) == external_target(parsed_url(url@)),
{
    check_external_url(parse_url(url))
}

} // verus!
