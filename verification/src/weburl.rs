//! Absolute URLs, as the `url` crate parses and resolves them.
//!
//! A [`WebUrl`] keeps the parsed `url::Url` together with the plain parts of
//! it that the playlist logic reads: its serialization, scheme, host and path.

use url::Url;
use crate::text::opt_string_view;
use vstd::prelude::*;

verus! {

#[verifier::external_type_specification]
#[verifier::external_body]
pub struct ExUrl(Url);

/// The parts of a parsed URL that the library reads.
pub ghost struct UrlView {
    /// The serialization (`Url::as_str`, also what `to_string` gives).
    pub text: Seq<char>,
    /// The scheme, without the `:` delimiter.
    pub scheme: Seq<char>,
    /// The host, when the URL has one.
    pub host: Option<Seq<char>>,
    /// The percent-encoded path.
    pub path: Seq<char>,
}

/// What `Url::parse` makes of `input`: `None` where it reports an error.
pub uninterp spec fn url_parse(input: Seq<char>) -> Option<UrlView>;

/// What `Url::join` makes of `input` resolved against the URL `base`:
/// `None` where it reports an error.
pub uninterp spec fn url_join(base: UrlView, input: Seq<char>) -> Option<UrlView>;

/// A URL parsed by the `url` crate, with the parts that the library reads.
pub struct WebUrl {
    url: Url,
    text: String,
    scheme: String,
    host: Option<String>,
    path: String,
}

impl View for WebUrl {
    type V = UrlView;

    closed spec fn view(&self) -> UrlView {
        UrlView {
            text: self.text@,
            scheme: self.scheme@,
            host: opt_string_view(self.host),
            path: self.path@,
        }
    }
}

pub open spec fn opt_url_view(o: Option<WebUrl>) -> Option<UrlView> {
    match o {
        Some(u) => Some(u@),
        None => None,
    }
}

/// `Url::parse(input)`, with its error mapped to `None`.
///
/// Trusted: the result is exactly `url_parse(input)`, the name for what
/// `Url::parse` returns; the parts are read with `as_str`, `scheme`,
/// `host_str` and `path` of the parsed value.
#[verifier::external_body]
pub fn parse_url(input: &str) -> (r: Option<WebUrl>)
    ensures
        opt_url_view(r) == url_parse(input@),
{
    Url::parse(input).ok().map(|u| WebUrl {
        text: u.as_str().to_string(),
        scheme: u.scheme().to_string(),
        host: u.host_str().map(|h| h.to_string()),
        path: u.path().to_string(),
        url: u,
    })
}

/// `Url::join(base, input)`, with its error mapped to `None`.
///
/// Trusted: the result is exactly `url_join(base, input)`, the name for what
/// `Url::join` returns. It depends on `base` through its serialization alone,
/// since a `Url` is its serialization (`Url`'s own equality compares nothing else).
#[verifier::external_body]
pub fn join_url(base: &WebUrl, input: &str) -> (r: Option<WebUrl>)
    ensures
        opt_url_view(r) == url_join(base@, input@),
{
    base.url.join(input).ok().map(|u| WebUrl {
        text: u.as_str().to_string(),
        scheme: u.scheme().to_string(),
        host: u.host_str().map(|h| h.to_string()),
        path: u.path().to_string(),
        url: u,
    })
}

impl WebUrl {
    /// The serialization of the URL.
    pub fn as_str(&self) -> (r: &str)
        ensures
            r@ == self@.text,
    {
        self.text.as_str()
    }

    /// The scheme of the URL.
    pub fn scheme(&self) -> (r: &str)
        ensures
            r@ == self@.scheme,
    {
        self.scheme.as_str()
    }

    /// Whether the URL has a host.
    pub fn has_host(&self) -> (r: bool)
        ensures
            r == (self@.host is Some),
    {
        self.host.is_some()
    }

    /// The percent-encoded path of the URL.
    pub fn path(&self) -> (r: &str)
        ensures
            r@ == self@.path,
    {
        self.path.as_str()
    }
}

} // verus!
