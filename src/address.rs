//! Absolute URLs and the resolution of references against a base.
//!
//! Parsing and resolution are done by the `url` crate. A [`Url`] keeps the
//! parsed value together with its serialization and its path, which is what
//! the rest of the library reads.

use crate::error::Error;
use url::ParseError as UrlParseError;
use url::Url as ParsedUrl;
use vstd::prelude::*;

verus! {

#[verifier::external_type_specification]
#[verifier::external_body]
pub struct ExUrl(ParsedUrl);

#[verifier::external_type_specification]
#[verifier::external_body]
pub struct ExParseError(UrlParseError);

/// The serialization of the URL that `url::Url::parse` reads from `input`,
/// or `None` where it fails.
pub uninterp spec fn parsed_url(input: Seq<char>) -> Option<Seq<char>>;

/// The serialization of the URL that `url::Url::join` gives for `reference`
/// against the URL serialized as `base`, or `None` where it fails.
pub uninterp spec fn joined_url(base: Seq<char>, reference: Seq<char>) -> Option<Seq<char>>;

/// The path component (`url::Url::path`) of the URL serialized as `text`.
pub uninterp spec fn url_path(text: Seq<char>) -> Seq<char>;

/// Relies on `url::Url::parse`: the parsed URL, its serialization and its
/// path, or the parse error.
#[verifier::external_body]
fn parse_with_url_crate(input: &str) -> (r: Result<(ParsedUrl, String, String), UrlParseError>)
    ensures
        match r {
            Ok(parts) => parsed_url(input@) == Some(parts.1@) && parts.2@ == url_path(parts.1@),
            Err(_) => parsed_url(input@) is None,
        },
{
    ParsedUrl::parse(input).map(|u| {
        let text = u.as_str().to_string();
        let path = u.path().to_string();
        (u, text, path)
    })
}

/// Relies on `url::Url::join`: the URL that `reference` denotes against
/// `base`, with its serialization and its path, or the parse error.
#[verifier::external_body]
fn join_with_url_crate(base: &Url, reference: &str) -> (r: Result<(ParsedUrl, String, String), UrlParseError>)
    ensures
        match r {
            Ok(parts) => joined_url(base@, reference@) == Some(parts.1@) && parts.2@ == url_path(parts.1@),
            Err(_) => joined_url(base@, reference@) is None,
        },
{
    base.parsed.join(reference).map(|u| {
        let text = u.as_str().to_string();
        let path = u.path().to_string();
        (u, text, path)
    })
}

/// An absolute URL, as the `url` crate parses and serializes it.
///
/// A value is only made from what `url` returns: its serialization and path
/// are those of the parsed URL it holds. Its view is its serialization. Two values are the same URL exactly when
/// their serializations are equal.
#[derive(Debug, PartialEq, Eq)]
pub struct Url {
    parsed: ParsedUrl,
    text: String,
    path: String,
}

impl View for Url {
    type V = Seq<char>;

    closed spec fn view(&self) -> Seq<char> {
        self.text@
    }
}

impl Url {
    #[verifier::type_invariant]
    spec fn inv(&self) -> bool {
        self.path@ == url_path(self.text@)
    }

    /// Parse an absolute URL.
    ///
    /// Fails with [`Error::ParseError`] exactly where the `url` crate
    /// refuses the input.
    pub fn parse(input: &str) -> (r: Result<Url, Error>)
        ensures
            match r {
                Ok(u) => parsed_url(input@) == Some(u@),
                Err(e) => parsed_url(input@) is None && e is ParseError,
            },
    {
        match parse_with_url_crate(input) {
            Ok((parsed, text, path)) => Ok(Url { parsed, text, path }),
            Err(e) => Err(Error::ParseError(e.to_string())),
        }
    }

    /// Resolve `reference` against this URL, following the usual rules for
    /// relative references. An absolute reference ignores the base.
    pub fn join(&self, reference: &str) -> (r: Result<Url, Error>)
        ensures
            match r {
                Ok(u) => joined_url(self@, reference@) == Some(u@),
                Err(e) => joined_url(self@, reference@) is None && e is ParseError,
            },
    {
        match join_with_url_crate(self, reference) {
            Ok((parsed, text, path)) => Ok(Url { parsed, text, path }),
            Err(e) => Err(Error::ParseError(e.to_string())),
        }
    }

    /// The serialization of the URL.
    pub fn as_str(&self) -> (r: &str)
        ensures
            r@ == self@,
    {
        self.text.as_str()
    }

    /// The path component of the URL.
    pub fn path(&self) -> (r: &str)
        ensures
            r@ == url_path(self@),
    {
        proof {
            use_type_invariant(self);
        }
        self.path.as_str()
    }
}

} // verus!
