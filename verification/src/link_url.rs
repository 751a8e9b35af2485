//! URLs as plain values.
use crate::path::{copy_opt_text, opt_text};
use vstd::prelude::*;
use vstd::string::*;

verus! {

/// The parts of a URL.
#[derive(Debug)]
pub struct UrlParts {
    /// The whole URL in its normal form.
    pub text: String,
    pub scheme: String,
    pub username: String,
    pub password: Option<String>,
    pub host: Option<String>,
    /// The port, unless it is the scheme's own.
    pub port: Option<u16>,
    pub path: String,
    pub query: Option<String>,
    pub fragment: Option<String>,
}

/// The parts of a URL as mathematics.
#[verifier::ext_equal]
pub struct UrlView {
    pub text: Seq<char>,
    pub scheme: Seq<char>,
    pub username: Seq<char>,
    pub password: Option<Seq<char>>,
    pub host: Option<Seq<char>>,
    pub port: Option<u16>,
    pub path: Seq<char>,
    pub query: Option<Seq<char>>,
    pub fragment: Option<Seq<char>>,
}

impl View for UrlParts {
    type V = UrlView;

    open spec fn view(&self) -> UrlView {
        UrlView {
            text: self.text@,
            scheme: self.scheme@,
            username: self.username@,
            password: opt_text(self.password),
            host: opt_text(self.host),
            port: self.port,
            path: self.path@,
            query: opt_text(self.query),
            fragment: opt_text(self.fragment),
        }
    }
}

/// The view of optional parts.
pub open spec fn opt_url(parts: Option<UrlParts>) -> Option<UrlView> {
    match parts {
        Some(parts) => Some(parts@),
        None => None,
    }
}

/// The parts of the URL that a text is; `None` when it is none.
pub uninterp spec fn url_of(text: Seq<char>) -> Option<UrlView>;

/// `url::Url::parse` and the accessors of `url::Url`: what a text means as a URL
/// follows from the text alone.
#[verifier::external_body]
pub(crate) fn parse_url(text: &str) -> (parts: Option<UrlParts>)
    ensures
        opt_url(parts) == url_of(text@),
{
    let url = url::Url::parse(text).ok()?;
    Some(UrlParts {
        text: url.as_str().to_owned(),
        scheme: url.scheme().to_owned(),
        username: url.username().to_owned(),
        password: url.password().map(str::to_owned),
        host: url.host_str().map(str::to_owned),
        port: url.port(),
        path: url.path().to_owned(),
        query: url.query().map(str::to_owned),
        fragment: url.fragment().map(str::to_owned),
    })
}

impl UrlParts {
    /// The parts of the URL that a text is; `None` when it is none.
    pub fn parse(text: &str) -> (r: Option<Self>)
        ensures
            opt_url(r) == url_of(text@),
    {
        parse_url(text)
    }
}

impl Clone for UrlParts {
    fn clone(&self) -> (r: Self)
        ensures
            r@ == self@,
    {
        UrlParts {
            text: self.text.clone(),
            scheme: self.scheme.clone(),
            username: self.username.clone(),
            password: copy_opt_text(&self.password),
            host: copy_opt_text(&self.host),
            port: self.port,
            path: self.path.clone(),
            query: copy_opt_text(&self.query),
            fragment: copy_opt_text(&self.fragment),
        }
    }
}

} // verus!
