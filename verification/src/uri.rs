//! URIs, taken apart by the `url` crate.

use vstd::prelude::*;

verus! {

/// The parts of a URI.
#[derive(Debug, PartialEq, Eq)]
pub struct Uri {
    pub scheme: String,
    pub username: String,
    pub password: Option<String>,
    pub host: Option<String>,
    pub port: Option<u16>,
    pub path: String,
    pub query: Option<String>,
    pub fragment: Option<String>,
}

pub struct UriView {
    pub scheme: Seq<char>,
    pub username: Seq<char>,
    pub password: Option<Seq<char>>,
    pub host: Option<Seq<char>>,
    pub port: Option<u16>,
    pub path: Seq<char>,
    pub query: Option<Seq<char>>,
    pub fragment: Option<Seq<char>>,
}

impl DeepView for Uri {
    type V = UriView;

    open spec fn deep_view(&self) -> UriView {
        UriView {
            scheme: self.scheme@,
            username: self.username@,
            password: self.password.deep_view(),
            host: self.host.deep_view(),
            port: self.port,
            path: self.path@,
            query: self.query.deep_view(),
            fragment: self.fragment.deep_view(),
        }
    }
}

/// Why a text is no URI.
#[verifier::external_type_specification]
#[verifier::external_body]
pub struct ExParseError(url::ParseError);

/// The parts of the URI that a text is, as `url::Url::parse` reads it, or nothing
/// where it is none.
pub uninterp spec fn uri_of(text: Seq<char>) -> Option<UriView>;

/// `url::Url::parse`, with what the accessors of `url::Url` say of the parts.
#[verifier::external_body]
pub(crate) fn parse_uri(text: &str) -> (uri: Result<Uri, url::ParseError>)
    ensures
        match uri {
            Ok(uri) => uri_of(text@) == Some(uri.deep_view()),
            Err(_) => uri_of(text@) is None,
        },
{
    let url = url::Url::parse(text)?;
    Ok(Uri {
        scheme: url.scheme().to_owned(),
        username: url.username().to_owned(),
        password: url.password().map(str::to_owned),
        host: url.host_str().map(str::to_owned),
        port: url.port(),
        path: url.path().to_owned(),
        query: url.query().map(str::to_owned),
        fragment: url.fragment().map(str::to_owned),
    })
}

} // verus!
