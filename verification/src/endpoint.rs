//! Client endpoints.
use crate::error::Error;
use crate::text::{begins_with, chars_of, strip, strip_prefix, text_of};
use vstd::prelude::*;

verus! {

/// Client endpoint.
///
/// Encodes whether the client should connect via HTTP/TCP endpoint
/// (including secure HTTPS) or a Unix domain socket.
#[derive(Debug, PartialEq, Eq, Clone)]
pub enum Endpoint {
    /// Direct HTTP(S) URL.
    Http(String),
    /// Unix domain socket.
    /// The second argument encodes optional path.
    Unix(String, Option<String>),
}

/// An endpoint as a mathematical value.
pub enum EndpointView {
    Http(Seq<char>),
    Unix(Seq<char>, Option<Seq<char>>),
}

impl View for Endpoint {
    type V = EndpointView;

    open spec fn view(&self) -> EndpointView {
        match self {
            Endpoint::Http(url) => EndpointView::Http(url@),
            Endpoint::Unix(socket, path) => EndpointView::Unix(
                socket@,
                match path {
                    Some(p) => Some(p@),
                    None => None,
                },
            ),
        }
    }
}

/// The endpoint that `s` names: `s` itself where it is an HTTP or HTTPS URL,
/// the socket path behind `unix://`, and nothing else.
pub open spec fn endpoint(s: Seq<char>) -> Result<EndpointView, Error> {
    if begins_with(s, "http://"@) || begins_with(s, "https://"@) {
        Ok(EndpointView::Http(s))
    } else if let Some(path) = strip(s, "unix://"@) {
        Ok(EndpointView::Unix(path, None))
    } else {
        Err(Error::UnsupportedScheme)
    }
}

impl Endpoint {
    /// Reads the endpoint that `s` names.
    pub fn from_str(s: &str) -> (res: Result<Endpoint, Error>)
        ensures
            match res {
                Ok(e) => endpoint(s@) == Ok::<EndpointView, Error>(e@),
                Err(e) => endpoint(s@) == Err::<EndpointView, Error>(e),
            },
    {
        let chars = chars_of(s);
        if strip_prefix(&chars, "http://").is_some() || strip_prefix(&chars, "https://").is_some() {
            Ok(Endpoint::Http(String::from_str(s)))
        } else if let Some(n) = strip_prefix(&chars, "unix://") {
            Ok(Endpoint::Unix(text_of(&chars, n, chars.len()), None))
        } else {
            Err(Error::UnsupportedScheme)
        }
    }
}

impl std::str::FromStr for Endpoint {
    type Err = Error;

    /// Reads the endpoint that `s` names, as [`Endpoint::from_str`] does.
    fn from_str(s: &str) -> (res: Result<Endpoint, Error>)
        ensures
            match res {
                Ok(e) => endpoint(s@) == Ok::<EndpointView, Error>(e@),
                Err(e) => endpoint(s@) == Err::<EndpointView, Error>(e),
            },
    {
        Endpoint::from_str(s)
    }
}

} // verus!
