//! The `u=` field: its value must be a URL, which the `url` crate reads.

use crate::error::{Error, ErrorView};
use crate::text::string_of;
use vstd::prelude::*;

verus! {

#[verifier::external_type_specification]
#[verifier::external_body]
pub struct ExUrlParseError(url::ParseError);

/// What `url::Url::parse` makes of a text: the serialization of the URL, or
/// nothing when the text is not an absolute URL.
pub uninterp spec fn url_serialization(s: Seq<char>) -> Option<Seq<char>>;

/// Relies on `url::Url::parse` (no base URL, so the outcome depends on the
/// text alone) and on `String::from(Url)`, which hands back the serialization.
#[verifier::external_body]
fn parse_url(s: &str) -> (r: Result<String, url::ParseError>)
    ensures
        match url_serialization(s@) {
            Some(u) => r matches Ok(t) && t@ == u,
            None => r is Err,
        },
{
    match url::Url::parse(s) {
        Ok(u) => Ok(String::from(u)),
        Err(e) => Err(e),
    }
}

/// The `u=` value as stored: the URL's serialization.
pub open spec fn uri_spec(v: Seq<char>) -> Result<Seq<char>, ErrorView> {
    match url_serialization(v) {
        Some(u) => Ok(u),
        None => Err(ErrorView::Url(v)),
    }
}

/// Reads a `u=` value.
pub fn unmarshal_uri(value: &Vec<char>) -> (r: Result<String, Error>)
    ensures
        match uri_spec(value@) {
            Ok(u) => r matches Ok(t) && t@ == u,
            Err(e) => r matches Err(x) && x@ == e,
        },
{
    let s = string_of(value);
    match parse_url(s.as_str()) {
        Ok(t) => Ok(t),
        Err(_) => Err(Error::Url(s)),
    }
}

} // verus!
