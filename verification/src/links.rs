//! URL handling through the `url` crate. URLs travel through the library as the text
//! that `url::Url` serialises them to.
use vstd::prelude::*;

verus! {

/// The serialisation of `url::Url::parse(s)`, or `None` where `s` does not parse.
pub uninterp spec fn spec_parse_url(s: Seq<char>) -> Option<Seq<char>>;

/// `url::Url::path()` of the URL that `s` parses to, or `None` where `s` does not parse.
pub uninterp spec fn spec_url_path(s: Seq<char>) -> Option<Seq<char>>;

/// `url::Url::parse(s)`, handing back the parsed URL's text (`String::from(Url)`),
/// or `None` on a parse error. The contract ties the result to `spec_parse_url`.
#[verifier::external_body]
pub(crate) fn parse_url(s: &str) -> (r: Option<String>)
    ensures
        r is Some == spec_parse_url(s@) is Some,
        r matches Some(u) ==> spec_parse_url(s@)->0 == u@,
{
    match ::url::Url::parse(s) {
        Ok(u) => Some(String::from(u)),
        Err(_) => None,
    }
}

/// `url::Url::path()` of the URL that `s` parses to (`url::Url::parse`), or `None` on a
/// parse error. The contract ties the result to `spec_url_path`.
#[verifier::external_body]
pub(crate) fn url_path(s: &str) -> (r: Option<String>)
    ensures
        r is Some == spec_url_path(s@) is Some,
        r matches Some(p) ==> spec_url_path(s@)->0 == p@,
{
    match ::url::Url::parse(s) {
        Ok(u) => Some(u.path().to_string()),
        Err(_) => None,
    }
}

} // verus!
