//! Declarations of the outside types the library carries, and the trusted
//! items through which it calls outside functions. Each contract here is
//! believed by Verus, not proved.

use vstd::prelude::*;

verus! {

/// A JSON value (`serde_json::Value`), carried unread.
#[verifier::external_type_specification]
#[verifier::external_body]
pub struct ExJsonValue(serde_json::Value);

/// An HTTP transport error (`reqwest::Error`), carried unread.
#[verifier::external_type_specification]
#[verifier::external_body]
pub struct ExRequestError(reqwest::Error);

/// A header that is not visible ASCII (`reqwest::header::ToStrError`), carried unread.
#[verifier::external_type_specification]
#[verifier::external_body]
pub struct ExHeaderTextError(reqwest::header::ToStrError);

/// A JSON decoding error (`serde_json::Error`), carried unread.
#[verifier::external_type_specification]
#[verifier::external_body]
pub struct ExJsonError(serde_json::Error);

/// A URL parse error (`url::ParseError`), carried unread.
#[verifier::external_type_specification]
#[verifier::external_body]
pub struct ExUrlParseError(url::ParseError);

/// A file system path (`std::path::PathBuf`), carried unread.
#[verifier::external_type_specification]
#[verifier::external_body]
pub struct ExPathBuf(std::path::PathBuf);

/// `serde_json::Value::clone` (derived): the copy is the same JSON value.
pub assume_specification[ <serde_json::Value as Clone>::clone ](v: &serde_json::Value) -> (r: serde_json::Value)
    ensures
        r == *v,
;

/// `PathBuf::clone`: the copy is the same path.
pub assume_specification[ <std::path::PathBuf as Clone>::clone ](p: &std::path::PathBuf) -> (r: std::path::PathBuf)
    ensures
        r == *p,
;

/// What `str::to_lowercase` gives for a text: Unicode's lowercase mapping,
/// character by character except for a final capital sigma, which depends on
/// the characters around it.
pub uninterp spec fn lowercase(s: Seq<char>) -> Seq<char>;

/// What `str::to_uppercase` gives for a text: Unicode's uppercase mapping of
/// each of its characters, some of which become several.
pub uninterp spec fn uppercase(s: Seq<char>) -> Seq<char>;

/// Whether `url::Url::parse` accepts a text as an absolute URL.
pub uninterp spec fn parses_as_url(s: Seq<char>) -> bool;

/// The text of the URL that `url::Url::parse_with_params` builds from a base
/// text and query pairs, for a base that parses.
pub uninterp spec fn url_with_query(base: Seq<char>, params: Seq<(Seq<char>, Seq<char>)>) -> Seq<char>;

/// Calls `str::to_lowercase`; its result is named `lowercase`. The mapping
/// is made of the characters of `s`, so an empty text stays empty.
#[verifier::external_body]
pub(crate) fn to_lowercase(s: &str) -> (r: String)
    ensures
        r@ == lowercase(s@),
        s@.len() == 0 ==> r@.len() == 0,
{
    s.to_lowercase()
}

/// Calls `str::to_uppercase`; its result is named `uppercase`. The mapping
/// is made of the characters of `s`, so an empty text stays empty.
#[verifier::external_body]
pub(crate) fn to_uppercase(s: &str) -> (r: String)
    ensures
        r@ == uppercase(s@),
        s@.len() == 0 ==> r@.len() == 0,
{
    s.to_uppercase()
}

/// Calls `url::Url::parse` and keeps only whether it succeeded, which is
/// named `parses_as_url`. The parsed URL and the kind of error are not
/// described.
#[verifier::external_body]
pub(crate) fn parse_url(s: &str) -> (r: Result<(), url::ParseError>)
    ensures
        r is Ok <==> parses_as_url(s@),
{
    url::Url::parse(s).map(|_| ())
}

/// Calls `url::Url::parse_with_params` and returns the URL's text. Its
/// source parses the base exactly as `Url::parse` does and only then appends
/// the pairs, so it fails exactly when `parses_as_url` is false; the text it
/// builds is named `url_with_query`. The kind of error is not described.
#[verifier::external_body]
pub(crate) fn parse_url_with_params(s: &str, params: &Vec<(String, String)>) -> (r: Result<String, url::ParseError>)
    ensures
        r is Ok <==> parses_as_url(s@),
        r matches Ok(u) ==> u@ == url_with_query(s@, params.deep_view()),
{
    url::Url::parse_with_params(s, params.iter()).map(String::from)
}

} // verus!
