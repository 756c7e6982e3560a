//! Percent-decoding, URL decoding and percent-encoding, which the library
//! takes from `rocket`.

use vstd::prelude::*;

verus! {

/// What URL decoding makes of `raw`: each `+` read as a space and each `%XX`
/// as the byte it writes, or `None` where the bytes that come out are not
/// UTF-8.
pub uninterp spec fn url_decoded(raw: Seq<char>) -> Option<Seq<char>>;

/// What percent-decoding makes of `raw`: each `%XX` read as the byte it
/// writes and every other character, a `+` too, left as it is; or `None`
/// where the bytes that come out are not UTF-8.
pub uninterp spec fn percent_decoded(raw: Seq<char>) -> Option<Seq<char>>;

/// What percent-encoding makes of `raw`.
pub uninterp spec fn percent_encoded(raw: Seq<char>) -> Seq<char>;

/// The characters of an optional text.
pub open spec fn text_of(text: Option<String>) -> Option<Seq<char>> {
    match text {
        Some(t) => Some(t@),
        None => None,
    }
}

/// Calls `rocket::http::RawStr::url_decode`. Nothing is proved of it: the
/// contract only names what it returns, `Some` text where the call gave
/// `Ok` and `None` where it gave its UTF-8 error.
#[verifier::external_body]
pub(crate) fn url_decode(raw: &str) -> (decoded: Option<String>)
    ensures
        text_of(decoded) == url_decoded(raw@),
{
    match rocket::http::RawStr::new(raw).url_decode() {
        Ok(text) => Some(text.into_owned()),
        Err(_) => None,
    }
}

/// Calls `rocket::http::RawStr::percent_decode`. Nothing is proved of it:
/// the contract only names what it returns, `Some` text where the call gave
/// `Ok` and `None` where it gave its UTF-8 error.
#[verifier::external_body]
pub(crate) fn percent_decode(raw: &str) -> (decoded: Option<String>)
    ensures
        text_of(decoded) == percent_decoded(raw@),
{
    match rocket::http::RawStr::new(raw).percent_decode() {
        Ok(text) => Some(text.into_owned()),
        Err(_) => None,
    }
}

/// Calls `rocket::http::RawStr::percent_encode`. Nothing is proved of it:
/// the contract only names what it returns.
#[verifier::external_body]
pub(crate) fn percent_encode(raw: &str) -> (encoded: String)
    ensures
        encoded@ == percent_encoded(raw@),
{
    rocket::http::RawStr::new(raw).percent_encode().as_str().to_owned()
}

} // verus!
