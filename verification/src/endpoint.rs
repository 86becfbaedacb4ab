//! The URLs of a server's write endpoint and of the buckets behind it.

use url::{ParseError, Url};
use vstd::prelude::*;
use crate::error::Error;

verus! {

/// The text of the URL that `reference` resolves to against the URL that
/// `base` parses to; `None` where `base` is not an absolute URL or the
/// reference cannot be resolved against it.
pub uninterp spec fn joined_url(base: Seq<char>, reference: Seq<char>) -> Option<Seq<char>>;

/// `Url::parse` on `base`, then `Url::join` on the result with `reference`,
/// then the URL as a `String`. Both calls depend on their arguments alone, so
/// the outcome has a name; which error comes where there is none is not
/// claimed.
#[verifier::external_body]
fn join_url(base: &str, reference: &str) -> (r: Result<String, ParseError>)
    ensures
        match r {
            Ok(text) => joined_url(base@, reference@) == Some(text@),
            Err(_) => joined_url(base@, reference@) is None,
        },
{
    Url::parse(base)?.join(reference).map(String::from)
}

/// Maps what the URL parser made of a text: the URL's text where there is
/// one, the parser's error as this library's error.
pub fn url_or_error(joined: Result<String, ParseError>) -> (r: Result<String, Error>)
    ensures
        match joined {
            Ok(text) => r == Ok::<String, Error>(text),
            Err(e) => r == Err::<String, Error>(Error::URLParseError(e)),
        },
{
    match joined {
        Ok(text) => Ok(text),
        Err(e) => Err(Error::URLParseError(e)),
    }
}

/// The URL of the write endpoint of the server at `url`: the path
/// `/api/v2/write` resolved against `url`, which replaces the path and the
/// query that `url` has.
pub fn make_write_endpoint_url(url: &str) -> (r: Result<String, Error>)
    ensures
        match r {
            Ok(text) => joined_url(url@, "/api/v2/write"@) == Some(text@),
            Err(e) => e is URLParseError && joined_url(url@, "/api/v2/write"@) is None,
        },
{
    url_or_error(join_url(url, "/api/v2/write"))
}

/// The most characters that a URL, an organisation or a bucket may have
/// where a bucket's URL is made. The URL parser keeps 32-bit offsets into a
/// URL's text and gives up with a panic where the text outgrows them. A
/// character widens to at most twelve bytes when it is encoded, and five
/// texts go into the URL, so five times twelve times this limit stays below
/// the 4,294,967,295 bytes that the offsets reach.
pub const MAX_URL_PART: usize = 0x0400_0000;

/// The text of the URL that `url` parses to, with the pairs `first_name` =
/// `first_value` and `second_name` = `second_value` appended to its query in
/// that order, form-encoded; `None` where `url` is not an absolute URL.
pub uninterp spec fn url_with_query_pairs(
    url: Seq<char>,
    first_name: Seq<char>,
    first_value: Seq<char>,
    second_name: Seq<char>,
    second_value: Seq<char>,
) -> Option<Seq<char>>;

/// `Url::parse` on `url`, then `Url::query_pairs_mut` and, on the serializer
/// that it hands out, `append_pair` with the first pair and with the second,
/// then the URL as a `String`. The calls depend on their arguments alone, so
/// the outcome has a name; which error comes where there is none is not
/// claimed. The limit on the lengths keeps the URL's text within the 32-bit
/// offsets beyond which the serializer panics.
#[verifier::external_body]
fn append_query_pairs(url: &str, first: (&str, &str), second: (&str, &str)) -> (r: Result<
    String,
    ParseError,
>)
    requires
        url@.len() <= MAX_URL_PART,
        first.0@.len() <= MAX_URL_PART,
        first.1@.len() <= MAX_URL_PART,
        second.0@.len() <= MAX_URL_PART,
        second.1@.len() <= MAX_URL_PART,
    ensures
        match r {
            Ok(text) => url_with_query_pairs(url@, first.0@, first.1@, second.0@, second.1@)
                == Some(text@),
            Err(_) => url_with_query_pairs(url@, first.0@, first.1@, second.0@, second.1@)
                is None,
        },
{
    let mut parsed = Url::parse(url)?;
    parsed.query_pairs_mut().append_pair(first.0, first.1).append_pair(second.0, second.1);
    Ok(String::from(parsed))
}

/// The URL to which the measurements of one bucket are written: the write
/// endpoint with `org` and then `bucket` appended to its query, under the
/// names `org` and `bucket`.
pub fn make_bucket_url(write_endpoint_url: &str, org: &str, bucket: &str) -> (r: Result<
    String,
    Error,
>)
    requires
        write_endpoint_url@.len() <= MAX_URL_PART,
        org@.len() <= MAX_URL_PART,
        bucket@.len() <= MAX_URL_PART,
    ensures
        match r {
            Ok(text) => url_with_query_pairs(
                write_endpoint_url@,
                "org"@,
                org@,
                "bucket"@,
                bucket@,
            ) == Some(text@),
            Err(e) => e is URLParseError && url_with_query_pairs(
                write_endpoint_url@,
                "org"@,
                org@,
                "bucket"@,
                bucket@,
            ) is None,
        },
{
    proof {
        reveal_strlit("org");
        reveal_strlit("bucket");
    }
    url_or_error(append_query_pairs(write_endpoint_url, ("org", org), ("bucket", bucket)))
}

} // verus!
