use outflux::endpoint::{url_or_error, MAX_URL_PART};
use outflux::{make_bucket_url, make_write_endpoint_url, Error};

#[test]
fn write_endpoint_of_a_server() {
    assert_eq!(
        make_write_endpoint_url("http://127.0.0.1:8086").unwrap(),
        "http://127.0.0.1:8086/api/v2/write"
    );
    assert_eq!(
        make_write_endpoint_url("https://example.net/").unwrap(),
        "https://example.net/api/v2/write"
    );
}

#[test]
fn write_endpoint_replaces_path_and_query() {
    assert_eq!(
        make_write_endpoint_url("http://example.net/a/b?c=d#e").unwrap(),
        "http://example.net/api/v2/write"
    );
}

#[test]
fn text_that_is_no_url_is_refused() {
    assert!(matches!(
        make_write_endpoint_url("not a url"),
        Err(Error::URLParseError(url::ParseError::RelativeUrlWithoutBase))
    ));
    assert!(matches!(
        make_write_endpoint_url(""),
        Err(Error::URLParseError(_))
    ));
}

#[test]
fn url_that_cannot_be_a_base_is_refused() {
    assert!(matches!(
        make_write_endpoint_url("mailto:someone@example.net"),
        Err(Error::URLParseError(_))
    ));
}

#[test]
fn parser_outcome_is_mapped() {
    assert_eq!(
        url_or_error(Ok("http://h/api/v2/write".to_string())).unwrap(),
        "http://h/api/v2/write"
    );
    assert!(matches!(
        url_or_error(Err(url::ParseError::EmptyHost)),
        Err(Error::URLParseError(url::ParseError::EmptyHost))
    ));
}

#[test]
fn bucket_url_names_organisation_and_bucket() {
    assert_eq!(
        make_bucket_url("http://127.0.0.1:8086/api/v2/write", "my-org", "my-bucket").unwrap(),
        "http://127.0.0.1:8086/api/v2/write?org=my-org&bucket=my-bucket"
    );
}

#[test]
fn bucket_url_encodes_its_values() {
    assert_eq!(
        make_bucket_url("http://h/api/v2/write", "my org", "a&b=c").unwrap(),
        "http://h/api/v2/write?org=my+org&bucket=a%26b%3Dc"
    );
    assert_eq!(
        make_bucket_url("http://h/api/v2/write", "é", "").unwrap(),
        "http://h/api/v2/write?org=%C3%A9&bucket="
    );
}

#[test]
fn bucket_url_keeps_query_and_fragment() {
    assert_eq!(
        make_bucket_url("http://h/w?x=1", "o", "b").unwrap(),
        "http://h/w?x=1&org=o&bucket=b"
    );
    assert_eq!(
        make_bucket_url("http://h/w#frag", "o", "b").unwrap(),
        "http://h/w?org=o&bucket=b#frag"
    );
}

#[test]
fn bucket_url_of_no_url_is_refused() {
    assert!(matches!(
        make_bucket_url("/api/v2/write", "o", "b"),
        Err(Error::URLParseError(_))
    ));
}

#[test]
fn bucket_url_of_a_write_endpoint() {
    let endpoint = make_write_endpoint_url("http://localhost:8086/ignored").unwrap();
    assert!(endpoint.chars().count() <= MAX_URL_PART);
    assert_eq!(
        make_bucket_url(&endpoint, "org", "bucket").unwrap(),
        "http://localhost:8086/api/v2/write?org=org&bucket=bucket"
    );
}
