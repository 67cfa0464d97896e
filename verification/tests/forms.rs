use psag_cc::service::{check_url, parse_url_from_form, take_field, with_scheme};
use psag_cc::url_shortener::shorten::ShortenError;

fn pair(name: &str, value: &str) -> (String, String) {
    (String::from(name), String::from(value))
}

#[test]
fn a_url_with_a_scheme_is_taken_as_it_is() {
    assert_eq!(
        parse_url_from_form(b"url=http://example.com/page", None),
        Ok(String::from("http://example.com/page"))
    );
    assert_eq!(
        parse_url_from_form(b"url=https://example.com/page?x=1", None),
        Ok(String::from("https://example.com/page?x=1"))
    );
}

#[test]
fn a_url_without_a_scheme_gets_http() {
    assert_eq!(
        parse_url_from_form(b"url=example.com/page", None),
        Ok(String::from("http://example.com/page"))
    );
    assert_eq!(with_scheme(String::from("example.com")), "http://example.com");
    assert_eq!(with_scheme(String::from("http://example.com")), "http://example.com");
    assert_eq!(with_scheme(String::from("https://example.com")), "https://example.com");
    assert_eq!(with_scheme(String::from("httpbin.org")), "httpbin.org");
    assert_eq!(with_scheme(String::from("ftp://example.com")), "http://ftp://example.com");
    assert_eq!(with_scheme(String::new()), "http://");
}

#[test]
fn escapes_in_the_form_are_decoded() {
    assert_eq!(
        parse_url_from_form(b"url=http%3A%2F%2Fexample.com%2Fa+b", None),
        Ok(String::from("http://example.com/a b"))
    );
}

#[test]
fn other_fields_are_passed_over() {
    assert_eq!(
        parse_url_from_form(b"name=x&url=http://example.com/&submit=1", None),
        Ok(String::from("http://example.com/"))
    );
}

#[test]
fn the_last_url_field_counts() {
    assert_eq!(
        parse_url_from_form(b"url=http://first.example/&url=http://second.example/", None),
        Ok(String::from("http://second.example/"))
    );
}

#[test]
fn a_missing_url_field_is_rejected() {
    assert_eq!(parse_url_from_form(b"", None), Err(ShortenError::MissingUrl));
    assert_eq!(parse_url_from_form(b"name=x", None), Err(ShortenError::MissingUrl));
    assert_eq!(parse_url_from_form(b"URL=http://example.com", None), Err(ShortenError::MissingUrl));
    assert_eq!(parse_url_from_form(b"&&", Some("example.com")), Err(ShortenError::MissingUrl));
}

#[test]
fn an_empty_url_field_is_rejected() {
    assert_eq!(parse_url_from_form(b"url=", None), Err(ShortenError::EmptyUrl));
    assert_eq!(parse_url_from_form(b"url", None), Err(ShortenError::EmptyUrl));
    assert_eq!(parse_url_from_form(b"url=&name=x", Some("example.com")), Err(ShortenError::EmptyUrl));
    assert_eq!(
        parse_url_from_form(b"url=http://example.com&url=", None),
        Err(ShortenError::EmptyUrl)
    );
}

#[test]
fn a_url_that_does_not_parse_is_rejected() {
    assert_eq!(
        parse_url_from_form(b"url=http://", None),
        Err(ShortenError::InvalidUrl {
            url: String::from("http://"),
            reason: String::from("empty host"),
        })
    );
    assert_eq!(
        parse_url_from_form(b"url=http://example.com:port/", Some("example.com")),
        Err(ShortenError::InvalidUrl {
            url: String::from("http://example.com:port/"),
            reason: String::from("invalid port number"),
        })
    );
}

#[test]
fn the_configured_domain_is_accepted() {
    assert_eq!(
        parse_url_from_form(b"url=http://goldsborough.me/blog", Some("goldsborough.me")),
        Ok(String::from("http://goldsborough.me/blog"))
    );
    assert_eq!(
        parse_url_from_form(b"url=www.goldsborough.me/blog", Some("goldsborough.me")),
        Ok(String::from("http://www.goldsborough.me/blog"))
    );
    assert_eq!(
        parse_url_from_form(b"url=https://GOLDSBOROUGH.me:8080/blog", Some("goldsborough.me")),
        Ok(String::from("https://GOLDSBOROUGH.me:8080/blog"))
    );
}

#[test]
fn another_domain_is_rejected() {
    assert_eq!(
        parse_url_from_form(b"url=http://example.com/page", Some("goldsborough.me")),
        Err(ShortenError::InvalidDomain {
            domain: String::from("example.com"),
            expected: String::from("goldsborough.me"),
        })
    );
    assert_eq!(
        parse_url_from_form(b"url=http://blog.goldsborough.me/", Some("goldsborough.me")),
        Err(ShortenError::InvalidDomain {
            domain: String::from("blog.goldsborough.me"),
            expected: String::from("goldsborough.me"),
        })
    );
}

#[test]
fn a_url_without_a_host_has_no_domain() {
    assert_eq!(
        parse_url_from_form(b"url=httpx:page", Some("goldsborough.me")),
        Err(ShortenError::InvalidDomain {
            domain: String::new(),
            expected: String::from("goldsborough.me"),
        })
    );
    assert_eq!(parse_url_from_form(b"url=httpx:page", None), Ok(String::from("httpx:page")));
}

#[test]
fn check_url_follows_the_parser() {
    let url = String::from("http://a.example/");
    assert_eq!(check_url(url.clone(), Ok(Some(String::from("a.example"))), None), Ok(url.clone()));
    assert_eq!(check_url(url.clone(), Ok(None), None), Ok(url.clone()));
    assert_eq!(
        check_url(url.clone(), Ok(Some(String::from("a.example"))), Some("a.example")),
        Ok(url.clone())
    );
    assert_eq!(
        check_url(url.clone(), Ok(Some(String::from("www.a.example"))), Some("a.example")),
        Ok(url.clone())
    );
    assert_eq!(
        check_url(url.clone(), Ok(Some(String::from("wwwa.example"))), Some("a.example")),
        Err(ShortenError::InvalidDomain {
            domain: String::from("wwwa.example"),
            expected: String::from("a.example"),
        })
    );
    assert_eq!(
        check_url(url.clone(), Err(String::from("no good")), Some("a.example")),
        Err(ShortenError::InvalidUrl { url: url.clone(), reason: String::from("no good") })
    );
    assert_eq!(
        check_url(url.clone(), Err(String::from("no good")), None),
        Err(ShortenError::InvalidUrl { url: url.clone(), reason: String::from("no good") })
    );
}

#[test]
fn take_field_finds_the_last_of_a_name() {
    let pairs = vec![pair("a", "1"), pair("b", "2"), pair("a", "3"), pair("c", "4")];
    assert_eq!(take_field(pairs.clone(), "a"), Some(String::from("3")));
    assert_eq!(take_field(pairs.clone(), "b"), Some(String::from("2")));
    assert_eq!(take_field(pairs.clone(), "c"), Some(String::from("4")));
    assert_eq!(take_field(pairs, "d"), None);
    assert_eq!(take_field(Vec::new(), "a"), None);
}

#[test]
fn messages_of_the_refusals() {
    assert_eq!(
        ShortenError::MissingUrl.message(),
        "Missing form field 'url' for request to /shorten"
    );
    assert_eq!(ShortenError::EmptyUrl.message(), "Empty form field 'url' for request to /shorten");
    assert_eq!(
        ShortenError::InvalidUrl {
            url: String::from("http://"),
            reason: String::from("empty host"),
        }
        .message(),
        "Invalid URL http://: empty host"
    );
    assert_eq!(
        ShortenError::InvalidDomain {
            domain: String::from("example.com"),
            expected: String::from("goldsborough.me"),
        }
        .message(),
        "Invalid domain 'example.com', expected goldsborough.me"
    );
    assert_eq!(ShortenError::Store(String::from("connection refused")).message(), "connection refused");
    assert_eq!(ShortenError::HashesExhausted.message(), "Could not find hash for URL");
}
