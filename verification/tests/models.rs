use psag_cc::db::models::{format_hash, NewUrl};
use psag_cc::http::{content_length, ContentType, StatusCode};
use psag_cc::service::{make_response, page_response, redirect};
use psag_cc::url_shortener::resource_manager::ResourceError;

#[test]
fn a_hash_is_eight_hex_digits_of_its_number() {
    assert_eq!(format_hash(0), "00000000");
    assert_eq!(format_hash(1), "00000001");
    assert_eq!(format_hash(255), "000000ff");
    assert_eq!(format_hash(0xdead_beef), "deadbeef");
    assert_eq!(format_hash(0x0123_4567), "01234567");
    assert_eq!(format_hash(0x89ab_cdef), "89abcdef");
    assert_eq!(format_hash(u32::MAX), "ffffffff");
    assert_eq!(format_hash(0x1000_0000), "10000000");
}

#[test]
fn a_hash_is_what_the_formatter_of_std_writes() {
    let mut number: u32 = 1;
    for _ in 0..200 {
        number = number.wrapping_mul(1_664_525).wrapping_add(1_013_904_223);
        assert_eq!(format_hash(number), format!("{:08x}", number));
    }
}

#[test]
fn a_new_url_has_a_fresh_hash_and_keeps_the_long_url() {
    let long_url = String::from("http://example.com/page");
    for _ in 0..50 {
        let fresh = NewUrl::new(&long_url);
        assert_eq!(fresh.long_url, &long_url);
        assert_eq!(fresh.hash.chars().count(), 8);
        assert!(fresh.hash.chars().all(|c| matches!(c, '0'..='9' | 'a'..='f')));
    }
}

#[test]
fn new_urls_do_not_all_share_one_hash() {
    let long_url = String::from("http://example.com/page");
    let first = NewUrl::new(&long_url).hash;
    let mut differs = false;
    for _ in 0..64 {
        if NewUrl::new(&long_url).hash != first {
            differs = true;
        }
    }
    assert!(differs);
}

#[test]
fn the_length_of_a_body_is_counted_in_bytes() {
    assert_eq!(content_length(""), 0);
    assert_eq!(content_length("abc"), 3);
    assert_eq!(content_length("é藏"), 5);
}

#[test]
fn a_response_with_a_body() {
    let response = make_response(StatusCode::Success, String::from("<p>é</p>"));
    assert_eq!(response.status, StatusCode::Success);
    assert_eq!(response.content_length, Some(9));
    assert_eq!(response.content_type, None::<ContentType>);
    assert_eq!(response.location, None);
    assert_eq!(response.body, "<p>é</p>");
}

#[test]
fn a_redirect_has_a_location_and_no_body() {
    let response = redirect(String::from("http://example.com/page"));
    assert_eq!(response.status, StatusCode::PermanentRedirect);
    assert_eq!(response.status.code(), 308);
    assert_eq!(response.location, Some(String::from("http://example.com/page")));
    assert_eq!(response.content_length, None);
    assert_eq!(response.content_type, None);
    assert_eq!(response.body, "");
}

#[test]
fn a_page_that_was_rendered_is_shown() {
    let response = page_response(StatusCode::NotFound, Ok(String::from("<h1>404</h1>")));
    assert_eq!(response.status, StatusCode::NotFound);
    assert_eq!(response.content_length, Some(12));
    assert_eq!(response.body, "<h1>404</h1>");
    assert_eq!(response.location, None);
}

#[test]
fn a_page_that_was_not_rendered_is_a_server_error() {
    let failure = ResourceError::Render {
        name: String::from("404"),
        report: String::from("Template not found 404"),
    };
    let response = page_response(StatusCode::NotFound, Err(failure));
    assert_eq!(response.status, StatusCode::InternalServerError);
    assert_eq!(response.content_length, Some(22));
    assert_eq!(response.body, "Template not found 404");
    assert_eq!(response.location, None);
}
