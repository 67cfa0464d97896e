use psag_cc::http::{Method, StatusCode};
use psag_cc::service::{is_valid_hash, route, setting, Route};
use psag_cc::service::{DEFAULT_DB_URL, DEFAULT_HOST_PORT, LONG_DOMAIN, SHORT_DOMAIN};
use psag_cc::db::models::format_hash;
use psag_cc::service::{PAGES, PARTIALS};
use psag_cc::text::{equal, letter_or_number, starts_with, strip_prefix};

#[test]
fn root_is_home() {
    assert_eq!(route(Method::Get, "/"), Route::Home);
}

#[test]
fn get_shorten_is_the_form() {
    assert_eq!(route(Method::Get, "/shorten"), Route::ShortenForm);
}

#[test]
fn post_shorten_is_a_submission() {
    assert_eq!(route(Method::Post, "/shorten"), Route::Shorten);
}

#[test]
fn post_elsewhere_is_not_found() {
    assert_eq!(route(Method::Post, "/"), Route::NotFound);
    assert_eq!(route(Method::Post, "/abc123"), Route::NotFound);
    assert_eq!(route(Method::Post, "/shorten/"), Route::NotFound);
}

#[test]
fn get_of_a_hash_is_resolved() {
    assert_eq!(route(Method::Get, "/0a1b2c3d"), Route::Resolve("0a1b2c3d"));
    assert_eq!(route(Method::Get, "/doesNotExist123"), Route::Resolve("doesNotExist123"));
}

#[test]
fn get_of_a_static_file_is_served() {
    assert_eq!(
        route(Method::Get, "/static/www/css/main.css"),
        Route::Static("static/www/css/main.css")
    );
    assert_eq!(route(Method::Get, "/static/www/"), Route::Static("static/www/"));
}

#[test]
fn get_of_anything_else_is_not_found() {
    assert_eq!(route(Method::Get, "/static/main.css"), Route::NotFound);
    assert_eq!(route(Method::Get, "/a/b"), Route::NotFound);
    assert_eq!(route(Method::Get, "/favicon.ico"), Route::NotFound);
    assert_eq!(route(Method::Get, ""), Route::NotFound);
    assert_eq!(route(Method::Get, "abc"), Route::NotFound);
    assert_eq!(route(Method::Get, "*"), Route::NotFound);
}

#[test]
fn other_methods_are_not_found() {
    assert_eq!(route(Method::Other, "/"), Route::NotFound);
    assert_eq!(route(Method::Other, "/shorten"), Route::NotFound);
    assert_eq!(route(Method::Other, "/0a1b2c3d"), Route::NotFound);
}

#[test]
fn letters_and_numbers_make_a_valid_hash() {
    assert!(is_valid_hash("0a1b2c3d"));
    assert!(is_valid_hash("ABCxyz789"));
    assert!(is_valid_hash(""));
}

#[test]
fn letters_of_any_script_make_a_valid_hash() {
    assert!(is_valid_hash("é藏٣"));
    assert_eq!(route(Method::Get, "/é藏"), Route::Resolve("é藏"));
}

#[test]
fn other_characters_make_no_valid_hash() {
    assert!(!is_valid_hash("a-b"));
    assert!(!is_valid_hash("a/b"));
    assert!(!is_valid_hash("abc "));
    assert!(!is_valid_hash("a.b"));
    assert!(!is_valid_hash("?"));
}

#[test]
fn status_numbers() {
    assert_eq!(StatusCode::Success.code(), 200);
    assert_eq!(StatusCode::PermanentRedirect.code(), 308);
    assert_eq!(StatusCode::NotFound.code(), 404);
    assert_eq!(StatusCode::InternalServerError.code(), 500);
}

#[test]
fn a_setting_falls_back_to_its_default() {
    assert_eq!(setting(None, DEFAULT_HOST_PORT), "0.0.0.0:80");
    assert_eq!(setting(None, DEFAULT_DB_URL), "postgresql://postgres@localhost:5432");
    assert_eq!(setting(Some(String::from("127.0.0.1:8080")), DEFAULT_HOST_PORT), "127.0.0.1:8080");
    assert_eq!(setting(Some(String::new()), DEFAULT_HOST_PORT), "");
}

#[test]
fn the_domains() {
    assert_eq!(LONG_DOMAIN, "goldsborough.me");
    assert_eq!(SHORT_DOMAIN, "psag.cc");
}

#[test]
fn text_starts_with_its_prefixes() {
    assert!(starts_with("http://a", "http"));
    assert!(starts_with("http", "http"));
    assert!(starts_with("anything", ""));
    assert!(starts_with("", ""));
    assert!(!starts_with("htt", "http"));
    assert!(!starts_with("", "http"));
    assert!(!starts_with("xhttp", "http"));
    assert!(starts_with("éa", "é"));
    assert!(!starts_with("ea", "é"));
}

#[test]
fn texts_are_equal_when_their_characters_are() {
    assert!(equal("", ""));
    assert!(equal("url", "url"));
    assert!(!equal("url", "urls"));
    assert!(!equal("urls", "url"));
    assert!(!equal("url", "urk"));
    assert!(!equal("", "a"));
    assert!(equal("é藏", "é藏"));
}

#[test]
fn a_prefix_is_stripped() {
    assert_eq!(strip_prefix("/abc", "/"), Some("abc"));
    assert_eq!(strip_prefix("/", "/"), Some(""));
    assert_eq!(strip_prefix("abc", "/"), None);
    assert_eq!(strip_prefix("", "/"), None);
    assert_eq!(strip_prefix("abc", ""), Some("abc"));
    assert_eq!(strip_prefix("é藏x", "é"), Some("藏x"));
}

#[test]
fn every_hash_is_routed_to_its_link() {
    let mut number: u32 = 7;
    for _ in 0..200 {
        number = number.wrapping_mul(1_103_515_245).wrapping_add(12_345);
        let hash = format_hash(number);
        assert!(is_valid_hash(&hash));
        assert_eq!(route(Method::Get, &format!("/{}", hash)), Route::Resolve(hash.as_str()));
    }
    assert_eq!(route(Method::Get, "/00000000"), Route::Resolve("00000000"));
    assert_eq!(route(Method::Get, "/ffffffff"), Route::Resolve("ffffffff"));
}

#[test]
fn what_follows_the_static_directory_does_not_matter() {
    assert_eq!(
        route(Method::Get, "/static/www/style.css"),
        Route::Static("static/www/style.css")
    );
    assert_eq!(route(Method::Get, "/static/www/abc"), Route::Static("static/www/abc"));
    assert_eq!(route(Method::Get, "/static/www/é"), Route::Static("static/www/é"));
}

#[test]
fn letters_and_numbers() {
    assert!(letter_or_number('a'));
    assert!(letter_or_number('Z'));
    assert!(letter_or_number('0'));
    assert!(letter_or_number('é'));
    assert!(letter_or_number('藏'));
    assert!(letter_or_number('٣'));
    assert!(!letter_or_number('-'));
    assert!(!letter_or_number('_'));
    assert!(!letter_or_number(' '));
    assert!(!letter_or_number('/'));
    assert!(!letter_or_number('{'));
    assert!(!letter_or_number('@'));
    assert!(!letter_or_number('['));
    assert!(!letter_or_number('`'));
}

#[test]
fn the_pages_and_partials_of_the_service() {
    assert_eq!(PAGES, ["index", "resolve-error", "404"]);
    assert_eq!(PARTIALS, ["head"]);
}
