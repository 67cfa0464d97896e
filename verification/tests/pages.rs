use psag_cc::http::StatusCode;
use psag_cc::service::{respond, show_page, static_response, Route};
use psag_cc::url_shortener::resource_manager::{
    name_the_failure, partial_path, template_path, Resource, ResourceError, ResourceManager,
    DEFAULT_WWW_DIR,
};

fn resource(name: &str, content: &str) -> Resource {
    Resource { name: String::from(name), content: String::from(content) }
}

fn pages() -> ResourceManager {
    let templates = vec![
        resource("index", "{{> head}}<form action=\"/shorten\"></form>"),
        resource("resolve-error", "{{> head}}<p>{{why}}</p>"),
        resource("404", "{{> head}}<h1>Not found</h1>"),
    ];
    let partials = vec![resource("head", "<title>psag.cc</title>")];
    ResourceManager::new(&templates, &partials).unwrap()
}

#[test]
fn a_template_without_variables_is_rendered_as_it_is() {
    let manager = ResourceManager::new(&vec![resource("plain", "<p>hello</p>")], &Vec::new());
    assert_eq!(manager.unwrap().get_template("plain"), Ok(String::from("<p>hello</p>")));
}

#[test]
fn a_partial_is_included() {
    assert_eq!(
        pages().get_template("404"),
        Ok(String::from("<title>psag.cc</title><h1>Not found</h1>"))
    );
}

#[test]
fn values_are_put_in_and_escaped() {
    let values = vec![(String::from("why"), String::from("Could not resolve <abc>"))];
    assert_eq!(
        pages().render_template("resolve-error", &values),
        Ok(String::from("<title>psag.cc</title><p>Could not resolve &lt;abc&gt;</p>"))
    );
}

#[test]
fn the_last_value_of_a_name_counts() {
    let values = vec![
        (String::from("why"), String::from("first")),
        (String::from("why"), String::from("second")),
    ];
    assert_eq!(
        pages().render_template("resolve-error", &values),
        Ok(String::from("<title>psag.cc</title><p>second</p>"))
    );
}

#[test]
fn a_variable_without_a_value_is_left_out() {
    assert_eq!(
        pages().get_template("resolve-error"),
        Ok(String::from("<title>psag.cc</title><p></p>"))
    );
    assert_eq!(
        pages().render_template("resolve-error", &Vec::new()),
        Ok(String::from("<title>psag.cc</title><p></p>"))
    );
}

#[test]
fn a_later_template_replaces_an_earlier_one_of_its_name() {
    let templates = vec![resource("page", "first"), resource("page", "second")];
    let manager = ResourceManager::new(&templates, &Vec::new()).unwrap();
    assert_eq!(manager.get_template("page"), Ok(String::from("second")));
}

#[test]
fn a_template_replaces_a_partial_of_its_name() {
    let manager =
        ResourceManager::new(&vec![resource("x", "template")], &vec![resource("x", "partial")])
            .unwrap();
    assert_eq!(manager.get_template("x"), Ok(String::from("template")));
}

#[test]
fn an_unknown_template_is_not_rendered() {
    let rendered = pages().get_template("missing");
    assert_eq!(
        rendered,
        Err(ResourceError::Render {
            name: String::from("missing"),
            report: String::from("Template not found missing"),
        })
    );
    let empty = ResourceManager::new(&Vec::new(), &Vec::new()).unwrap();
    assert!(matches!(empty.get_template("index"), Err(ResourceError::Render { .. })));
}

#[test]
fn a_template_that_does_not_compile_is_refused() {
    let templates = vec![resource("good", "<p>{{x}}</p>"), resource("bad", "{{#if x}}never closed")];
    match ResourceManager::new(&templates, &Vec::new()) {
        Err(ResourceError::Template { name, report }) => {
            assert_eq!(name, "bad");
            assert!(!report.is_empty());
        }
        _ => panic!("the template was accepted"),
    }
}

#[test]
fn the_first_refused_source_is_reported_and_partials_come_first() {
    let templates = vec![resource("t", "{{#if x}}")];
    let partials = vec![resource("good", "fine"), resource("p", "{{#each y}}"), resource("q", "{{/if}}")];
    match ResourceManager::new(&templates, &partials) {
        Err(ResourceError::Template { name, .. }) => assert_eq!(name, "p"),
        _ => panic!("the partial was accepted"),
    }
}

#[test]
fn a_report_gets_the_name_of_its_template() {
    assert_eq!(name_the_failure("index", Ok(String::from("page"))), Ok(String::from("page")));
    assert_eq!(
        name_the_failure("index", Err(String::from("broken"))),
        Err(ResourceError::Render { name: String::from("index"), report: String::from("broken") })
    );
    assert_eq!(
        ResourceError::Render { name: String::from("index"), report: String::from("broken") }
            .message(),
        "broken"
    );
    assert_eq!(
        ResourceError::Template { name: String::from("index"), report: String::from("bad syntax") }
            .message(),
        "bad syntax"
    );
}

#[test]
fn the_files_of_templates_and_partials() {
    assert_eq!(template_path("/var/www", "index"), "/var/www/index.html");
    assert_eq!(partial_path("/var/www", "head"), "/var/www/head.partial.html");
    assert_eq!(
        template_path(DEFAULT_WWW_DIR, "resolve-error"),
        "/var/www/psag.cc/static/www/resolve-error.html"
    );
    assert_eq!(template_path("", ""), "/.html");
}

#[test]
fn the_root_leads_to_the_long_domain() {
    let response = respond(&pages(), "goldsborough.me", &Route::Home).unwrap();
    assert_eq!(response.status, StatusCode::PermanentRedirect);
    assert_eq!(response.location, Some(String::from("http://goldsborough.me")));
    assert_eq!(response.body, "");
    let response = respond(&pages(), "https://goldsborough.me", &Route::Home).unwrap();
    assert_eq!(response.location, Some(String::from("https://goldsborough.me")));
}

#[test]
fn the_form_is_the_index_page() {
    let response = respond(&pages(), "goldsborough.me", &Route::ShortenForm).unwrap();
    assert_eq!(response.status, StatusCode::Success);
    assert_eq!(response.body, "<title>psag.cc</title><form action=\"/shorten\"></form>");
    assert_eq!(response.content_length, Some(53));
    assert_eq!(response.location, None);
}

#[test]
fn what_has_no_route_gets_the_404_page() {
    let response = respond(&pages(), "goldsborough.me", &Route::NotFound).unwrap();
    assert_eq!(response.status, StatusCode::NotFound);
    assert_eq!(response.status.code(), 404);
    assert_eq!(response.body, "<title>psag.cc</title><h1>Not found</h1>");
    assert_eq!(response.content_length, Some(40));
}

#[test]
fn a_missing_page_is_a_server_error() {
    let empty = ResourceManager::new(&Vec::new(), &Vec::new()).unwrap();
    let response = respond(&empty, "goldsborough.me", &Route::NotFound).unwrap();
    assert_eq!(response.status, StatusCode::InternalServerError);
    assert_eq!(response.body, "Template not found 404");
}

#[test]
fn the_other_routes_are_not_answered_at_once() {
    assert_eq!(respond(&pages(), "goldsborough.me", &Route::Shorten), None);
    assert_eq!(respond(&pages(), "goldsborough.me", &Route::Resolve("0a1b2c3d")), None);
    assert_eq!(respond(&pages(), "goldsborough.me", &Route::Static("static/www/a.css")), None);
}

#[test]
fn a_static_file_is_sent_as_it_is() {
    let response = static_response(&pages(), Some(String::from("body { color: red }")));
    assert_eq!(response.status, StatusCode::Success);
    assert_eq!(response.body, "body { color: red }");
    assert_eq!(response.content_length, Some(19));
    assert_eq!(response.location, None);
    let response = static_response(&pages(), Some(String::new()));
    assert_eq!(response.status, StatusCode::Success);
    assert_eq!(response.content_length, Some(0));
}

#[test]
fn a_static_file_that_is_missing_gets_the_404_page() {
    let response = static_response(&pages(), None);
    assert_eq!(response.status, StatusCode::NotFound);
    assert_eq!(response.body, "<title>psag.cc</title><h1>Not found</h1>");
    assert_eq!(response.content_length, Some(40));
    assert_eq!(response.location, None);
}

#[test]
fn a_page_is_shown_under_its_status() {
    let response = show_page(&pages(), "index", StatusCode::Success);
    assert_eq!(response.status, StatusCode::Success);
    assert_eq!(response.body, "<title>psag.cc</title><form action=\"/shorten\"></form>");
    let response = show_page(&pages(), "missing", StatusCode::Success);
    assert_eq!(response.status, StatusCode::InternalServerError);
    assert_eq!(response.location, None);
}

#[test]
fn a_page_in_a_circle_is_a_server_error() {
    let templates = vec![resource("404", "a{{> index}}"), resource("index", "b{{> 404}}")];
    let circle = ResourceManager::new(&templates, &Vec::new()).unwrap();
    let response = respond(&circle, "goldsborough.me", &Route::NotFound).unwrap();
    assert_eq!(response.status, StatusCode::InternalServerError);
    assert_eq!(response.body, "Template 404 is not rendered: its tags cannot be followed to an end");
    assert_eq!(response.content_length, Some(67));
    assert_eq!(response.location, None);
}
