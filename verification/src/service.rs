//! Which handler answers a request, and what a submitted form must hold.
use vstd::prelude::*;
use vstd::string::StringExecFns;
use crate::http::{content_length, wire_length, Method, Response, ResponseView, StatusCode};
use crate::url_shortener::resource_manager::{
    rendered_view, rendering, ResourceError, ResourceErrorView, ResourceManager,
};
use crate::url_shortener::shorten;
use crate::url_shortener::shorten::{ShortenError, ShortenErrorView};
use crate::db::models::{hash_of, is_hex_digit, lemma_hash_shape};
use crate::text::{
    equal, is_letter_or_number, lemma_prefix_after_common_start, letter_or_number, starts_with,
    strip_prefix,
};

verus! {

/// The long domain, to which the root path leads.
pub const LONG_DOMAIN: &'static str = "goldsborough.me";

/// The domain under which short links are handed out.
pub const SHORT_DOMAIN: &'static str = "psag.cc";

/// Where the database is looked for when no address is configured.
pub const DEFAULT_DB_URL: &'static str = "postgresql://postgres@localhost:5432";

/// The address the server binds to when none is configured.
pub const DEFAULT_HOST_PORT: &'static str = "0.0.0.0:80";

/// The pages of the service, by the names of their templates.
pub const PAGES: [&'static str; 3] = ["index", "resolve-error", "404"];

/// The partials that the pages take in.
pub const PARTIALS: [&'static str; 1] = ["head"];

/// A hash is valid when each of its characters is a letter or a number.
pub open spec fn valid_hash(hash: Seq<char>) -> bool {
    forall|i: int| 0 <= i < hash.len() ==> is_letter_or_number(#[trigger] hash[i])
}

/// Whether `hash` may be looked up as a short link.
pub fn is_valid_hash(hash: &str) -> (valid: bool)
    ensures
        valid == valid_hash(hash@),
{
    let mut valid = true;
    for c in position: hash.chars()
        invariant
            position.seq() == hash@,
            valid == forall|i: int|
                0 <= i < position.index() ==> is_letter_or_number(#[trigger] hash@[i]),
    {
        if !letter_or_number(c) {
            valid = false;
        }
    }
    valid
}

/// The handler that a request is meant for.
#[derive(Clone, Copy, Debug, PartialEq, Eq)]
pub enum Route<'a> {
    /// The root: the visitor is sent on to the long domain.
    Home,
    /// The page with the form to submit a URL.
    ShortenForm,
    /// A submitted form.
    Shorten,
    /// A short link, with its hash.
    Resolve(&'a str),
    /// A file below the static directory, with its path relative to the
    /// working directory.
    Static(&'a str),
    /// Anything else.
    NotFound,
}

/// A route with its texts as character sequences.
pub enum RouteView {
    Home,
    ShortenForm,
    Shorten,
    Resolve(Seq<char>),
    Static(Seq<char>),
    NotFound,
}

impl<'a> View for Route<'a> {
    type V = RouteView;

    open spec fn view(&self) -> RouteView {
        match *self {
            Route::Home => RouteView::Home,
            Route::ShortenForm => RouteView::ShortenForm,
            Route::Shorten => RouteView::Shorten,
            Route::Resolve(hash) => RouteView::Resolve(hash@),
            Route::Static(file) => RouteView::Static(file@),
            Route::NotFound => RouteView::NotFound,
        }
    }
}

/// The routing table. The first line that matches decides: the fixed paths
/// come before the short links, so `/shorten` is never taken for a hash.
pub open spec fn route_of(method: Method, path: Seq<char>) -> RouteView {
    if method == Method::Post {
        if path == "/shorten"@ {
            RouteView::Shorten
        } else {
            RouteView::NotFound
        }
    } else if method != Method::Get {
        RouteView::NotFound
    } else if path == "/"@ {
        RouteView::Home
    } else if path == "/shorten"@ {
        RouteView::ShortenForm
    } else if path.len() > 0 && path[0] == '/' && valid_hash(path.skip(1)) {
        RouteView::Resolve(path.skip(1))
    } else if "/static/www/"@.is_prefix_of(path) {
        RouteView::Static(path.skip(1))
    } else {
        RouteView::NotFound
    }
}

/// Finds the handler for a request.
pub fn route<'a>(method: Method, path: &'a str) -> (found: Route<'a>)
    ensures
        found@ == route_of(method, path@),
{
    proof {
        reveal_strlit("/");
        reveal_strlit("/static/www/");
    }
    match method {
        Method::Post => {
            if equal(path, "/shorten") {
                Route::Shorten
            } else {
                Route::NotFound
            }
        },
        Method::Other => Route::NotFound,
        Method::Get => {
            if equal(path, "/") {
                return Route::Home;
            }
            if equal(path, "/shorten") {
                return Route::ShortenForm;
            }
            match strip_prefix(path, "/") {
                None => {
                    assert(!"/static/www/"@.is_prefix_of(path@)) by {
                        if "/static/www/"@.is_prefix_of(path@) {
                            assert(path@[0] == "/static/www/"@[0]);
                        }
                    }
                    Route::NotFound
                },
                Some(rest) => {
                    proof {
                        reveal_strlit("static/www/");
                        assert(path@[0] == "/"@[0]);
                        assert("/static/www/"@.skip(1) =~= "static/www/"@);
                        assert("/static/www/"@.take(1) =~= path@.take(1));
                        lemma_prefix_after_common_start("/static/www/"@, path@, 1);
                    }
                    if is_valid_hash(rest) {
                        Route::Resolve(rest)
                    } else if starts_with(rest, "static/www/") {
                        Route::Static(rest)
                    } else {
                        Route::NotFound
                    }
                },
            }
        },
    }
}

/// Every hash that is given out is a valid hash, and a `GET` of the path
/// made of `/` and the hash is a request to follow it.
pub proof fn lemma_hash_is_routed(number: u32)
    ensures
        valid_hash(hash_of(number)),
        route_of(Method::Get, seq!['/'] + hash_of(number)) == RouteView::Resolve(hash_of(number)),
{
    let hash = hash_of(number);
    let path = seq!['/'] + hash;
    lemma_hash_shape(number);
    reveal_strlit("/");
    reveal_strlit("/shorten");
    assert forall|i: int| 0 <= i < hash.len() implies is_letter_or_number(#[trigger] hash[i]) by {
        assert(is_hex_digit(hash[i]));
    }
    assert(path.len() == 9);
    assert(path.skip(1) =~= hash);
}

/// A `GET` below `/static/www/` is a request for that file, whatever follows:
/// the path holds a `/` after its first character, so it is no hash.
pub proof fn lemma_static_path_is_served(rest: Seq<char>)
    ensures
        route_of(Method::Get, "/static/www/"@ + rest) == RouteView::Static(
            "static/www/"@ + rest,
        ),
{
    let path = "/static/www/"@ + rest;
    reveal_strlit("/");
    reveal_strlit("/shorten");
    reveal_strlit("/static/www/");
    reveal_strlit("static/www/");
    assert(path[2] == 't');
    assert(path.skip(1) =~= "static/www/"@ + rest);
    assert(path.skip(1)[6] == '/');
    assert(!is_letter_or_number(path.skip(1)[6]));
    assert("/static/www/"@ =~= path.subrange(0, "/static/www/"@.len() as int));
}

/// A response that carries `body` and says how long it is.
pub open spec fn body_response(status: StatusCode, body: Seq<char>) -> ResponseView {
    ResponseView {
        status,
        content_length: Some(wire_length(body) as u64),
        content_type: None,
        location: None,
        body,
    }
}

/// Answers with `body` under `status`.
pub fn make_response(status: StatusCode, body: String) -> (response: Response)
    ensures
        response@ == body_response(status, body@),
{
    Response {
        status,
        content_length: Some(content_length(body.as_str())),
        content_type: None,
        location: None,
        body,
    }
}

/// A response that sends the client on to `target`, for good.
pub open spec fn redirect_to(target: Seq<char>) -> ResponseView {
    ResponseView {
        status: StatusCode::PermanentRedirect,
        content_length: None,
        content_type: None,
        location: Some(target),
        body: Seq::empty(),
    }
}

/// Sends the client on to `target`.
pub fn redirect(target: String) -> (response: Response)
    ensures
        response@ == redirect_to(target@),
{
    Response {
        status: StatusCode::PermanentRedirect,
        content_length: None,
        content_type: None,
        location: Some(target),
        body: String::new(),
    }
}

/// The answer that shows `page` under `status`. A page that could not be
/// rendered is a failure of the server: the answer is then the renderer's
/// report, under status 500.
pub open spec fn page_response_of(
    status: StatusCode,
    page: Result<Seq<char>, ResourceErrorView>,
) -> ResponseView {
    match page {
        Ok(text) => body_response(status, text),
        Err(error) => body_response(StatusCode::InternalServerError, error.message()),
    }
}

/// Answers with a rendered page, or with the report of why there is none.
pub fn page_response(
    status: StatusCode,
    page: Result<String, ResourceError>,
) -> (response: Response)
    ensures
        response@ == page_response_of(status, rendered_view(page)),
{
    match page {
        Ok(text) => make_response(status, text),
        Err(error) => make_response(StatusCode::InternalServerError, error.message()),
    }
}

/// Whether `response` is an answer that shows the page `name`, rendered with
/// `values`, under `status`. Where the page is rendered, the answer is the
/// page under `status`. Where the manager does not render it, the answer is
/// the refusal under status 500. Where the renderer fails, the answer has
/// status 500 and a body of which nothing is said but its length.
pub open spec fn page_answer(
    resource_manager: ResourceManager,
    name: Seq<char>,
    values: Option<Seq<(Seq<char>, Seq<char>)>>,
    status: StatusCode,
    response: ResponseView,
) -> bool {
    if !resource_manager.renders(name) {
        response == page_response_of(status, Err(ResourceErrorView::Inclusion { name }))
    } else {
        match rendering(resource_manager@, name, values) {
            Some(text) => response == body_response(status, text),
            None => response == body_response(StatusCode::InternalServerError, response.body),
        }
    }
}

/// An answer that shows a page reports the status it was asked for or a
/// failure of the server, and never leads on.
pub proof fn lemma_page_answer_is_no_redirect(
    resource_manager: ResourceManager,
    name: Seq<char>,
    values: Option<Seq<(Seq<char>, Seq<char>)>>,
    status: StatusCode,
    response: ResponseView,
)
    requires
        page_answer(resource_manager, name, values, status, response),
    ensures
        response.status == status || response.status == StatusCode::InternalServerError,
        response.location is None,
        response.content_length == Some(wire_length(response.body) as u64),
{
}

/// Shows the page `name` without any data under `status`.
pub fn show_page(
    resource_manager: &ResourceManager,
    name: &str,
    status: StatusCode,
) -> (response: Response)
    ensures
        page_answer(*resource_manager, name@, None, status, response@),
{
    page_response(status, resource_manager.get_template(name))
}

/// Answers a request at once where its route allows it: the root leads on to
/// the long domain, the form is the page `index`, and what has no route is
/// answered with the page `404`. The other routes need the store or a file.
pub fn respond(
    resource_manager: &ResourceManager,
    long_domain: &str,
    route: &Route,
) -> (answer: Option<Response>)
    ensures
        match route@ {
            RouteView::Home => answer matches Some(response) && response@ == redirect_to(
                with_scheme_of(long_domain@),
            ),
            RouteView::ShortenForm => answer matches Some(response) && page_answer(
                *resource_manager,
                "index"@,
                None,
                StatusCode::Success,
                response@,
            ),
            RouteView::NotFound => answer matches Some(response) && page_answer(
                *resource_manager,
                "404"@,
                None,
                StatusCode::NotFound,
                response@,
            ),
            _ => answer is None,
        },
{
    match route {
        Route::Home => Some(redirect(with_scheme(String::from_str(long_domain)))),
        Route::ShortenForm => Some(show_page(resource_manager, "index", StatusCode::Success)),
        Route::NotFound => Some(show_page(resource_manager, "404", StatusCode::NotFound)),
        _ => None,
    }
}

/// Answers a request for a static file, given what was read of it: the
/// content, or the page `404` where there is no such file.
pub fn static_response(
    resource_manager: &ResourceManager,
    content: Option<String>,
) -> (response: Response)
    ensures
        match content {
            Some(text) => response@ == body_response(StatusCode::Success, text@),
            None => page_answer(*resource_manager, "404"@, None, StatusCode::NotFound, response@),
        },
{
    match content {
        Some(text) => make_response(StatusCode::Success, text),
        None => show_page(resource_manager, "404", StatusCode::NotFound),
    }
}

/// A setting: the configured value, or the default where none is configured.
pub fn setting(configured: Option<String>, default: &str) -> (value: String)
    ensures
        value@ == match configured {
            Some(text) => text@,
            None => default@,
        },
{
    match configured {
        Some(text) => text,
        None => String::from_str(default),
    }
}

/// The pairs of names and values in a form body, in the order in which the
/// body holds them: what `url::form_urlencoded::parse` yields for `form`.
pub uninterp spec fn form_pairs(form: Seq<u8>) -> Seq<(Seq<char>, Seq<char>)>;

/// `url::form_urlencoded::parse` splits the body at each `&` and each part at
/// its first `=`, and decodes `+` and percent escapes in names and values. It
/// accepts any bytes. The decoding is not spelled out here: the pairs are only
/// given the name `form_pairs`.
#[verifier::external_body]
fn parse_form(form: &[u8]) -> (pairs: Vec<(String, String)>)
    ensures
        pairs.deep_view() == form_pairs(form@),
{
    url::form_urlencoded::parse(form).into_owned().collect()
}

/// What the URL parser makes of `url`: the host it found, `None` where the
/// URL has no host, or else its description of what is wrong with `url`.
pub uninterp spec fn parsed_host(url: Seq<char>) -> Result<Option<Seq<char>>, Seq<char>>;

/// A parser's finding with its texts as character sequences.
pub open spec fn finding_view(
    parsed: Result<Option<String>, String>,
) -> Result<Option<Seq<char>>, Seq<char>> {
    match parsed {
        Ok(Some(host)) => Ok(Some(host@)),
        Ok(None) => Ok(None),
        Err(reason) => Err(reason@),
    }
}

/// `url::Url::parse` reads `url` as an absolute URL. Where it succeeds, the
/// parsed URL's `host_str` is handed back; where it fails, the text that its
/// `ParseError` displays. Both depend on `url` alone. The parser's rules are
/// not spelled out here: its finding is only given the name `parsed_host`.
#[verifier::external_body]
fn parse_host(url: &str) -> (parsed: Result<Option<String>, String>)
    ensures
        finding_view(parsed) == parsed_host(url@),
{
    match url::Url::parse(url) {
        Ok(parsed) => Ok(parsed.host_str().map(String::from)),
        Err(error) => Err(error.to_string()),
    }
}

/// The value of the last pair named `name`: in a form that names a field
/// twice, the later value counts.
pub open spec fn field(pairs: Seq<(Seq<char>, Seq<char>)>, name: Seq<char>) -> Option<Seq<char>>
    decreases pairs.len(),
{
    if pairs.len() == 0 {
        None
    } else if pairs.last().0 == name {
        Some(pairs.last().1)
    } else {
        field(pairs.drop_last(), name)
    }
}

/// Takes the value of the field `name` out of the pairs of a form.
pub fn take_field(pairs: Vec<(String, String)>, name: &str) -> (value: Option<String>)
    ensures
        value.deep_view() == field(pairs.deep_view(), name@),
{
    let mut rest = pairs;
    loop
        invariant
            field(rest.deep_view(), name@) == field(pairs.deep_view(), name@),
        decreases rest.len(),
    {
        let ghost before = rest.deep_view();
        match rest.pop() {
            None => {
                return None;
            },
            Some(pair) => {
                assert(rest.deep_view() =~= before.drop_last());
                assert(before.last() == pair.deep_view());
                if equal(pair.0.as_str(), name) {
                    return Some(pair.1);
                }
            },
        }
    }
}

/// A URL with its scheme: one that does not begin with `http` gets `http://`
/// in front.
pub open spec fn with_scheme_of(url: Seq<char>) -> Seq<char> {
    if "http"@.is_prefix_of(url) {
        url
    } else {
        "http://"@ + url
    }
}

pub fn with_scheme(url: String) -> (long_url: String)
    ensures
        long_url@ == with_scheme_of(url@),
{
    if starts_with(url.as_str(), "http") {
        url
    } else {
        let mut long_url = String::from_str("http://");
        long_url.append(url.as_str());
        long_url
    }
}

/// Whether `host` is `domain` itself or its `www.` name.
pub open spec fn serves(domain: Seq<char>, host: Seq<char>) -> bool {
    host == domain || host == "www."@ + domain
}

/// The verdict on a URL, given what the parser found in it. A URL that does
/// not parse is refused with the parser's reason. Where a domain is
/// configured, the URL must lead to it.
pub open spec fn verdict(
    long_url: Seq<char>,
    parsed: Result<Option<Seq<char>>, Seq<char>>,
    allowed: Option<Seq<char>>,
) -> Result<Seq<char>, ShortenErrorView> {
    match parsed {
        Err(reason) => Err(ShortenErrorView::InvalidUrl { url: long_url, reason }),
        Ok(host) => match allowed {
            None => Ok(long_url),
            Some(domain) => match host {
                Some(name) => if serves(domain, name) {
                    Ok(long_url)
                } else {
                    Err(ShortenErrorView::InvalidDomain { domain: name, expected: domain })
                },
                None => Err(
                    ShortenErrorView::InvalidDomain { domain: Seq::empty(), expected: domain },
                ),
            },
        },
    }
}

/// An accepted URL or a refusal, with its texts as character sequences.
pub open spec fn verdict_view(
    checked: Result<String, ShortenError>,
) -> Result<Seq<char>, ShortenErrorView> {
    match checked {
        Ok(long_url) => Ok(long_url@),
        Err(error) => Err(error@),
    }
}

/// Accepts or refuses `long_url`, given what the parser found in it.
pub fn check_url(
    long_url: String,
    parsed: Result<Option<String>, String>,
    allowed: Option<&str>,
) -> (checked: Result<String, ShortenError>)
    ensures
        verdict_view(checked) == verdict(long_url@, finding_view(parsed), allowed.deep_view()),
{
    match parsed {
        Err(reason) => Err(ShortenError::InvalidUrl { url: long_url, reason }),
        Ok(host) => match allowed {
            None => Ok(long_url),
            Some(domain) => match host {
                Some(name) => {
                    let mut with_www = String::from_str("www.");
                    with_www.append(domain);
                    if equal(name.as_str(), domain) || equal(name.as_str(), with_www.as_str()) {
                        Ok(long_url)
                    } else {
                        Err(
                            ShortenError::InvalidDomain {
                                domain: name,
                                expected: String::from_str(domain),
                            },
                        )
                    }
                },
                None => Err(
                    ShortenError::InvalidDomain {
                        domain: String::new(),
                        expected: String::from_str(domain),
                    },
                ),
            },
        },
    }
}

/// What a submitted form asks for, given the pairs it holds: the URL to
/// shorten, or the refusal.
pub open spec fn url_in_form(
    pairs: Seq<(Seq<char>, Seq<char>)>,
    allowed: Option<Seq<char>>,
) -> Result<Seq<char>, ShortenErrorView> {
    match field(pairs, "url"@) {
        None => Err(ShortenErrorView::MissingUrl),
        Some(url) => if url.len() == 0 {
            Err(ShortenErrorView::EmptyUrl)
        } else {
            verdict(with_scheme_of(url), parsed_host(with_scheme_of(url)), allowed)
        },
    }
}

/// Reads the URL to shorten out of a submitted form. The form must hold a
/// field `url` that is not empty; the URL gets a scheme if it has none, must
/// parse, and, where `allowed` names a domain, must lead to that domain.
pub fn parse_url_from_form(
    form: &[u8],
    allowed: Option<&str>,
) -> (checked: Result<String, ShortenError>)
    ensures
        verdict_view(checked) == url_in_form(form_pairs(form@), allowed.deep_view()),
{
    let pairs = parse_form(form);
    match take_field(pairs, "url") {
        None => Err(ShortenError::MissingUrl),
        Some(url) => {
            if url.as_str().is_empty() {
                return Err(ShortenError::EmptyUrl);
            }
            let long_url = with_scheme(url);
            let parsed = parse_host(long_url.as_str());
            check_url(long_url, parsed, allowed)
        },
    }
}

/// What becomes of a submitted form before the store is asked anything.
#[derive(Debug, PartialEq, Eq)]
pub enum Submission {
    /// The form was refused, and this is the answer to it.
    Refused(Response),
    /// The form holds this URL, which is to be shortened.
    Accepted(String),
}

/// A `Submission` with its texts as character sequences.
pub enum SubmissionView {
    Refused(ResponseView),
    Accepted(Seq<char>),
}

impl View for Submission {
    type V = SubmissionView;

    open spec fn view(&self) -> SubmissionView {
        match self {
            Submission::Refused(response) => SubmissionView::Refused(response@),
            Submission::Accepted(long_url) => SubmissionView::Accepted(long_url@),
        }
    }
}

/// What becomes of a form with these pairs: a form that is refused is
/// answered at once, as a submission that failed is.
pub open spec fn submission_of(
    pairs: Seq<(Seq<char>, Seq<char>)>,
    allowed: Option<Seq<char>>,
    short_domain: Seq<char>,
) -> SubmissionView {
    match url_in_form(pairs, allowed) {
        Ok(long_url) => SubmissionView::Accepted(long_url),
        Err(error) => SubmissionView::Refused(shorten::response_of(short_domain, Err(error))),
    }
}

/// Receives a submitted form: either the answer is ready, or there is a URL
/// to take to the store.
pub fn submit(form: &[u8], allowed: Option<&str>, short_domain: &str) -> (received: Submission)
    ensures
        received@ == submission_of(form_pairs(form@), allowed.deep_view(), short_domain@),
{
    match parse_url_from_form(form, allowed) {
        Ok(long_url) => Submission::Accepted(long_url),
        Err(error) => Submission::Refused(shorten::make_response(short_domain, Err(error))),
    }
}

/// A form whose `url` field is missing or empty is refused, whatever else it
/// holds: it is answered with status 500 and the reason, and no URL is left
/// that could be taken to the store.
pub proof fn lemma_form_without_url_is_refused(
    pairs: Seq<(Seq<char>, Seq<char>)>,
    allowed: Option<Seq<char>>,
    short_domain: Seq<char>,
)
    requires
        field(pairs, "url"@) is None || field(pairs, "url"@) == Some(Seq::<char>::empty()),
    ensures
        url_in_form(pairs, allowed) is Err,
        submission_of(pairs, allowed, short_domain) matches SubmissionView::Refused(response)
            && response.status == StatusCode::InternalServerError && response.location is None,
{
}

} // verus!
