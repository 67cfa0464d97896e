//! A URL shortener: the decisions of the psag.cc service, apart from its
//! sockets, its files and its database.
//!
//! A long URL is submitted in a form and gets a short hash; a request for the
//! hash is sent on to the long URL, and each such access is counted.
//!
//! * `service` finds the handler for a request and reads the URL out of a
//!   submitted form.
//! * `url_shortener::shorten` and `url_shortener::resolve` are the two
//!   handlers that need the store. Neither reaches it: each is a rule that
//!   goes from the store's last reply to the next statement, and whoever runs
//!   the service puts the statements to the database. Both come with a model
//!   run against the table of `db::store`, and with what is proved of such
//!   runs.
//! * `url_shortener::resource_manager` holds the pages, which the
//!   `handlebars` crate compiles and renders.
//! * `db` holds the records and the hashes, `http` the answers, `text` the
//!   comparisons on strings.
//!
//! What is taken on trust is small and marked: the functions with
//! `external_body`, one `assume_specification`, and the named results that
//! they speak of. Each says in its comment what it calls and what it claims.
pub mod db;
pub mod http;
pub mod service;
pub mod text;
pub mod url_shortener;
