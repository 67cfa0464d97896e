//! Following a short link to its long URL.
use vstd::prelude::*;
use vstd::string::StringExecFns;
use crate::db::models::ShortLink;
use crate::db::store::{
    lemma_first_match_some, unexpected, unexpected_answer, Answer, Query, StoreReply,
    StoreRequest, Table,
};
use crate::http::{Response, ResponseView, StatusCode};
use crate::service::{page_answer, page_response, page_response_of, redirect, redirect_to};
use crate::url_shortener::resource_manager::{
    rendered_view, ResourceError, ResourceErrorView, ResourceManager,
};

verus! {

/// Why a short link was not followed.
#[derive(Clone, Debug, PartialEq, Eq)]
pub enum ResolveError {
    /// No record has this hash.
    UnknownHash(String),
    /// The store failed, with its description of the failure.
    Store(String),
}

/// A `ResolveError` with its texts as character sequences.
pub enum ResolveErrorView {
    UnknownHash(Seq<char>),
    Store(Seq<char>),
}

impl View for ResolveError {
    type V = ResolveErrorView;

    open spec fn view(&self) -> ResolveErrorView {
        match self {
            ResolveError::UnknownHash(hash) => ResolveErrorView::UnknownHash(hash@),
            ResolveError::Store(description) => ResolveErrorView::Store(description@),
        }
    }
}

impl ResolveErrorView {
    /// The sentence shown to the client.
    pub open spec fn message(self) -> Seq<char> {
        match self {
            ResolveErrorView::UnknownHash(hash) => "Could not resolve "@ + hash,
            ResolveErrorView::Store(description) => description,
        }
    }

    /// The status of the answer: an unknown link is not found, a failure of
    /// the store is the server's.
    pub open spec fn status(self) -> StatusCode {
        match self {
            ResolveErrorView::UnknownHash(_) => StatusCode::NotFound,
            ResolveErrorView::Store(_) => StatusCode::InternalServerError,
        }
    }
}

impl ResolveError {
    /// The sentence shown to the client.
    pub fn message(&self) -> (text: String)
        ensures
            text@ == self@.message(),
    {
        match self {
            ResolveError::UnknownHash(hash) => {
                let mut text = String::from_str("Could not resolve ");
                text.append(hash.as_str());
                text
            },
            ResolveError::Store(description) => description.clone(),
        }
    }

    /// The status of the answer.
    pub fn status(&self) -> (status: StatusCode)
        ensures
            status == self@.status(),
    {
        match self {
            ResolveError::UnknownHash(_) => StatusCode::NotFound,
            ResolveError::Store(_) => StatusCode::InternalServerError,
        }
    }
}

/// How following a link ended, with its texts as character sequences.
pub open spec fn outcome_view(
    outcome: Result<String, ResolveError>,
) -> Result<Seq<char>, ResolveErrorView> {
    match outcome {
        Ok(long_url) => Ok(long_url@),
        Err(error) => Err(error@),
    }
}

/// Where the following of a link stands while it waits for the store.
#[derive(Clone, Debug, PartialEq, Eq)]
pub enum ResolveState {
    /// The store was asked for the long URL.
    Lookup,
    /// The long URL is known, and the store was asked to count the access.
    Count { long_url: String },
}

/// A `ResolveState` with its text as a character sequence.
pub enum ResolveStateView {
    Lookup,
    Count { long_url: Seq<char> },
}

impl View for ResolveState {
    type V = ResolveStateView;

    open spec fn view(&self) -> ResolveStateView {
        match self {
            ResolveState::Lookup => ResolveStateView::Lookup,
            ResolveState::Count { long_url } => ResolveStateView::Count { long_url: long_url@ },
        }
    }
}

impl ResolveStateView {
    /// A bound on the statements that may still follow.
    pub open spec fn statements_left(self) -> int {
        match self {
            ResolveStateView::Lookup => 1,
            ResolveStateView::Count { long_url } => 0,
        }
    }
}

/// What the following of a link does next.
#[derive(Debug)]
pub enum ResolveStep<'a> {
    /// It asks the store, and waits in the given state.
    Ask(ResolveState, StoreRequest<'a>),
    /// It has ended.
    Done(Result<String, ResolveError>),
}

/// A `ResolveStep` with its texts as character sequences.
pub enum ResolveStepView {
    Ask(ResolveStateView, Query),
    Done(Result<Seq<char>, ResolveErrorView>),
}

impl<'a> View for ResolveStep<'a> {
    type V = ResolveStepView;

    open spec fn view(&self) -> ResolveStepView {
        match self {
            ResolveStep::Ask(state, request) => ResolveStepView::Ask(state@, request@),
            ResolveStep::Done(outcome) => ResolveStepView::Done(outcome_view(*outcome)),
        }
    }
}

/// The rule of following a link: what follows from the store's answer in
/// each state. A link is followed only after its access was counted.
pub open spec fn resolve_next(
    hash: Seq<char>,
    state: ResolveStateView,
    answer: Answer,
) -> ResolveStepView {
    match answer {
        Answer::NotFound => ResolveStepView::Done(Err(ResolveErrorView::UnknownHash(hash))),
        Answer::Failed(description) => ResolveStepView::Done(
            Err(ResolveErrorView::Store(description)),
        ),
        Answer::LongUrl(long_url) if state is Lookup => ResolveStepView::Ask(
            ResolveStateView::Count { long_url },
            Query::CountAccess(hash),
        ),
        Answer::Counted(_) if state is Count => ResolveStepView::Done(Ok(state->long_url)),
        _ => ResolveStepView::Done(Err(ResolveErrorView::Store(unexpected_answer()))),
    }
}

/// Begins to follow the link `hash`: the store is asked for its long URL.
pub fn start<'a>(hash: &'a str) -> (first: (ResolveState, StoreRequest<'a>))
    ensures
        first.0@ == ResolveStateView::Lookup,
        first.1@ == Query::FindLongUrl(hash@),
{
    (ResolveState::Lookup, StoreRequest::FindLongUrl(hash))
}

/// Takes the following of the link `hash` one step further: from the state
/// it waited in and the store's reply to what it does next.
pub fn resolve_url<'a>(
    hash: &'a str,
    state: ResolveState,
    reply: StoreReply,
) -> (step: ResolveStep<'a>)
    ensures
        step@ == resolve_next(hash@, state@, reply@),
{
    match reply {
        StoreReply::NotFound => ResolveStep::Done(
            Err(ResolveError::UnknownHash(String::from_str(hash))),
        ),
        StoreReply::Failed(description) => ResolveStep::Done(Err(ResolveError::Store(description))),
        StoreReply::LongUrl(long_url) => match state {
            ResolveState::Lookup => ResolveStep::Ask(
                ResolveState::Count { long_url },
                StoreRequest::CountAccess(hash),
            ),
            ResolveState::Count { long_url: _ } => unexpected_end(),
        },
        StoreReply::Counted(_) => match state {
            ResolveState::Count { long_url } => ResolveStep::Done(Ok(long_url)),
            ResolveState::Lookup => unexpected_end(),
        },
        _ => unexpected_end(),
    }
}

/// The end of a link whose store answered with something that was not asked
/// for.
fn unexpected_end<'a>() -> (step: ResolveStep<'a>)
    ensures
        step@ == ResolveStepView::Done(Err(ResolveErrorView::Store(unexpected_answer()))),
{
    ResolveStep::Done(Err(ResolveError::Store(unexpected())))
}

/// The values that the page `resolve-error` is rendered with: the reason,
/// under the name `why`.
pub open spec fn error_values(error: ResolveErrorView) -> Seq<(Seq<char>, Seq<char>)> {
    seq![("why"@, error.message())]
}

/// The answer to a request for a short link, where `page` is what rendering
/// the error page gave: a link that was followed leads on to its long URL,
/// and one that was not is answered with the error page, under the status of
/// the error.
pub open spec fn response_of(
    outcome: Result<Seq<char>, ResolveErrorView>,
    page: Result<Seq<char>, ResourceErrorView>,
) -> ResponseView {
    match outcome {
        Ok(long_url) => redirect_to(long_url),
        Err(error) => page_response_of(error.status(), page),
    }
}

/// Answers a request for a short link, given its outcome and what rendering
/// the error page gave.
pub fn answer(
    result: Result<String, ResolveError>,
    page: Result<String, ResourceError>,
) -> (response: Response)
    ensures
        response@ == response_of(outcome_view(result), rendered_view(page)),
{
    match result {
        Ok(long_url) => redirect(long_url),
        Err(error) => page_response(error.status(), page),
    }
}

/// Answers a request for a short link. The error page is rendered only where
/// the link was not followed.
pub fn make_response(
    resource_manager: &ResourceManager,
    result: Result<String, ResolveError>,
) -> (response: Response)
    ensures
        match outcome_view(result) {
            Ok(long_url) => response@ == redirect_to(long_url),
            Err(error) => page_answer(
                *resource_manager,
                "resolve-error"@,
                Some(error_values(error)),
                error.status(),
                response@,
            ),
        },
{
    match result {
        Ok(long_url) => redirect(long_url),
        Err(error) => {
            let mut values: Vec<(String, String)> = Vec::new();
            values.push((String::from_str("why"), error.message()));
            assert(values.deep_view() =~= error_values(error@));
            let page = resource_manager.render_template("resolve-error", &values);
            answer(Err(error), page)
        },
    }
}

/// The whole following of a link against a working store: the statements
/// that the rule asks for are put to `table` one after the other, until the
/// rule ends. The result is the table that is left and the outcome.
pub open spec fn resolve_run(
    table: Table,
    hash: Seq<char>,
    state: ResolveStateView,
    query: Query,
    now: std::time::SystemTime,
) -> (Table, Result<Seq<char>, ResolveErrorView>)
    decreases state.statements_left(),
{
    let (after, answer) = table.answer(query, now);
    match resolve_next(hash, state, answer) {
        ResolveStepView::Done(outcome) => (after, outcome),
        ResolveStepView::Ask(next_state, next_query) => resolve_run(
            after,
            hash,
            next_state,
            next_query,
            now,
        ),
    }
}

/// The following of the link `hash` from its first statement on.
pub open spec fn resolve(
    table: Table,
    hash: Seq<char>,
    now: std::time::SystemTime,
) -> (Table, Result<Seq<char>, ResolveErrorView>) {
    resolve_run(table, hash, ResolveStateView::Lookup, Query::FindLongUrl(hash), now)
}

/// A hash that no record has is never followed: the outcome is the error
/// that names the hash, the table is left alone, and the answer, whatever
/// came of rendering the error page, reports an error and leads nowhere.
pub proof fn lemma_unknown_hash_is_refused(
    table: Table,
    hash: Seq<char>,
    now: std::time::SystemTime,
    page: Result<Seq<char>, ResourceErrorView>,
)
    requires
        table.by_hash(hash) is None,
    ensures
        resolve(table, hash, now) == (
            table,
            Err::<Seq<char>, ResolveErrorView>(ResolveErrorView::UnknownHash(hash)),
        ),
        response_of(resolve(table, hash, now).1, page).status.is_error(),
        !response_of(resolve(table, hash, now).1, page).status.is_redirect(),
        response_of(resolve(table, hash, now).1, page).location is None,
{
}

/// No link that was not followed is answered with a redirect, whatever the
/// reason and whatever came of rendering the error page.
pub proof fn lemma_error_is_no_redirect(
    error: ResolveErrorView,
    page: Result<Seq<char>, ResourceErrorView>,
)
    ensures
        response_of(Err(error), page).status.is_error(),
        !response_of(Err(error), page).status.is_redirect(),
        response_of(Err(error), page).location is None,
{
}

/// A hash that a record has is followed to the long URL of that record: the
/// answer is a redirect with status 308 to that URL, and the access is
/// counted once. In a table whose hashes are unique, the counting changes
/// one record, the one with this hash, and adds exactly one to its access
/// count.
pub proof fn lemma_known_hash_is_followed(
    table: Table,
    hash: Seq<char>,
    now: std::time::SystemTime,
    page: Result<Seq<char>, ResourceErrorView>,
)
    requires
        table.by_hash(hash) is Some,
    ensures
        ({
            let link = table.by_hash(hash)->0;
            let (after, outcome) = resolve(table, hash, now);
            &&& outcome == Ok::<Seq<char>, ResolveErrorView>(link.long_url)
            &&& response_of(outcome, page).status.number() == 308
            &&& response_of(outcome, page).location == Some(link.long_url)
            &&& after == table.counted(hash)
            &&& table.unique_hashes() ==> exists|place: int|
                0 <= place < table.rows.len() && #[trigger] table.rows[place] == link
                    && after.rows == table.rows.update(
                    place,
                    ShortLink { access_count: link.access_count + 1, ..link },
                )
        }),
{
    reveal_with_fuel(resolve_run, 2);
    let link = table.by_hash(hash)->0;
    let after = table.counted(hash);
    if table.unique_hashes() {
        lemma_first_match_some(table.rows, |other: ShortLink| other.hash == hash);
        let place = choose|place: int|
            0 <= place < table.rows.len() && #[trigger] table.rows[place] == link && link.hash
                == hash;
        assert(after.rows =~= table.rows.update(
            place,
            ShortLink { access_count: link.access_count + 1, ..link },
        )) by {
            assert forall|i: int| 0 <= i < table.rows.len() && i != place implies (
            #[trigger] table.rows[i]).hash != hash by {
                if i < place {
                    assert(table.rows[i].hash != table.rows[place].hash);
                } else {
                    assert(table.rows[place].hash != table.rows[i].hash);
                }
            }
        }
    }
}

} // verus!
