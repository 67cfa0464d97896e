//! Giving out a short link for a long URL.
use vstd::prelude::*;
use vstd::string::StringExecFns;
use crate::db::models::{is_hash, NewLink, NewUrl, ShortLink};
use crate::db::store::{
    lemma_first_match_none, unexpected, unexpected_answer, Answer, Query, StoreReply,
    StoreRequest, Table,
};
use crate::http::{content_length, wire_length, ContentType, Response, ResponseView, StatusCode};

verus! {

/// How many hashes are tried for one URL before giving up.
pub const NUMBER_OF_HASH_ATTEMPTS: usize = 100;

/// A short link that was given out.
#[derive(Clone, Debug, PartialEq, Eq)]
pub struct ShortenResult {
    pub hash: String,
    /// Whether the link was there before this submission.
    pub already_existed: bool,
}

/// A `ShortenResult` with its hash as a character sequence.
pub struct Shortened {
    pub hash: Seq<char>,
    pub already_existed: bool,
}

impl View for ShortenResult {
    type V = Shortened;

    open spec fn view(&self) -> Shortened {
        Shortened { hash: self.hash@, already_existed: self.already_existed }
    }
}

/// Why a URL was not shortened.
#[derive(Clone, Debug, PartialEq, Eq)]
pub enum ShortenError {
    /// The form holds no field named `url`.
    MissingUrl,
    /// The form's `url` field is empty.
    EmptyUrl,
    /// The URL does not parse; `reason` is the parser's description.
    InvalidUrl { url: String, reason: String },
    /// The URL leads to `domain`, and only `expected` is served. A URL
    /// without a host has the empty domain.
    InvalidDomain { domain: String, expected: String },
    /// The store failed, with its description of the failure.
    Store(String),
    /// Every generated hash was refused by the store.
    HashesExhausted,
}

/// A `ShortenError` with its texts as character sequences.
pub enum ShortenErrorView {
    MissingUrl,
    EmptyUrl,
    InvalidUrl { url: Seq<char>, reason: Seq<char> },
    InvalidDomain { domain: Seq<char>, expected: Seq<char> },
    Store(Seq<char>),
    HashesExhausted,
}

impl View for ShortenError {
    type V = ShortenErrorView;

    open spec fn view(&self) -> ShortenErrorView {
        match self {
            ShortenError::MissingUrl => ShortenErrorView::MissingUrl,
            ShortenError::EmptyUrl => ShortenErrorView::EmptyUrl,
            ShortenError::InvalidUrl { url, reason } => ShortenErrorView::InvalidUrl {
                url: url@,
                reason: reason@,
            },
            ShortenError::InvalidDomain { domain, expected } => ShortenErrorView::InvalidDomain {
                domain: domain@,
                expected: expected@,
            },
            ShortenError::Store(description) => ShortenErrorView::Store(description@),
            ShortenError::HashesExhausted => ShortenErrorView::HashesExhausted,
        }
    }
}

impl ShortenErrorView {
    /// The sentence shown to the client.
    pub open spec fn message(self) -> Seq<char> {
        match self {
            ShortenErrorView::MissingUrl => "Missing form field 'url' for request to /shorten"@,
            ShortenErrorView::EmptyUrl => "Empty form field 'url' for request to /shorten"@,
            ShortenErrorView::InvalidUrl { url, reason } => "Invalid URL "@ + url + ": "@ + reason,
            ShortenErrorView::InvalidDomain { domain, expected } => "Invalid domain '"@ + domain
                + "', expected "@ + expected,
            ShortenErrorView::Store(description) => description,
            ShortenErrorView::HashesExhausted => "Could not find hash for URL"@,
        }
    }
}

impl ShortenError {
    /// The sentence shown to the client.
    pub fn message(&self) -> (text: String)
        ensures
            text@ == self@.message(),
    {
        match self {
            ShortenError::MissingUrl => String::from_str(
                "Missing form field 'url' for request to /shorten",
            ),
            ShortenError::EmptyUrl => String::from_str(
                "Empty form field 'url' for request to /shorten",
            ),
            ShortenError::InvalidUrl { url, reason } => {
                let mut text = String::from_str("Invalid URL ");
                text.append(url.as_str());
                text.append(": ");
                text.append(reason.as_str());
                text
            },
            ShortenError::InvalidDomain { domain, expected } => {
                let mut text = String::from_str("Invalid domain '");
                text.append(domain.as_str());
                text.append("', expected ");
                text.append(expected.as_str());
                text
            },
            ShortenError::Store(description) => description.clone(),
            ShortenError::HashesExhausted => String::from_str("Could not find hash for URL"),
        }
    }
}

/// How a submission ended, with its texts as character sequences.
pub open spec fn outcome_view(
    outcome: Result<ShortenResult, ShortenError>,
) -> Result<Shortened, ShortenErrorView> {
    match outcome {
        Ok(result) => Ok(result@),
        Err(error) => Err(error@),
    }
}

/// Where a submission stands while it waits for the store.
#[derive(Clone, Copy, Debug, PartialEq, Eq, Structural)]
pub enum ShortenState {
    /// The store was asked whether the URL has a hash already.
    Lookup,
    /// The store was asked to insert a fresh hash, for the `attempt`-th time.
    Insert { attempt: usize },
}

impl ShortenState {
    /// How many inserts were asked for so far.
    pub open spec fn attempts(self) -> int {
        match self {
            ShortenState::Lookup => 0,
            ShortenState::Insert { attempt } => attempt as int,
        }
    }

    /// A bound on the statements that may still follow.
    pub open spec fn statements_left(self) -> int {
        match self {
            ShortenState::Lookup => NUMBER_OF_HASH_ATTEMPTS + 1,
            ShortenState::Insert { attempt } => if attempt < NUMBER_OF_HASH_ATTEMPTS {
                NUMBER_OF_HASH_ATTEMPTS - attempt
            } else {
                0
            },
        }
    }
}

/// What a submission does next.
#[derive(Debug)]
pub enum ShortenStep<'a> {
    /// It asks the store, and waits in the given state.
    Ask(ShortenState, StoreRequest<'a>),
    /// It has ended.
    Done(Result<ShortenResult, ShortenError>),
}

/// A `ShortenStep` with its texts as character sequences.
pub enum ShortenStepView {
    Ask(ShortenState, Query),
    Done(Result<Shortened, ShortenErrorView>),
}

impl<'a> View for ShortenStep<'a> {
    type V = ShortenStepView;

    open spec fn view(&self) -> ShortenStepView {
        match self {
            ShortenStep::Ask(state, request) => ShortenStepView::Ask(*state, request@),
            ShortenStep::Done(outcome) => ShortenStepView::Done(outcome_view(*outcome)),
        }
    }
}

impl ShortenStepView {
    /// The hash of the insert that the step asks for; the empty text where it
    /// asks for none.
    pub open spec fn hash_drawn(self) -> Seq<char> {
        match self {
            ShortenStepView::Ask(_, Query::Insert(link)) => link.hash,
            _ => Seq::empty(),
        }
    }
}

/// The rule of a submission: what follows from the store's answer in each
/// state, where `fresh` is the hash that would be tried next.
///
/// A URL that has a record keeps its hash. One that has none gets a fresh
/// hash; as long as the store refuses the insert because the hash is taken,
/// another hash is tried, at most `NUMBER_OF_HASH_ATTEMPTS` in all. Nothing
/// else is tried again: a failure of the store ends the submission.
pub open spec fn shorten_next(
    long_url: Seq<char>,
    state: ShortenState,
    answer: Answer,
    fresh: Seq<char>,
) -> ShortenStepView {
    match state {
        ShortenState::Lookup => match answer {
            Answer::Row(link) => ShortenStepView::Done(
                Ok(Shortened { hash: link.hash, already_existed: true }),
            ),
            Answer::NotFound => ShortenStepView::Ask(
                ShortenState::Insert { attempt: 1 },
                Query::Insert(NewLink { hash: fresh, long_url }),
            ),
            Answer::Failed(description) => ShortenStepView::Done(
                Err(ShortenErrorView::Store(description)),
            ),
            _ => ShortenStepView::Done(Err(ShortenErrorView::Store(unexpected_answer()))),
        },
        ShortenState::Insert { attempt } => match answer {
            Answer::Inserted(hash) => ShortenStepView::Done(
                Ok(Shortened { hash, already_existed: false }),
            ),
            Answer::Conflict => if attempt < NUMBER_OF_HASH_ATTEMPTS {
                ShortenStepView::Ask(
                    ShortenState::Insert { attempt: (attempt + 1) as usize },
                    Query::Insert(NewLink { hash: fresh, long_url }),
                )
            } else {
                ShortenStepView::Done(Err(ShortenErrorView::HashesExhausted))
            },
            Answer::Failed(description) => ShortenStepView::Done(
                Err(ShortenErrorView::Store(description)),
            ),
            _ => ShortenStepView::Done(Err(ShortenErrorView::Store(unexpected_answer()))),
        },
    }
}

/// Begins a submission of `long_url`: the store is asked for its record.
pub fn start<'a>(long_url: &'a String) -> (first: (ShortenState, StoreRequest<'a>))
    ensures
        first.0 == ShortenState::Lookup,
        first.1@ == Query::FindByLongUrl(long_url@),
{
    (ShortenState::Lookup, StoreRequest::FindByLongUrl(long_url))
}

/// Takes a submission of `long_url` one step further: from the state it
/// waited in and the store's reply to what it does next. An insert that it
/// asks for carries a hash drawn at random.
pub fn get_hash<'a>(
    long_url: &'a String,
    state: ShortenState,
    reply: StoreReply,
) -> (step: ShortenStep<'a>)
    ensures
        step@ == shorten_next(long_url@, state, reply@, step@.hash_drawn()),
        step matches ShortenStep::Ask(_, StoreRequest::Insert(link)) ==> is_hash(link.hash@),
{
    match state {
        ShortenState::Lookup => match reply {
            StoreReply::Row(link) => ShortenStep::Done(
                Ok(ShortenResult { hash: link.hash, already_existed: true }),
            ),
            StoreReply::NotFound => ShortenStep::Ask(
                ShortenState::Insert { attempt: 1 },
                StoreRequest::Insert(NewUrl::new(long_url)),
            ),
            StoreReply::Failed(description) => ShortenStep::Done(
                Err(ShortenError::Store(description)),
            ),
            _ => ShortenStep::Done(Err(ShortenError::Store(unexpected()))),
        },
        ShortenState::Insert { attempt } => match reply {
            StoreReply::Inserted(hash) => ShortenStep::Done(
                Ok(ShortenResult { hash, already_existed: false }),
            ),
            StoreReply::Conflict => if attempt < NUMBER_OF_HASH_ATTEMPTS {
                ShortenStep::Ask(
                    ShortenState::Insert { attempt: attempt + 1 },
                    StoreRequest::Insert(NewUrl::new(long_url)),
                )
            } else {
                ShortenStep::Done(Err(ShortenError::HashesExhausted))
            },
            StoreReply::Failed(description) => ShortenStep::Done(
                Err(ShortenError::Store(description)),
            ),
            _ => ShortenStep::Done(Err(ShortenError::Store(unexpected()))),
        },
    }
}

/// The body that reports a submission: the short URL under `short_domain`
/// and whether it was there before, or the reason of the refusal.
pub open spec fn payload_of(
    short_domain: Seq<char>,
    outcome: Result<Shortened, ShortenErrorView>,
) -> Seq<char> {
    match outcome {
        Ok(result) => "{\"shortUrl\": \""@ + short_domain + "/"@ + result.hash
            + "\", \"alreadyExisted\": "@ + (if result.already_existed {
            "true"@
        } else {
            "false"@
        }) + "}"@,
        Err(error) => "{\"error\": \""@ + error.message() + "\"}"@,
    }
}

/// The answer to a submission: the payload as JSON, with status 200 where a
/// short link was given out and 500 where none was.
pub open spec fn response_of(
    short_domain: Seq<char>,
    outcome: Result<Shortened, ShortenErrorView>,
) -> ResponseView {
    let payload = payload_of(short_domain, outcome);
    ResponseView {
        status: if outcome is Ok {
            StatusCode::Success
        } else {
            StatusCode::InternalServerError
        },
        content_length: Some(wire_length(payload) as u64),
        content_type: Some(ContentType::Json),
        location: None,
        body: payload,
    }
}

/// Answers a submission.
pub fn make_response(
    short_domain: &str,
    maybe_result: Result<ShortenResult, ShortenError>,
) -> (response: Response)
    ensures
        response@ == response_of(short_domain@, outcome_view(maybe_result)),
{
    let (status, payload) = match maybe_result {
        Ok(result) => {
            let mut payload = String::from_str("{\"shortUrl\": \"");
            payload.append(short_domain);
            payload.append("/");
            payload.append(result.hash.as_str());
            payload.append("\", \"alreadyExisted\": ");
            if result.already_existed {
                payload.append("true");
            } else {
                payload.append("false");
            }
            payload.append("}");
            (StatusCode::Success, payload)
        },
        Err(error) => {
            let mut payload = String::from_str("{\"error\": \"");
            payload.append(error.message().as_str());
            payload.append("\"}");
            (StatusCode::InternalServerError, payload)
        },
    };
    Response {
        status,
        content_length: Some(content_length(payload.as_str())),
        content_type: Some(ContentType::Json),
        location: None,
        body: payload,
    }
}

/// A whole submission against a working store: the statements that the rule
/// asks for are put to `table` one after the other, until the rule ends.
/// `hashes` gives the hash that is drawn for each insert, counted from 0;
/// `now` is the time of the store. The result is the table that is left and
/// the outcome.
pub open spec fn shorten_run(
    table: Table,
    long_url: Seq<char>,
    state: ShortenState,
    query: Query,
    hashes: spec_fn(int) -> Seq<char>,
    now: std::time::SystemTime,
) -> (Table, Result<Shortened, ShortenErrorView>)
    decreases state.statements_left(),
{
    let (after, answer) = table.answer(query, now);
    match shorten_next(long_url, state, answer, hashes(state.attempts())) {
        ShortenStepView::Done(outcome) => (after, outcome),
        ShortenStepView::Ask(next_state, next_query) => shorten_run(
            after,
            long_url,
            next_state,
            next_query,
            hashes,
            now,
        ),
    }
}

/// A submission of `long_url` from its first statement on.
pub open spec fn shorten(
    table: Table,
    long_url: Seq<char>,
    hashes: spec_fn(int) -> Seq<char>,
    now: std::time::SystemTime,
) -> (Table, Result<Shortened, ShortenErrorView>) {
    shorten_run(table, long_url, ShortenState::Lookup, Query::FindByLongUrl(long_url), hashes, now)
}

/// The place, from `from` on, of the first hash that no record of `table`
/// has, among the hashes that a submission may try.
pub open spec fn first_free(
    table: Table,
    hashes: spec_fn(int) -> Seq<char>,
    from: int,
) -> Option<int>
    decreases NUMBER_OF_HASH_ATTEMPTS - from,
{
    if from < 0 || from >= NUMBER_OF_HASH_ATTEMPTS {
        None
    } else if table.by_hash(hashes(from)) is None {
        Some(from)
    } else {
        first_free(table, hashes, from + 1)
    }
}

/// What a submission comes to for a URL that has no record: the first hash
/// that is free is stored with the URL and given out; where none of the
/// hashes that may be tried is free, nothing is stored.
pub open spec fn stored_under(
    table: Table,
    long_url: Seq<char>,
    free: Option<int>,
    hashes: spec_fn(int) -> Seq<char>,
    now: std::time::SystemTime,
) -> (Table, Result<Shortened, ShortenErrorView>) {
    match free {
        Some(place) => (
            table.with(NewLink { hash: hashes(place), long_url }, now),
            Ok(Shortened { hash: hashes(place), already_existed: false }),
        ),
        None => (table, Err(ShortenErrorView::HashesExhausted)),
    }
}

/// The inserts of a submission, from the `attempt`-th on, store the URL
/// under the first hash still to come that is free.
proof fn lemma_inserts(
    table: Table,
    long_url: Seq<char>,
    attempt: usize,
    hashes: spec_fn(int) -> Seq<char>,
    now: std::time::SystemTime,
)
    requires
        1 <= attempt <= NUMBER_OF_HASH_ATTEMPTS,
    ensures
        shorten_run(
            table,
            long_url,
            ShortenState::Insert { attempt },
            Query::Insert(NewLink { hash: hashes(attempt - 1), long_url }),
            hashes,
            now,
        ) == stored_under(table, long_url, first_free(table, hashes, attempt - 1), hashes, now),
    decreases NUMBER_OF_HASH_ATTEMPTS - attempt,
{
    let link = NewLink { hash: hashes(attempt - 1), long_url };
    if table.by_hash(link.hash) is None {
        assert(first_free(table, hashes, attempt - 1) == Some(attempt - 1));
    } else if attempt < NUMBER_OF_HASH_ATTEMPTS {
        lemma_inserts(table, long_url, (attempt + 1) as usize, hashes, now);
        assert(first_free(table, hashes, attempt - 1) == first_free(table, hashes, attempt as int));
    } else {
        assert(first_free(table, hashes, attempt as int) is None);
        assert(first_free(table, hashes, attempt - 1) is None);
    }
}

/// A free hash that is found is one of the hashes that may be tried, and no
/// record has it.
proof fn lemma_first_free(table: Table, hashes: spec_fn(int) -> Seq<char>, from: int)
    requires
        0 <= from,
    ensures
        first_free(table, hashes, from) matches Some(place) ==> from <= place
            < NUMBER_OF_HASH_ATTEMPTS && table.by_hash(hashes(place)) is None,
    decreases NUMBER_OF_HASH_ATTEMPTS - from,
{
    if from < NUMBER_OF_HASH_ATTEMPTS && table.by_hash(hashes(from)) is Some {
        lemma_first_free(table, hashes, from + 1);
    }
}

/// What a submission comes to. A URL that has a record is given the hash of
/// that record, and the table is left alone. A URL that has none is stored
/// under the first of the hashes drawn that is free, if one of the first
/// `NUMBER_OF_HASH_ATTEMPTS` is; if none is, the hashes are exhausted and the
/// table is left alone.
pub proof fn lemma_submission(
    table: Table,
    long_url: Seq<char>,
    hashes: spec_fn(int) -> Seq<char>,
    now: std::time::SystemTime,
)
    ensures
        shorten(table, long_url, hashes, now) == match table.by_long_url(long_url) {
            Some(link) => (
                table,
                Ok::<Shortened, ShortenErrorView>(
                    Shortened { hash: link.hash, already_existed: true },
                ),
            ),
            None => stored_under(table, long_url, first_free(table, hashes, 0), hashes, now),
        },
        first_free(table, hashes, 0) matches Some(place) ==> 0 <= place
            < NUMBER_OF_HASH_ATTEMPTS && table.by_hash(hashes(place)) is None,
{
    lemma_first_free(table, hashes, 0);
    if table.by_long_url(long_url) is None {
        lemma_inserts(table, long_url, 1, hashes, now);
    }
}

/// A URL that is submitted again gets the hash that it was given the first
/// time and is reported as already there, whatever hashes are drawn the
/// second time; the second submission leaves the table as it found it.
pub proof fn lemma_resubmission_gives_same_hash(
    table: Table,
    long_url: Seq<char>,
    first_hashes: spec_fn(int) -> Seq<char>,
    first_time: std::time::SystemTime,
    second_hashes: spec_fn(int) -> Seq<char>,
    second_time: std::time::SystemTime,
)
    ensures
        ({
            let (after, first) = shorten(table, long_url, first_hashes, first_time);
            first matches Ok(given) ==> shorten(after, long_url, second_hashes, second_time) == (
                after,
                Ok::<Shortened, ShortenErrorView>(
                    Shortened { hash: given.hash, already_existed: true },
                ),
            )
        }),
{
    let (after, first) = shorten(table, long_url, first_hashes, first_time);
    lemma_submission(table, long_url, first_hashes, first_time);
    lemma_submission(after, long_url, second_hashes, second_time);
    if first is Ok && table.by_long_url(long_url) is None {
        assert(after.rows.drop_last() =~= table.rows);
        assert(after.rows.last().long_url == long_url);
        assert(after.by_long_url(long_url) == Some(after.rows.last()));
    }
}

/// A submission never stores a hash twice. It leaves the table alone or adds
/// one record, for a URL that had none and under a hash that no record had.
/// So in a table whose hashes are unique they are unique afterwards, and so
/// are its long URLs where they were: a well-formed table stays well-formed.
pub proof fn lemma_submission_keeps_table_well_formed(
    table: Table,
    long_url: Seq<char>,
    hashes: spec_fn(int) -> Seq<char>,
    now: std::time::SystemTime,
)
    ensures
        ({
            let (after, outcome) = shorten(table, long_url, hashes, now);
            &&& table.unique_hashes() ==> after.unique_hashes()
            &&& table.unique_long_urls() ==> after.unique_long_urls()
            &&& table.well_formed() ==> after.well_formed()
            &&& after == table || {
                &&& after.rows.len() == table.rows.len() + 1
                &&& after.rows.drop_last() == table.rows
                &&& after.rows.last().long_url == long_url
                &&& table.by_long_url(long_url) is None
                &&& table.by_hash(after.rows.last().hash) is None
            }
        }),
{
    let (after, outcome) = shorten(table, long_url, hashes, now);
    lemma_submission(table, long_url, hashes, now);
    if after != table {
        let given = outcome->Ok_0;
        assert(after.rows.drop_last() =~= table.rows);
        lemma_first_match_none(table.rows, |link: ShortLink| link.hash == given.hash);
        lemma_first_match_none(table.rows, |link: ShortLink| link.long_url == long_url);
        if table.unique_hashes() {
            assert forall|i: int, j: int| 0 <= i < j < after.rows.len() implies (
            #[trigger] after.rows[i]).hash != (#[trigger] after.rows[j]).hash by {
                assert(after.rows[i] == table.rows[i]);
                if j < table.rows.len() {
                    assert(after.rows[j] == table.rows[j]);
                }
            }
        }
        if table.unique_long_urls() {
            assert forall|i: int, j: int| 0 <= i < j < after.rows.len() implies (
            #[trigger] after.rows[i]).long_url != (#[trigger] after.rows[j]).long_url by {
                assert(after.rows[i] == table.rows[i]);
                if j < table.rows.len() {
                    assert(after.rows[j] == table.rows[j]);
                }
            }
        }
    }
}

} // verus!
