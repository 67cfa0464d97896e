//! What the handlers ask of the store and what it answers, together with a
//! model of the `urls` table that says what a working store does.
//!
//! The handlers never reach the store themselves. They hand out a
//! `StoreRequest`, and whoever runs them brings back the `StoreReply`.
use vstd::prelude::*;
use vstd::string::StringExecFns;
use crate::db::models::{NewLink, NewUrl, ShortLink, Url};

verus! {

/// One statement for the store.
#[derive(Debug)]
pub enum StoreRequest<'a> {
    /// Select the record with this long URL.
    FindByLongUrl(&'a String),
    /// Insert this record; the store answers with the hash it stored.
    Insert(NewUrl<'a>),
    /// Select the long URL of the record with this hash.
    FindLongUrl(&'a str),
    /// Add one to the access count of the record with this hash; the store
    /// answers with the new count.
    CountAccess(&'a str),
}

/// A `StoreRequest` with its texts as character sequences.
pub enum Query {
    FindByLongUrl(Seq<char>),
    Insert(NewLink),
    FindLongUrl(Seq<char>),
    CountAccess(Seq<char>),
}

impl<'a> View for StoreRequest<'a> {
    type V = Query;

    open spec fn view(&self) -> Query {
        match self {
            StoreRequest::FindByLongUrl(long_url) => Query::FindByLongUrl(long_url@),
            StoreRequest::Insert(link) => Query::Insert(link@),
            StoreRequest::FindLongUrl(hash) => Query::FindLongUrl(hash@),
            StoreRequest::CountAccess(hash) => Query::CountAccess(hash@),
        }
    }
}

/// What the store answered.
#[derive(Debug)]
pub enum StoreReply {
    /// The record that was selected.
    Row(Url),
    /// The long URL that was selected.
    LongUrl(String),
    /// The hash of the record that was inserted.
    Inserted(String),
    /// The access count after it was raised.
    Counted(i32),
    /// No record matched.
    NotFound,
    /// The insert was refused because the hash is taken.
    Conflict,
    /// The statement failed, with the store's description of the failure.
    Failed(String),
}

/// A `StoreReply` with its texts as character sequences.
pub enum Answer {
    Row(ShortLink),
    LongUrl(Seq<char>),
    Inserted(Seq<char>),
    Counted(int),
    NotFound,
    Conflict,
    Failed(Seq<char>),
}

impl View for StoreReply {
    type V = Answer;

    open spec fn view(&self) -> Answer {
        match self {
            StoreReply::Row(link) => Answer::Row(link@),
            StoreReply::LongUrl(long_url) => Answer::LongUrl(long_url@),
            StoreReply::Inserted(hash) => Answer::Inserted(hash@),
            StoreReply::Counted(count) => Answer::Counted(*count as int),
            StoreReply::NotFound => Answer::NotFound,
            StoreReply::Conflict => Answer::Conflict,
            StoreReply::Failed(description) => Answer::Failed(description@),
        }
    }
}

/// What the client is told when the store answers with something that was
/// not asked for.
pub open spec fn unexpected_answer() -> Seq<char> {
    "The store gave an answer that was not asked for"@
}

/// The sentence for an answer that was not asked for.
pub fn unexpected() -> (text: String)
    ensures
        text@ == unexpected_answer(),
{
    String::from_str("The store gave an answer that was not asked for")
}

/// The first of `rows` that is `wanted`.
pub open spec fn first_match(
    rows: Seq<ShortLink>,
    wanted: spec_fn(ShortLink) -> bool,
) -> Option<ShortLink>
    decreases rows.len(),
{
    if rows.len() == 0 {
        None
    } else {
        match first_match(rows.drop_last(), wanted) {
            Some(found) => Some(found),
            None => if wanted(rows.last()) {
                Some(rows.last())
            } else {
                None
            },
        }
    }
}

/// Nothing is found exactly when no row is wanted.
pub proof fn lemma_first_match_none(rows: Seq<ShortLink>, wanted: spec_fn(ShortLink) -> bool)
    ensures
        first_match(rows, wanted) is None <==> forall|i: int|
            0 <= i < rows.len() ==> !wanted(#[trigger] rows[i]),
    decreases rows.len(),
{
    if rows.len() > 0 {
        let front = rows.drop_last();
        lemma_first_match_none(front, wanted);
        if first_match(rows, wanted) is None {
            assert forall|i: int| 0 <= i < rows.len() implies !wanted(#[trigger] rows[i]) by {
                if i < front.len() {
                    assert(front[i] == rows[i]);
                }
            }
        } else if first_match(front, wanted) is None {
            assert(wanted(rows[rows.len() - 1]));
        } else {
            let i = choose|i: int| 0 <= i < front.len() && wanted(#[trigger] front[i]);
            assert(front[i] == rows[i]);
        }
    }
}

/// What is found is one of the rows, it is wanted, and no row before it is.
pub proof fn lemma_first_match_some(rows: Seq<ShortLink>, wanted: spec_fn(ShortLink) -> bool)
    requires
        first_match(rows, wanted) is Some,
    ensures
        exists|i: int|
            0 <= i < rows.len() && #[trigger] rows[i] == first_match(rows, wanted)->0 && wanted(
                rows[i],
            ) && forall|j: int| 0 <= j < i ==> !wanted(#[trigger] rows[j]),
    decreases rows.len(),
{
    let front = rows.drop_last();
    let found = first_match(rows, wanted)->0;
    if first_match(front, wanted) is Some {
        lemma_first_match_some(front, wanted);
        let i = choose|i: int|
            0 <= i < front.len() && #[trigger] front[i] == found && wanted(front[i]) && forall|
                j: int,
            |
                0 <= j < i ==> !wanted(#[trigger] front[j]);
        assert(rows[i] == front[i]);
        assert forall|j: int| 0 <= j < i implies !wanted(#[trigger] rows[j]) by {
            assert(rows[j] == front[j]);
        }
    } else {
        lemma_first_match_none(front, wanted);
        let i = rows.len() - 1;
        assert(rows[i] == found);
        assert forall|j: int| 0 <= j < i implies !wanted(#[trigger] rows[j]) by {
            assert(rows[j] == front[j]);
        }
    }
}

/// The `urls` table: its records, in the order in which they were inserted.
pub struct Table {
    pub rows: Seq<ShortLink>,
}

impl Table {
    /// The record that a selection by long URL finds.
    pub open spec fn by_long_url(self, long_url: Seq<char>) -> Option<ShortLink> {
        first_match(self.rows, |link: ShortLink| link.long_url == long_url)
    }

    /// The record that a selection by hash finds.
    pub open spec fn by_hash(self, hash: Seq<char>) -> Option<ShortLink> {
        first_match(self.rows, |link: ShortLink| link.hash == hash)
    }

    /// No two records share a hash: `hash` is the table's key.
    pub open spec fn unique_hashes(self) -> bool {
        forall|i: int, j: int|
            0 <= i < j < self.rows.len() ==> (#[trigger] self.rows[i]).hash != (
            #[trigger] self.rows[j]).hash
    }

    /// No two records share a long URL.
    pub open spec fn unique_long_urls(self) -> bool {
        forall|i: int, j: int|
            0 <= i < j < self.rows.len() ==> (#[trigger] self.rows[i]).long_url != (
            #[trigger] self.rows[j]).long_url
    }

    /// What holds of the table between any two submissions.
    pub open spec fn well_formed(self) -> bool {
        self.unique_hashes() && self.unique_long_urls()
    }

    /// The table with one more record, as an insert at the time `now` leaves
    /// it: the new record has not been followed yet.
    pub open spec fn with(self, link: NewLink, now: std::time::SystemTime) -> Table {
        Table {
            rows: self.rows.push(
                ShortLink {
                    hash: link.hash,
                    long_url: link.long_url,
                    creation_time: now,
                    access_count: 0,
                },
            ),
        }
    }

    /// The table after the records with this hash were followed once more.
    /// Nothing else changes.
    pub open spec fn counted(self, hash: Seq<char>) -> Table {
        Table {
            rows: Seq::new(
                self.rows.len(),
                |i: int|
                    if self.rows[i].hash == hash {
                        ShortLink { access_count: self.rows[i].access_count + 1, ..self.rows[i] }
                    } else {
                        self.rows[i]
                    },
            ),
        }
    }

    /// What a working store does with a statement at the time `now`: the
    /// table it leaves and its answer. An insert under a hash that is taken
    /// is refused and changes nothing.
    pub open spec fn answer(self, query: Query, now: std::time::SystemTime) -> (Table, Answer) {
        match query {
            Query::FindByLongUrl(long_url) => match self.by_long_url(long_url) {
                Some(link) => (self, Answer::Row(link)),
                None => (self, Answer::NotFound),
            },
            Query::Insert(link) => if self.by_hash(link.hash) is Some {
                (self, Answer::Conflict)
            } else {
                (self.with(link, now), Answer::Inserted(link.hash))
            },
            Query::FindLongUrl(hash) => match self.by_hash(hash) {
                Some(link) => (self, Answer::LongUrl(link.long_url)),
                None => (self, Answer::NotFound),
            },
            Query::CountAccess(hash) => match self.by_hash(hash) {
                Some(link) => (self.counted(hash), Answer::Counted(link.access_count + 1)),
                None => (self, Answer::NotFound),
            },
        }
    }
}

/// No statement breaks the table. The records that were there stay, each at
/// its place, with its hash, its long URL and its creation time; an access
/// count stays or rises by one; at most one record is added; and hashes that
/// were unique are unique afterwards.
pub proof fn lemma_records_persist(table: Table, query: Query, now: std::time::SystemTime)
    ensures
        ({
            let after = table.answer(query, now).0;
            &&& table.rows.len() <= after.rows.len() <= table.rows.len() + 1
            &&& forall|i: int|
                0 <= i < table.rows.len() ==> {
                    let old_link = #[trigger] table.rows[i];
                    let new_link = after.rows[i];
                    &&& new_link.hash == old_link.hash
                    &&& new_link.long_url == old_link.long_url
                    &&& new_link.creation_time == old_link.creation_time
                    &&& old_link.access_count <= new_link.access_count <= old_link.access_count
                        + 1
                }
            &&& table.unique_hashes() ==> after.unique_hashes()
        }),
{
    let after = table.answer(query, now).0;
    match query {
        Query::Insert(link) => {
            if table.by_hash(link.hash) is None {
                lemma_first_match_none(table.rows, |other: ShortLink| other.hash == link.hash);
                if table.unique_hashes() {
                    assert forall|i: int, j: int| 0 <= i < j < after.rows.len() implies (
                    #[trigger] after.rows[i]).hash != (#[trigger] after.rows[j]).hash by {
                        assert(after.rows[i] == table.rows[i]);
                        if j < table.rows.len() {
                            assert(after.rows[j] == table.rows[j]);
                        }
                    }
                }
            }
        },
        Query::CountAccess(hash) => {
            if table.unique_hashes() {
                assert forall|i: int, j: int| 0 <= i < j < after.rows.len() implies (
                #[trigger] after.rows[i]).hash != (#[trigger] after.rows[j]).hash by {
                    assert(after.rows[i].hash == table.rows[i].hash);
                    assert(after.rows[j].hash == table.rows[j].hash);
                }
            }
        },
        _ => {},
    }
}

} // verus!
