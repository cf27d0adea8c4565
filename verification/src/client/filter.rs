//! Filters, and the predicates they render to.
//!
//! A filter renders to a fragment of query text and a list of typed
//! parameters. The fragment holds one `?` for each parameter, in the order of
//! the list, so that no value given by the user is ever part of the text.

use crate::decimal::{decimal, decimal_text, signed_decimal, signed_decimal_text};
use crate::model::{ErrorsFilter, QueriesFilter};
use crate::timestamp::{format_instant, now_utc, utc_text, TimeSpan, Timestamp};
use vstd::prelude::*;
use vstd::string::StringExecFns;

verus! {

/// A value that takes the place of one `?`.
#[derive(Clone, Debug, PartialEq, Eq)]
pub enum QueryParam {
    DateTime(Timestamp),
    UInt64(u64),
    Int32(i32),
    String(String),
}

/// What a [`QueryParam`] holds, with text as a sequence of characters.
pub enum QueryParamView {
    DateTime(Timestamp),
    UInt64(u64),
    Int32(i32),
    String(Seq<char>),
}

impl View for QueryParam {
    type V = QueryParamView;

    open spec fn view(&self) -> QueryParamView {
        match self {
            QueryParam::DateTime(at) => QueryParamView::DateTime(*at),
            QueryParam::UInt64(n) => QueryParamView::UInt64(*n),
            QueryParam::Int32(n) => QueryParamView::Int32(*n),
            QueryParam::String(text) => QueryParamView::String(text@),
        }
    }
}

impl DeepView for QueryParam {
    type V = QueryParamView;

    open spec fn deep_view(&self) -> QueryParamView {
        self@
    }
}

/// A timestamp could not be written as text.
#[derive(Clone, Debug, PartialEq, Eq)]
pub struct FormatError {
    /// What the formatter said.
    pub reason: String,
}

/// The format of a timestamp in a query: `YYYY-MM-DD HH:MM:SS`.
pub open spec fn datetime_format() -> Seq<char> {
    "[year]-[month]-[day] [hour]:[minute]:[second]"@
}

impl QueryParamView {
    /// The text that is sent for the parameter: a timestamp on the UTC
    /// calendar as `YYYY-MM-DD HH:MM:SS`, an integer in decimal, a text as it
    /// is. A timestamp that the formatter does not write has the message of
    /// the formatter instead.
    pub open spec fn sql_text(self) -> Result<Seq<char>, Seq<char>> {
        match self {
            QueryParamView::DateTime(at) => utc_text(at.unix_nanos, datetime_format()),
            QueryParamView::UInt64(n) => Ok(decimal(n as nat)),
            QueryParamView::Int32(n) => Ok(signed_decimal(n as int)),
            QueryParamView::String(text) => Ok(text),
        }
    }
}

impl QueryParam {
    /// What [`QueryParam::to_sql_string`] returns for a timestamp, given what
    /// the formatter made of it.
    pub fn written_datetime(formatted: Result<String, String>) -> (text: Result<
        String,
        FormatError,
    >)
        ensures
            match formatted {
                Ok(written) => text == Ok::<String, FormatError>(written),
                Err(reason) => text == Err::<String, FormatError>(FormatError { reason }),
            },
    {
        match formatted {
            Ok(written) => Ok(written),
            Err(reason) => Err(FormatError { reason }),
        }
    }

    /// The text that is sent for the parameter. An integer and a text always
    /// have one; a timestamp has one unless the formatter refuses it, and
    /// then the error holds what the formatter said.
    pub fn to_sql_string(&self) -> (text: Result<String, FormatError>)
        ensures
            match self@.sql_text() {
                Ok(expected) => text matches Ok(written) && written@ == expected,
                Err(message) => text matches Err(e) && e.reason@ == message,
            },
            !(self is DateTime) ==> text is Ok,
    {
        match self {
            QueryParam::DateTime(at) => {
                let formatted = format_instant(
                    at.unix_nanos,
                    Some("[year]-[month]-[day] [hour]:[minute]:[second]"),
                );
                QueryParam::written_datetime(formatted)
            },
            QueryParam::UInt64(n) => Ok(decimal_text(*n)),
            QueryParam::Int32(n) => Ok(signed_decimal_text(*n)),
            QueryParam::String(text) => Ok(text.clone()),
        }
    }
}

/// One condition of a predicate: its text, and the parameters that take the
/// places of the `?` in the text, in their order.
pub struct Clause {
    pub text: Seq<char>,
    pub params: Seq<QueryParamView>,
}

/// The texts of the clauses, in their order.
pub open spec fn clause_texts(clauses: Seq<Clause>) -> Seq<Seq<char>> {
    clauses.map_values(|c: Clause| c.text)
}

/// The parameters of the clauses, in the order of the clauses.
pub open spec fn clause_params(clauses: Seq<Clause>) -> Seq<QueryParamView>
    decreases clauses.len(),
{
    if clauses.len() == 0 {
        Seq::empty()
    } else {
        clause_params(clauses.drop_last()) + clauses.last().params
    }
}

/// `n` placeholders, separated by commas: `?, ?, ?`.
pub open spec fn placeholders(n: nat) -> Seq<char>
    decreases n,
{
    if n == 0 {
        Seq::empty()
    } else if n == 1 {
        "?"@
    } else {
        placeholders((n - 1) as nat) + ", "@ + "?"@
    }
}

/// The texts with `separator` between each two of them.
pub open spec fn joined(texts: Seq<Seq<char>>, separator: Seq<char>) -> Seq<char>
    decreases texts.len(),
{
    if texts.len() == 0 {
        Seq::empty()
    } else if texts.len() == 1 {
        texts[0]
    } else {
        joined(texts.drop_last(), separator) + separator + texts.last()
    }
}

/// The fragment that is added to a query: empty where there is no clause,
/// else every clause behind an `AND`.
pub open spec fn conjunction(texts: Seq<Seq<char>>) -> Seq<char> {
    if texts.len() == 0 {
        Seq::empty()
    } else {
        "AND "@ + joined(texts, " AND "@)
    }
}

/// The clause that compares a column with one parameter.
pub open spec fn comparison(text: Seq<char>, param: QueryParamView) -> Clause {
    Clause { text, params: seq![param] }
}

/// The clause that looks a column up in a list: `head`, one placeholder for
/// each name, `tail`.
pub open spec fn membership(head: Seq<char>, tail: Seq<char>, params: Seq<QueryParamView>) -> Clause {
    Clause { text: head + placeholders(params.len()) + tail, params }
}

/// The names as text parameters.
pub open spec fn text_params(names: Seq<Seq<char>>) -> Seq<QueryParamView> {
    names.map_values(|name: Seq<char>| QueryParamView::String(name))
}

/// The codes as integer parameters.
pub open spec fn code_params(codes: Seq<i32>) -> Seq<QueryParamView> {
    codes.map_values(|code: i32| QueryParamView::Int32(code))
}

/// `clauses` with one more clause at the end where `wanted` holds.
pub open spec fn and_if(clauses: Seq<Clause>, wanted: bool, clause: Clause) -> Seq<Clause> {
    if wanted {
        clauses.push(clause)
    } else {
        clauses
    }
}

/// The number of placeholders in a text.
pub open spec fn marks(text: Seq<char>) -> nat
    decreases text.len(),
{
    if text.len() == 0 {
        0
    } else {
        marks(text.drop_last()) + if text.last() == '?' {
            1nat
        } else {
            0nat
        }
    }
}

/// The number of placeholders in all of the texts.
pub open spec fn marks_in(texts: Seq<Seq<char>>) -> nat
    decreases texts.len(),
{
    if texts.len() == 0 {
        0
    } else {
        marks_in(texts.drop_last()) + marks(texts.last())
    }
}

/// A clause has one placeholder for each of its parameters.
pub open spec fn balanced(clause: Clause) -> bool {
    marks(clause.text) == clause.params.len()
}

proof fn lemma_marks_none(text: Seq<char>)
    requires
        forall|i: int| 0 <= i < text.len() ==> text[i] != '?',
    ensures
        marks(text) == 0,
    decreases text.len(),
{
    if text.len() > 0 {
        lemma_marks_none(text.drop_last());
    }
}

proof fn lemma_marks_concat(a: Seq<char>, b: Seq<char>)
    ensures
        marks(a + b) == marks(a) + marks(b),
    decreases b.len(),
{
    if b.len() == 0 {
        assert(a + b =~= a);
    } else {
        lemma_marks_concat(a, b.drop_last());
        assert((a + b).drop_last() =~= a + b.drop_last());
    }
}

proof fn lemma_marks_one(text: Seq<char>, at: int)
    requires
        0 <= at < text.len(),
        text[at] == '?',
        forall|i: int| 0 <= i < text.len() && i != at ==> text[i] != '?',
    ensures
        marks(text) == 1,
{
    let head = text.take(at);
    let mark = seq![text[at]];
    let tail = text.skip(at + 1);
    assert(text =~= head + mark + tail);
    lemma_marks_concat(head + mark, tail);
    lemma_marks_concat(head, mark);
    lemma_marks_none(head);
    lemma_marks_none(tail);
    assert(mark.drop_last() =~= Seq::<char>::empty());
    assert(marks(mark.drop_last()) == 0);
    assert(mark.last() == '?');
    assert(marks(mark) == 1);
}

proof fn lemma_marks_placeholders(n: nat)
    ensures
        marks(placeholders(n)) == n,
    decreases n,
{
    reveal_strlit("?");
    reveal_strlit(", ");
    if n == 1 {
        lemma_marks_one("?"@, 0);
    } else if n > 1 {
        lemma_marks_placeholders((n - 1) as nat);
        lemma_marks_one("?"@, 0);
        lemma_marks_none(", "@);
        lemma_marks_concat(placeholders((n - 1) as nat), ", "@);
        lemma_marks_concat(placeholders((n - 1) as nat) + ", "@, "?"@);
    }
}

proof fn lemma_marks_joined(texts: Seq<Seq<char>>, separator: Seq<char>)
    requires
        marks(separator) == 0,
    ensures
        marks(joined(texts, separator)) == marks_in(texts),
    decreases texts.len(),
{
    if texts.len() == 1 {
        assert(marks_in(texts.drop_last()) == 0);
        assert(texts.last() == texts[0]);
    } else if texts.len() > 1 {
        lemma_marks_joined(texts.drop_last(), separator);
        lemma_marks_concat(joined(texts.drop_last(), separator), separator);
        lemma_marks_concat(joined(texts.drop_last(), separator) + separator, texts.last());
    }
}

proof fn lemma_marks_conjunction(texts: Seq<Seq<char>>)
    ensures
        marks(conjunction(texts)) == marks_in(texts),
{
    reveal_strlit("AND ");
    reveal_strlit(" AND ");
    if texts.len() > 0 {
        lemma_marks_none("AND "@);
        lemma_marks_none(" AND "@);
        lemma_marks_joined(texts, " AND "@);
        lemma_marks_concat("AND "@, joined(texts, " AND "@));
    }
}

proof fn lemma_balanced_clauses(clauses: Seq<Clause>)
    requires
        forall|i: int| 0 <= i < clauses.len() ==> balanced(#[trigger] clauses[i]),
    ensures
        marks_in(clause_texts(clauses)) == clause_params(clauses).len(),
    decreases clauses.len(),
{
    if clauses.len() > 0 {
        let shorter = clauses.drop_last();
        assert forall|i: int| 0 <= i < shorter.len() implies balanced(#[trigger] shorter[i]) by {
            assert(shorter[i] == clauses[i]);
        }
        lemma_balanced_clauses(shorter);
        assert(clause_texts(clauses).drop_last() =~= clause_texts(shorter));
        assert(balanced(clauses.last()));
    }
}

proof fn lemma_membership_balanced(head: Seq<char>, tail: Seq<char>, params: Seq<QueryParamView>)
    requires
        forall|i: int| 0 <= i < head.len() ==> head[i] != '?',
        forall|i: int| 0 <= i < tail.len() ==> tail[i] != '?',
    ensures
        balanced(membership(head, tail, params)),
{
    lemma_marks_none(head);
    lemma_marks_none(tail);
    lemma_marks_placeholders(params.len());
    lemma_marks_concat(head, placeholders(params.len()));
    lemma_marks_concat(head + placeholders(params.len()), tail);
}

proof fn lemma_and_if_balanced(clauses: Seq<Clause>, wanted: bool, clause: Clause)
    requires
        forall|i: int| 0 <= i < clauses.len() ==> balanced(#[trigger] clauses[i]),
        balanced(clause),
    ensures
        forall|i: int|
            0 <= i < and_if(clauses, wanted, clause).len() ==> balanced(
                #[trigger] and_if(clauses, wanted, clause)[i],
            ),
{
}

/// A predicate under construction: the texts of its clauses and the
/// parameters of all of them, in order.
pub struct Predicate {
    clauses: Vec<String>,
    params: Vec<QueryParam>,
}

/// Writes `n` placeholders, separated by commas.
fn placeholders_text(n: usize) -> (text: String)
    ensures
        text@ == placeholders(n as nat),
{
    let mut text = String::new();
    let mut written: usize = 0;
    while written < n
        invariant
            written <= n,
            text@ == placeholders(written as nat),
        decreases n - written,
    {
        if written > 0 {
            text.append(", ");
        }
        text.append("?");
        written = written + 1;
        assert(text@ =~= placeholders(written as nat));
    }
    text
}

/// `head`, then `n` placeholders, then `tail`.
fn membership_text(head: &str, n: usize, tail: &str) -> (text: String)
    ensures
        text@ == head@ + placeholders(n as nat) + tail@,
{
    let mut text = String::from_str(head);
    let marks = placeholders_text(n);
    text.append(marks.as_str());
    text.append(tail);
    text
}

/// The names as text parameters.
fn text_params_of(names: &Vec<String>) -> (params: Vec<QueryParam>)
    ensures
        params.deep_view() == text_params(names.deep_view()),
{
    let mut params: Vec<QueryParam> = Vec::new();
    let mut i: usize = 0;
    while i < names.len()
        invariant
            i <= names.len(),
            params.deep_view() == text_params(names.deep_view().take(i as int)),
        decreases names.len() - i,
    {
        let ghost before = params.deep_view();
        let name = names[i].clone();
        params.push(QueryParam::String(name));
        proof {
            let shorter = names.deep_view().take(i as int);
            let longer = names.deep_view().take(i + 1);
            assert(longer =~= shorter.push(names[i as int]@));
            assert(params.deep_view() =~= before.push(QueryParamView::String(name@)));
            assert(text_params(longer) =~= text_params(shorter).push(
                QueryParamView::String(names[i as int]@),
            ));
        }
        i = i + 1;
    }
    assert(names.deep_view().take(names.len() as int) =~= names.deep_view());
    params
}

/// The codes as integer parameters.
fn code_params_of(codes: &Vec<i32>) -> (params: Vec<QueryParam>)
    ensures
        params.deep_view() == code_params(codes@),
{
    let mut params: Vec<QueryParam> = Vec::new();
    let mut i: usize = 0;
    while i < codes.len()
        invariant
            i <= codes.len(),
            params.deep_view() == code_params(codes@.take(i as int)),
        decreases codes.len() - i,
    {
        let ghost before = params.deep_view();
        params.push(QueryParam::Int32(codes[i]));
        proof {
            let shorter = codes@.take(i as int);
            let longer = codes@.take(i + 1);
            assert(longer =~= shorter.push(codes[i as int]));
            assert(params.deep_view() =~= before.push(QueryParamView::Int32(codes[i as int])));
            assert(code_params(longer) =~= code_params(shorter).push(
                QueryParamView::Int32(codes[i as int]),
            ));
        }
        i = i + 1;
    }
    assert(codes@.take(codes.len() as int) =~= codes@);
    params
}

impl Predicate {
    /// The texts of the clauses, in their order.
    pub closed spec fn texts(&self) -> Seq<Seq<char>> {
        self.clauses.deep_view()
    }

    /// The parameters of all clauses, in their order.
    pub closed spec fn params(&self) -> Seq<QueryParamView> {
        self.params.deep_view()
    }

    /// The predicate is made of exactly these clauses.
    pub open spec fn holds(&self, clauses: Seq<Clause>) -> bool {
        &&& self.texts() == clause_texts(clauses)
        &&& self.params() == clause_params(clauses)
    }

    /// A predicate without clauses: it holds of every row.
    pub fn new() -> (predicate: Predicate)
        ensures
            predicate.holds(Seq::empty()),
    {
        let predicate = Predicate { clauses: Vec::new(), params: Vec::new() };
        assert(predicate.texts() =~= clause_texts(Seq::empty()));
        assert(predicate.params() =~= clause_params(Seq::empty()));
        predicate
    }

    /// Adds one clause with the parameters for its placeholders.
    pub fn add_clause(&mut self, text: String, params: Vec<QueryParam>)
        ensures
            final(self).texts() == old(self).texts().push(text@),
            final(self).params() == old(self).params() + params.deep_view(),
            forall|clauses: Seq<Clause>| #[trigger]
                old(self).holds(clauses) ==> final(self).holds(
                    clauses.push(Clause { text: text@, params: params.deep_view() }),
                ),
    {
        let ghost added = params.deep_view();
        let mut params = params;
        self.clauses.push(text);
        self.params.append(&mut params);
        assert(self.texts() =~= old(self).texts().push(text@));
        assert(self.params() =~= old(self).params() + added);
        assert forall|clauses: Seq<Clause>| #[trigger] old(self).holds(clauses) implies self.holds(
            clauses.push(Clause { text: text@, params: added }),
        ) by {
            let longer = clauses.push(Clause { text: text@, params: added });
            assert(longer.drop_last() =~= clauses);
            assert(clause_texts(longer) =~= clause_texts(clauses).push(text@));
        }
    }

    /// The fragment and the parameters: every clause behind an `AND`, or the
    /// empty text where there is no clause.
    pub fn build(self) -> (built: (String, Vec<QueryParam>))
        ensures
            built.0@ == conjunction(self.texts()),
            built.1.deep_view() == self.params(),
    {
        let mut text = String::new();
        let mut i: usize = 0;
        let ghost texts = self.clauses.deep_view();
        while i < self.clauses.len()
            invariant
                i <= self.clauses.len(),
                texts == self.clauses.deep_view(),
                text@ == conjunction(texts.take(i as int)),
            decreases self.clauses.len() - i,
        {
            if i == 0 {
                text.append("AND ");
            } else {
                text.append(" AND ");
            }
            text.append(self.clauses[i].as_str());
            proof {
                let shorter = texts.take(i as int);
                let longer = texts.take(i + 1);
                assert(longer.drop_last() =~= shorter);
                assert(longer.last() == texts[i as int]);
                if i == 0 {
                    assert(longer[0] == texts[0]);
                    assert(text@ =~= conjunction(longer));
                } else {
                    assert(text@ =~= conjunction(longer));
                }
            }
            i = i + 1;
        }
        assert(texts.take(texts.len() as int) =~= texts);
        (text, self.params)
    }
}

/// The window, the names and the thresholds that select rows of the query
/// log.
#[derive(Clone, Debug, PartialEq, Eq)]
pub struct QueryLogFilter {
    pub from: Option<Timestamp>,
    pub to: Option<Timestamp>,
    pub last: Option<TimeSpan>,
    pub users: Vec<String>,
    pub databases: Vec<String>,
    pub tables: Vec<String>,
    pub min_query_duration: Option<TimeSpan>,
    pub min_read_rows: Option<u64>,
    /// In bytes.
    pub min_read_data: Option<u64>,
}

impl From<QueriesFilter> for QueryLogFilter {
    fn from(filter: QueriesFilter) -> (made: QueryLogFilter) {
        QueryLogFilter {
            from: filter.from,
            to: filter.to,
            last: filter.last,
            users: filter.users,
            tables: filter.tables,
            databases: filter.databases,
            min_query_duration: filter.min_query_duration,
            min_read_rows: filter.min_read_rows,
            min_read_data: filter.min_read_data,
        }
    }
}

impl vstd::std_specs::convert::FromSpecImpl<QueriesFilter> for QueryLogFilter {
    open spec fn obeys_from_spec() -> bool {
        true
    }

    open spec fn from_spec(filter: QueriesFilter) -> QueryLogFilter {
        QueryLogFilter {
            from: filter.from,
            to: filter.to,
            last: filter.last,
            users: filter.users,
            tables: filter.tables,
            databases: filter.databases,
            min_query_duration: filter.min_query_duration,
            min_read_rows: filter.min_read_rows,
            min_read_data: filter.min_read_data,
        }
    }
}

impl QueryLogFilter {
    /// The clauses of the filter, where `now` is the time at which a window
    /// given as a span ends: the lower bound of the window (an instant, or
    /// `now` less the span), its upper bound, which is exclusive, the users,
    /// the least rows read, bytes read and duration, the tables, the
    /// databases.
    pub open spec fn clauses(&self, now: Timestamp) -> Seq<Clause> {
        let c = Seq::<Clause>::empty();
        let c = and_if(
            c,
            self.from is Some,
            comparison(
                "event_time >= toDateTime(?, 'UTC')"@,
                QueryParamView::DateTime(self.from->0),
            ),
        );
        let c = and_if(
            c,
            self.last is Some,
            comparison(
                "event_time >= toDateTime(?, 'UTC')"@,
                QueryParamView::DateTime(now.earlier_by(self.last->0)),
            ),
        );
        let c = and_if(
            c,
            self.to is Some,
            comparison("event_time < toDateTime(?, 'UTC')"@, QueryParamView::DateTime(self.to->0)),
        );
        let c = and_if(
            c,
            self.users.len() > 0,
            membership("user IN ("@, ")"@, text_params(self.users.deep_view())),
        );
        let c = and_if(
            c,
            self.min_read_rows is Some,
            comparison("read_rows >= ?"@, QueryParamView::UInt64(self.min_read_rows->0)),
        );
        let c = and_if(
            c,
            self.min_read_data is Some,
            comparison("read_bytes >= ?"@, QueryParamView::UInt64(self.min_read_data->0)),
        );
        let c = and_if(
            c,
            self.min_query_duration is Some,
            comparison(
                "query_duration_ms >= ?"@,
                QueryParamView::UInt64((self.min_query_duration->0).millis_u64()),
            ),
        );
        let c = and_if(
            c,
            self.tables.len() > 0,
            membership(
                "hasAny(query_log.tables, ["@,
                "])"@,
                text_params(self.tables.deep_view()),
            ),
        );
        let c = and_if(
            c,
            self.databases.len() > 0,
            membership(
                "hasAny(query_log.databases, ["@,
                "])"@,
                text_params(self.databases.deep_view()),
            ),
        );
        c
    }

    /// The fragment and the parameters of the filter, for a window that ends
    /// at `now` where it is given as a span.
    pub fn build_where_at(&self, now: Timestamp) -> (built: (String, Vec<QueryParam>))
        ensures
            built.0@ == conjunction(clause_texts(self.clauses(now))),
            built.1.deep_view() == clause_params(self.clauses(now)),
            marks(built.0@) == built.1.len(),
    {
        proof {
            lemma_where_marks_match_params(*self, now);
        }
        let mut predicate = Predicate::new();
        let ghost mut c = Seq::<Clause>::empty();

        if let Some(from) = self.from {
            let mut params = Vec::new();
            params.push(QueryParam::DateTime(from));
            assert(params.deep_view() =~= seq![QueryParamView::DateTime(from)]);
            predicate.add_clause(String::from_str("event_time >= toDateTime(?, 'UTC')"), params);
        }
        proof {
            c = and_if(
                c,
                self.from is Some,
                comparison(
                    "event_time >= toDateTime(?, 'UTC')"@,
                    QueryParamView::DateTime(self.from->0),
                ),
            );
        }
        assert(predicate.holds(c));
        if let Some(last) = self.last {
            let threshold = now.minus(last);
            let mut params = Vec::new();
            params.push(QueryParam::DateTime(threshold));
            assert(params.deep_view() =~= seq![QueryParamView::DateTime(threshold)]);
            predicate.add_clause(String::from_str("event_time >= toDateTime(?, 'UTC')"), params);
        }
        proof {
            c = and_if(
                c,
                self.last is Some,
                comparison(
                    "event_time >= toDateTime(?, 'UTC')"@,
                    QueryParamView::DateTime(now.earlier_by(self.last->0)),
                ),
            );
        }
        assert(predicate.holds(c));
        if let Some(to) = self.to {
            let mut params = Vec::new();
            params.push(QueryParam::DateTime(to));
            assert(params.deep_view() =~= seq![QueryParamView::DateTime(to)]);
            predicate.add_clause(String::from_str("event_time < toDateTime(?, 'UTC')"), params);
        }
        proof {
            c = and_if(
                c,
                self.to is Some,
                comparison(
                    "event_time < toDateTime(?, 'UTC')"@,
                    QueryParamView::DateTime(self.to->0),
                ),
            );
        }
        assert(predicate.holds(c));

        if self.users.len() > 0 {
            let text = membership_text("user IN (", self.users.len(), ")");
            predicate.add_clause(text, text_params_of(&self.users));
        }
        proof {
            c = and_if(
                c,
                self.users.len() > 0,
                membership("user IN ("@, ")"@, text_params(self.users.deep_view())),
            );
        }
        assert(predicate.holds(c));
        if let Some(min_read_rows) = self.min_read_rows {
            let mut params = Vec::new();
            params.push(QueryParam::UInt64(min_read_rows));
            assert(params.deep_view() =~= seq![QueryParamView::UInt64(min_read_rows)]);
            predicate.add_clause(String::from_str("read_rows >= ?"), params);
        }
        proof {
            c = and_if(
                c,
                self.min_read_rows is Some,
                comparison("read_rows >= ?"@, QueryParamView::UInt64(self.min_read_rows->0)),
            );
        }
        assert(predicate.holds(c));
        if let Some(min_read_bytes) = self.min_read_data {
            let mut params = Vec::new();
            params.push(QueryParam::UInt64(min_read_bytes));
            assert(params.deep_view() =~= seq![QueryParamView::UInt64(min_read_bytes)]);
            predicate.add_clause(String::from_str("read_bytes >= ?"), params);
        }
        proof {
            c = and_if(
                c,
                self.min_read_data is Some,
                comparison("read_bytes >= ?"@, QueryParamView::UInt64(self.min_read_data->0)),
            );
        }
        assert(predicate.holds(c));
        if let Some(min_query_duration) = self.min_query_duration {
            let millis = min_query_duration.as_millis_u64();
            let mut params = Vec::new();
            params.push(QueryParam::UInt64(millis));
            assert(params.deep_view() =~= seq![QueryParamView::UInt64(millis)]);
            predicate.add_clause(String::from_str("query_duration_ms >= ?"), params);
        }
        proof {
            c = and_if(
                c,
                self.min_query_duration is Some,
                comparison(
                    "query_duration_ms >= ?"@,
                    QueryParamView::UInt64((self.min_query_duration->0).millis_u64()),
                ),
            );
        }
        assert(predicate.holds(c));

        if self.tables.len() > 0 {
            let text = membership_text("hasAny(query_log.tables, [", self.tables.len(), "])");
            predicate.add_clause(text, text_params_of(&self.tables));
        }
        proof {
            c = and_if(
                c,
                self.tables.len() > 0,
                membership(
                    "hasAny(query_log.tables, ["@,
                    "])"@,
                    text_params(self.tables.deep_view()),
                ),
            );
        }
        assert(predicate.holds(c));
        if self.databases.len() > 0 {
            let text = membership_text(
                "hasAny(query_log.databases, [",
                self.databases.len(),
                "])",
            );
            predicate.add_clause(text, text_params_of(&self.databases));
        }
        proof {
            c = and_if(
                c,
                self.databases.len() > 0,
                membership(
                    "hasAny(query_log.databases, ["@,
                    "])"@,
                    text_params(self.databases.deep_view()),
                ),
            );
        }
        assert(predicate.holds(c));
        assert(c == self.clauses(now));

        predicate.build()
    }

    /// The fragment and the parameters of the filter. A window that is given
    /// as a span ends when this is called: the clock is read for it.
    pub fn build_where(&self) -> (built: (String, Vec<QueryParam>))
        ensures
            exists|now: Timestamp|
                {
                    &&& built.0@ == conjunction(clause_texts(#[trigger] self.clauses(now)))
                    &&& built.1.deep_view() == clause_params(self.clauses(now))
                },
            marks(built.0@) == built.1.len(),
    {
        let now = match self.last {
            Some(_) => now_utc(),
            None => Timestamp { unix_nanos: 0 },
        };
        self.build_where_at(now)
    }
}

/// The fragment of a filter holds one placeholder for each of its
/// parameters.
pub proof fn lemma_where_marks_match_params(filter: QueryLogFilter, now: Timestamp)
    ensures
        marks(conjunction(clause_texts(filter.clauses(now)))) == clause_params(
            filter.clauses(now),
        ).len(),
{
    reveal_strlit("event_time >= toDateTime(?, 'UTC')");
    reveal_strlit("event_time < toDateTime(?, 'UTC')");
    reveal_strlit("user IN (");
    reveal_strlit(")");
    reveal_strlit("read_rows >= ?");
    reveal_strlit("read_bytes >= ?");
    reveal_strlit("query_duration_ms >= ?");
    reveal_strlit("hasAny(query_log.tables, [");
    reveal_strlit("hasAny(query_log.databases, [");
    reveal_strlit("])");
    lemma_marks_one("event_time >= toDateTime(?, 'UTC')"@, 25);
    lemma_marks_one("event_time < toDateTime(?, 'UTC')"@, 24);
    lemma_marks_one("read_rows >= ?"@, 13);
    lemma_marks_one("read_bytes >= ?"@, 14);
    lemma_marks_one("query_duration_ms >= ?"@, 21);
    lemma_membership_balanced("user IN ("@, ")"@, text_params(filter.users.deep_view()));
    lemma_membership_balanced(
        "hasAny(query_log.tables, ["@,
        "])"@,
        text_params(filter.tables.deep_view()),
    );
    lemma_membership_balanced(
        "hasAny(query_log.databases, ["@,
        "])"@,
        text_params(filter.databases.deep_view()),
    );

    let lower = "event_time >= toDateTime(?, 'UTC')"@;
    let c0 = Seq::<Clause>::empty();
    let k1 = comparison(lower, QueryParamView::DateTime(filter.from->0));
    let c1 = and_if(c0, filter.from is Some, k1);
    lemma_and_if_balanced(c0, filter.from is Some, k1);
    let k2 = comparison(lower, QueryParamView::DateTime(now.earlier_by(filter.last->0)));
    let c2 = and_if(c1, filter.last is Some, k2);
    lemma_and_if_balanced(c1, filter.last is Some, k2);
    let k3 = comparison(
        "event_time < toDateTime(?, 'UTC')"@,
        QueryParamView::DateTime(filter.to->0),
    );
    let c3 = and_if(c2, filter.to is Some, k3);
    lemma_and_if_balanced(c2, filter.to is Some, k3);
    let k4 = membership("user IN ("@, ")"@, text_params(filter.users.deep_view()));
    let c4 = and_if(c3, filter.users.len() > 0, k4);
    lemma_and_if_balanced(c3, filter.users.len() > 0, k4);
    let k5 = comparison("read_rows >= ?"@, QueryParamView::UInt64(filter.min_read_rows->0));
    let c5 = and_if(c4, filter.min_read_rows is Some, k5);
    lemma_and_if_balanced(c4, filter.min_read_rows is Some, k5);
    let k6 = comparison("read_bytes >= ?"@, QueryParamView::UInt64(filter.min_read_data->0));
    let c6 = and_if(c5, filter.min_read_data is Some, k6);
    lemma_and_if_balanced(c5, filter.min_read_data is Some, k6);
    let k7 = comparison(
        "query_duration_ms >= ?"@,
        QueryParamView::UInt64((filter.min_query_duration->0).millis_u64()),
    );
    let c7 = and_if(c6, filter.min_query_duration is Some, k7);
    lemma_and_if_balanced(c6, filter.min_query_duration is Some, k7);
    let k8 = membership(
        "hasAny(query_log.tables, ["@,
        "])"@,
        text_params(filter.tables.deep_view()),
    );
    let c8 = and_if(c7, filter.tables.len() > 0, k8);
    lemma_and_if_balanced(c7, filter.tables.len() > 0, k8);
    let k9 = membership(
        "hasAny(query_log.databases, ["@,
        "])"@,
        text_params(filter.databases.deep_view()),
    );
    let c9 = and_if(c8, filter.databases.len() > 0, k9);
    lemma_and_if_balanced(c8, filter.databases.len() > 0, k9);
    assert(c9 == filter.clauses(now));
    lemma_balanced_clauses(c9);
    lemma_marks_conjunction(clause_texts(c9));
}

/// Without a window given as a span, the clauses do not depend on the time
/// at which they are built.
pub proof fn lemma_clauses_without_span(filter: QueryLogFilter, now: Timestamp, later: Timestamp)
    requires
        filter.last is None,
    ensures
        filter.clauses(now) == filter.clauses(later),
{
}

/// The window, the threshold and the codes that select error counters.
#[derive(Clone, Debug, PartialEq, Eq)]
pub struct ErrorFilter {
    pub last: Option<TimeSpan>,
    pub min_count: Option<usize>,
    pub code: Vec<i32>,
}

impl From<ErrorsFilter> for ErrorFilter {
    fn from(args: ErrorsFilter) -> (made: ErrorFilter) {
        ErrorFilter { last: args.last, min_count: args.min_count, code: args.code }
    }
}

impl vstd::std_specs::convert::FromSpecImpl<ErrorsFilter> for ErrorFilter {
    open spec fn obeys_from_spec() -> bool {
        true
    }

    open spec fn from_spec(args: ErrorsFilter) -> ErrorFilter {
        ErrorFilter { last: args.last, min_count: args.min_count, code: args.code }
    }
}

impl ErrorFilter {
    /// The clauses on single counters: the codes that are asked for.
    pub open spec fn where_clauses(&self) -> Seq<Clause> {
        and_if(
            Seq::<Clause>::empty(),
            self.code.len() > 0,
            membership("code IN ("@, ")"@, code_params(self.code@)),
        )
    }

    /// The clauses on the counters of one code taken together, where `now`
    /// is the time at which the window ends: the least count, and the
    /// earliest time at which the error was last seen.
    pub open spec fn having_clauses(&self, now: Timestamp) -> Seq<Clause> {
        let c = Seq::<Clause>::empty();
        let c = and_if(
            c,
            self.min_count is Some,
            comparison("count >= ?"@, QueryParamView::UInt64((self.min_count->0) as u64)),
        );
        let c = and_if(
            c,
            self.last is Some,
            comparison(
                "last_error_time >= toDateTime(?, 'UTC')"@,
                QueryParamView::DateTime(now.earlier_by(self.last->0)),
            ),
        );
        c
    }

    /// The fragment and the parameters that select single counters.
    pub fn build_where(&self) -> (built: (String, Vec<QueryParam>))
        ensures
            built.0@ == conjunction(clause_texts(self.where_clauses())),
            built.1.deep_view() == clause_params(self.where_clauses()),
            marks(built.0@) == built.1.len(),
    {
        proof {
            lemma_error_marks_match_params(*self, Timestamp { unix_nanos: 0 });
        }
        let mut predicate = Predicate::new();
        if self.code.len() > 0 {
            let text = membership_text("code IN (", self.code.len(), ")");
            predicate.add_clause(text, code_params_of(&self.code));
        }
        assert(predicate.holds(self.where_clauses()));
        predicate.build()
    }

    /// The fragment and the parameters that select codes by their counters
    /// taken together, for a window that ends at `now`.
    pub fn build_having_at(&self, now: Timestamp) -> (built: (String, Vec<QueryParam>))
        ensures
            built.0@ == conjunction(clause_texts(self.having_clauses(now))),
            built.1.deep_view() == clause_params(self.having_clauses(now)),
            marks(built.0@) == built.1.len(),
    {
        proof {
            lemma_error_marks_match_params(*self, now);
        }
        let mut predicate = Predicate::new();
        let ghost mut c = Seq::<Clause>::empty();

        if let Some(min_count) = self.min_count {
            let mut params = Vec::new();
            params.push(QueryParam::UInt64(min_count as u64));
            assert(params.deep_view() =~= seq![QueryParamView::UInt64(min_count as u64)]);
            predicate.add_clause(String::from_str("count >= ?"), params);
        }
        proof {
            c = and_if(
                c,
                self.min_count is Some,
                comparison("count >= ?"@, QueryParamView::UInt64((self.min_count->0) as u64)),
            );
        }
        assert(predicate.holds(c));
        if let Some(last) = self.last {
            let threshold = now.minus(last);
            let mut params = Vec::new();
            params.push(QueryParam::DateTime(threshold));
            assert(params.deep_view() =~= seq![QueryParamView::DateTime(threshold)]);
            predicate.add_clause(
                String::from_str("last_error_time >= toDateTime(?, 'UTC')"),
                params,
            );
        }
        proof {
            c = and_if(
                c,
                self.last is Some,
                comparison(
                    "last_error_time >= toDateTime(?, 'UTC')"@,
                    QueryParamView::DateTime(now.earlier_by(self.last->0)),
                ),
            );
        }
        assert(predicate.holds(c));

        predicate.build()
    }

    /// The fragment and the parameters that select codes by their counters
    /// taken together. The window ends when this is called: the clock is read
    /// for it.
    pub fn build_having(&self) -> (built: (String, Vec<QueryParam>))
        ensures
            exists|now: Timestamp|
                {
                    &&& built.0@ == conjunction(clause_texts(#[trigger] self.having_clauses(now)))
                    &&& built.1.deep_view() == clause_params(self.having_clauses(now))
                },
            marks(built.0@) == built.1.len(),
    {
        let now = match self.last {
            Some(_) => now_utc(),
            None => Timestamp { unix_nanos: 0 },
        };
        self.build_having_at(now)
    }
}

/// The fragments of an error filter hold one placeholder for each of their
/// parameters.
pub proof fn lemma_error_marks_match_params(filter: ErrorFilter, now: Timestamp)
    ensures
        marks(conjunction(clause_texts(filter.where_clauses()))) == clause_params(
            filter.where_clauses(),
        ).len(),
        marks(conjunction(clause_texts(filter.having_clauses(now)))) == clause_params(
            filter.having_clauses(now),
        ).len(),
{
    reveal_strlit("code IN (");
    reveal_strlit(")");
    reveal_strlit("count >= ?");
    reveal_strlit("last_error_time >= toDateTime(?, 'UTC')");
    lemma_membership_balanced("code IN ("@, ")"@, code_params(filter.code@));
    lemma_marks_one("count >= ?"@, 9);
    lemma_marks_one("last_error_time >= toDateTime(?, 'UTC')"@, 30);

    let c0 = Seq::<Clause>::empty();
    let k = membership("code IN ("@, ")"@, code_params(filter.code@));
    lemma_and_if_balanced(c0, filter.code.len() > 0, k);
    lemma_balanced_clauses(filter.where_clauses());
    lemma_marks_conjunction(clause_texts(filter.where_clauses()));

    let k1 = comparison("count >= ?"@, QueryParamView::UInt64((filter.min_count->0) as u64));
    let c1 = and_if(c0, filter.min_count is Some, k1);
    lemma_and_if_balanced(c0, filter.min_count is Some, k1);
    let k2 = comparison(
        "last_error_time >= toDateTime(?, 'UTC')"@,
        QueryParamView::DateTime(now.earlier_by(filter.last->0)),
    );
    let c2 = and_if(c1, filter.last is Some, k2);
    lemma_and_if_balanced(c1, filter.last is Some, k2);
    assert(c2 == filter.having_clauses(now));
    lemma_balanced_clauses(c2);
    lemma_marks_conjunction(clause_texts(c2));
}

} // verus!
