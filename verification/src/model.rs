//! The rows that the nodes send, the records they are merged into, and the
//! requests that the commands hand to the pipeline.

use crate::cli::{ErrorFilterArgs, QueriesFilterArgs};
use crate::timestamp::{TimeSpan, Timestamp};
use vstd::prelude::*;

verus! {

/// The value of `n` in unsigned 64-bit arithmetic that saturates: `n` itself
/// where it fits, the largest value otherwise.
pub open spec fn saturated(n: int) -> u64 {
    if n > u64::MAX {
        u64::MAX
    } else if n < 0 {
        0
    } else {
        n as u64
    }
}

/// How the output is written.
#[derive(Clone, Copy, Debug, PartialEq, Eq, Structural)]
pub enum OutputFormat {
    Json,
    Yaml,
    Text,
}

/// The number by which grouped queries are ranked: one of the impact
/// scores, or one of the counters.
#[derive(Clone, Copy, Debug, PartialEq, Eq, Structural)]
pub enum QueriesSortBy {
    TotalImpact,
    IOImpact,
    CPUImpact,
    MemoryImpact,
    TimeImpact,
    NetworkImpact,
    Duration,
    ReadRows,
    ReadBytes,
    MemoryUsage,
    UserTime,
    SystemTime,
    NetworkReceived,
    NetworkSent,
}

/// The statistics of all the queries that share one fingerprint, as one node
/// reports them or as they stand after the reports of several nodes were
/// merged.
#[derive(Clone, Debug, PartialEq, Eq)]
pub struct QueryLog {
    pub normalized_query_hash: u64,
    pub query: String,
    pub max_event_time: Timestamp,
    pub min_event_time: Timestamp,
    pub total_query_duration_ms: u64,
    pub total_read_rows: u64,
    pub total_read_bytes: u64,
    pub total_memory_usage: u64,
    pub total_user_time_us: u64,
    pub total_system_time_us: u64,
    pub total_network_receive_bytes: u64,
    pub total_network_send_bytes: u64,
    pub users: Vec<String>,
    pub databases: Vec<String>,
    pub tables: Vec<String>,
    pub io_impact: u64,
    pub network_impact: u64,
    pub cpu_impact: u64,
    pub memory_impact: u64,
    pub time_impact: u64,
    pub total_impact: u64,
}

/// What a [`QueryLog`] holds, with texts as sequences of characters.
pub struct QueryLogView {
    pub normalized_query_hash: u64,
    pub query: Seq<char>,
    pub max_event_time: Timestamp,
    pub min_event_time: Timestamp,
    pub total_query_duration_ms: u64,
    pub total_read_rows: u64,
    pub total_read_bytes: u64,
    pub total_memory_usage: u64,
    pub total_user_time_us: u64,
    pub total_system_time_us: u64,
    pub total_network_receive_bytes: u64,
    pub total_network_send_bytes: u64,
    pub users: Seq<Seq<char>>,
    pub databases: Seq<Seq<char>>,
    pub tables: Seq<Seq<char>>,
    pub io_impact: u64,
    pub network_impact: u64,
    pub cpu_impact: u64,
    pub memory_impact: u64,
    pub time_impact: u64,
    pub total_impact: u64,
}

impl View for QueryLog {
    type V = QueryLogView;

    open spec fn view(&self) -> QueryLogView {
        QueryLogView {
            normalized_query_hash: self.normalized_query_hash,
            query: self.query@,
            max_event_time: self.max_event_time,
            min_event_time: self.min_event_time,
            total_query_duration_ms: self.total_query_duration_ms,
            total_read_rows: self.total_read_rows,
            total_read_bytes: self.total_read_bytes,
            total_memory_usage: self.total_memory_usage,
            total_user_time_us: self.total_user_time_us,
            total_system_time_us: self.total_system_time_us,
            total_network_receive_bytes: self.total_network_receive_bytes,
            total_network_send_bytes: self.total_network_send_bytes,
            users: self.users.deep_view(),
            databases: self.databases.deep_view(),
            tables: self.tables.deep_view(),
            io_impact: self.io_impact,
            network_impact: self.network_impact,
            cpu_impact: self.cpu_impact,
            memory_impact: self.memory_impact,
            time_impact: self.time_impact,
            total_impact: self.total_impact,
        }
    }
}

impl DeepView for QueryLog {
    type V = QueryLogView;

    open spec fn deep_view(&self) -> QueryLogView {
        self@
    }
}

impl QueryLogView {
    /// The total impact is the saturating sum of the five others.
    pub open spec fn impacts_add_up(self) -> bool {
        self.total_impact == saturated(
            self.io_impact + self.cpu_impact + self.memory_impact + self.time_impact
                + self.network_impact,
        )
    }

    /// The number that `sort_by` selects.
    pub open spec fn score(self, sort_by: QueriesSortBy) -> u64 {
        match sort_by {
            QueriesSortBy::TotalImpact => self.total_impact,
            QueriesSortBy::IOImpact => self.io_impact,
            QueriesSortBy::CPUImpact => self.cpu_impact,
            QueriesSortBy::MemoryImpact => self.memory_impact,
            QueriesSortBy::TimeImpact => self.time_impact,
            QueriesSortBy::NetworkImpact => self.network_impact,
            QueriesSortBy::Duration => self.total_query_duration_ms,
            QueriesSortBy::ReadRows => self.total_read_rows,
            QueriesSortBy::ReadBytes => self.total_read_bytes,
            QueriesSortBy::MemoryUsage => self.total_memory_usage,
            QueriesSortBy::UserTime => self.total_user_time_us,
            QueriesSortBy::SystemTime => self.total_system_time_us,
            QueriesSortBy::NetworkReceived => self.total_network_receive_bytes,
            QueriesSortBy::NetworkSent => self.total_network_send_bytes,
        }
    }
}

/// The statistics of the queries of one fingerprint, as one node reports them
/// when it is asked for that fingerprint alone.
#[derive(Clone, Debug, PartialEq, Eq)]
pub struct QueryLogExtended {
    pub normalized_query_hash: u64,
    pub query: String,
    pub max_event_time: Timestamp,
    pub min_event_time: Timestamp,
    pub total_query_duration_ms: u64,
    pub total_read_rows: u64,
    pub total_read_bytes: u64,
    pub total_memory_usage: u64,
    pub total_user_time_us: u64,
    pub total_system_time_us: u64,
    pub total_network_receive_bytes: u64,
    pub total_network_send_bytes: u64,
    pub users: Vec<String>,
    pub databases: Vec<String>,
    pub tables: Vec<String>,
}

/// What a [`QueryLogExtended`] holds, with texts as sequences of characters.
pub struct QueryLogExtendedView {
    pub normalized_query_hash: u64,
    pub query: Seq<char>,
    pub max_event_time: Timestamp,
    pub min_event_time: Timestamp,
    pub total_query_duration_ms: u64,
    pub total_read_rows: u64,
    pub total_read_bytes: u64,
    pub total_memory_usage: u64,
    pub total_user_time_us: u64,
    pub total_system_time_us: u64,
    pub total_network_receive_bytes: u64,
    pub total_network_send_bytes: u64,
    pub users: Seq<Seq<char>>,
    pub databases: Seq<Seq<char>>,
    pub tables: Seq<Seq<char>>,
}

impl View for QueryLogExtended {
    type V = QueryLogExtendedView;

    open spec fn view(&self) -> QueryLogExtendedView {
        QueryLogExtendedView {
            normalized_query_hash: self.normalized_query_hash,
            query: self.query@,
            max_event_time: self.max_event_time,
            min_event_time: self.min_event_time,
            total_query_duration_ms: self.total_query_duration_ms,
            total_read_rows: self.total_read_rows,
            total_read_bytes: self.total_read_bytes,
            total_memory_usage: self.total_memory_usage,
            total_user_time_us: self.total_user_time_us,
            total_system_time_us: self.total_system_time_us,
            total_network_receive_bytes: self.total_network_receive_bytes,
            total_network_send_bytes: self.total_network_send_bytes,
            users: self.users.deep_view(),
            databases: self.databases.deep_view(),
            tables: self.tables.deep_view(),
        }
    }
}

/// The five impact scores of some counters, and their total.
#[derive(Clone, Copy, Debug, PartialEq, Eq, Structural)]
pub struct ImpactScores {
    pub io_impact: u64,
    pub network_impact: u64,
    pub cpu_impact: u64,
    pub memory_impact: u64,
    pub time_impact: u64,
    pub total_impact: u64,
}

impl QueryLogView {
    /// The scores that the counters of the record weigh up to. A row read
    /// counts 100 and a byte read 1; a byte sent or received counts 10; a
    /// microsecond of processor time counts 10 000; a byte of memory counts
    /// 10; a millisecond of duration counts 1 000 000. Every score saturates,
    /// and so does the total, which is the sum of the five.
    pub open spec fn weighted_impacts(self) -> ImpactScores {
        let io = saturated(self.total_read_rows * 100 + self.total_read_bytes * 1);
        let network = saturated(
            (self.total_network_receive_bytes + self.total_network_send_bytes) * 10,
        );
        let cpu = saturated((self.total_user_time_us + self.total_system_time_us) * 10_000);
        let memory = saturated(self.total_memory_usage * 10);
        let time = saturated(self.total_query_duration_ms * 1_000_000);
        ImpactScores {
            io_impact: io,
            network_impact: network,
            cpu_impact: cpu,
            memory_impact: memory,
            time_impact: time,
            total_impact: saturated(io + network + cpu + memory + time),
        }
    }
}

/// `n` times `weight`, saturating.
fn weighed(n: u64, weight: u64) -> (product: u64)
    ensures
        product == saturated(n * weight),
{
    match n.checked_mul(weight) {
        Some(product) => product,
        None => u64::MAX,
    }
}

impl QueryLog {
    /// The scores that the counters of the record weigh up to.
    pub fn weighted_impacts(&self) -> (scores: ImpactScores)
        ensures
            scores == self@.weighted_impacts(),
    {
        let io = weighed(self.total_read_rows, 100).saturating_add(self.total_read_bytes);
        let network = weighed(
            self.total_network_receive_bytes.saturating_add(self.total_network_send_bytes),
            10,
        );
        let cpu = weighed(self.total_user_time_us.saturating_add(self.total_system_time_us), 10_000);
        let memory = weighed(self.total_memory_usage, 10);
        let time = weighed(self.total_query_duration_ms, 1_000_000);
        let total = io.saturating_add(network).saturating_add(cpu).saturating_add(
            memory,
        ).saturating_add(time);
        ImpactScores {
            io_impact: io,
            network_impact: network,
            cpu_impact: cpu,
            memory_impact: memory,
            time_impact: time,
            total_impact: total,
        }
    }
}

/// The scores of all matching queries together, with their number.
#[derive(Clone, Copy, Debug, PartialEq, Eq, Structural)]
pub struct QueryLogTotal {
    pub queries_count: u64,
    pub io_impact: u64,
    pub network_impact: u64,
    pub cpu_impact: u64,
    pub memory_impact: u64,
    pub time_impact: u64,
    pub total_impact: u64,
}

impl QueryLogTotal {
    /// The total of no rows: every field zero.
    pub open spec fn zero() -> QueryLogTotal {
        QueryLogTotal {
            queries_count: 0,
            io_impact: 0,
            network_impact: 0,
            cpu_impact: 0,
            memory_impact: 0,
            time_impact: 0,
            total_impact: 0,
        }
    }

    /// The total impact is the saturating sum of the five others.
    pub open spec fn impacts_add_up(self) -> bool {
        self.total_impact == saturated(
            self.io_impact + self.cpu_impact + self.memory_impact + self.time_impact
                + self.network_impact,
        )
    }
}

impl Default for QueryLogTotal {
    fn default() -> (total: QueryLogTotal)
        ensures
            total == QueryLogTotal::zero(),
    {
        QueryLogTotal {
            queries_count: 0,
            io_impact: 0,
            network_impact: 0,
            cpu_impact: 0,
            memory_impact: 0,
            time_impact: 0,
            total_impact: 0,
        }
    }
}

/// The occurrences of one error code, as one node reports them or as they
/// stand after the reports of several nodes were merged.
#[derive(Clone, Debug, PartialEq, Eq)]
pub struct Error {
    pub code: i32,
    pub name: String,
    pub count: u64,
    pub last_error_time: Timestamp,
    pub error_message: String,
}

/// What an [`Error`] holds, with texts as sequences of characters.
pub struct ErrorView {
    pub code: i32,
    pub name: Seq<char>,
    pub count: u64,
    pub last_error_time: Timestamp,
    pub error_message: Seq<char>,
}

impl View for Error {
    type V = ErrorView;

    open spec fn view(&self) -> ErrorView {
        ErrorView {
            code: self.code,
            name: self.name@,
            count: self.count,
            last_error_time: self.last_error_time,
            error_message: self.error_message@,
        }
    }
}

impl DeepView for Error {
    type V = ErrorView;

    open spec fn deep_view(&self) -> ErrorView {
        self@
    }
}

/// The window and the thresholds that select rows of the query log.
#[derive(Clone, Debug, PartialEq, Eq)]
pub struct QueriesFilter {
    pub from: Option<Timestamp>,
    pub to: Option<Timestamp>,
    pub last: Option<TimeSpan>,
    pub users: Vec<String>,
    pub databases: Vec<String>,
    pub tables: Vec<String>,
    pub min_query_duration: Option<TimeSpan>,
    pub min_read_rows: Option<u64>,
    /// In bytes.
    pub min_read_data: Option<u64>,
}

/// Why a filter cannot be made into a query.
#[derive(Clone, Copy, Debug, PartialEq, Eq, Structural)]
pub enum BuildError {
    /// Neither a first instant nor a span says where the window begins.
    NoWindow,
    /// Both a first instant and a span say where the window begins.
    TwoWindows,
}

impl QueriesFilter {
    /// What is wrong with the window of the filter, if anything: its start is
    /// to be given once, as an instant or as a span back from now.
    pub open spec fn window_fault(&self) -> Option<BuildError> {
        if self.from is Some && self.last is Some {
            Some(BuildError::TwoWindows)
        } else if self.from is None && self.last is None {
            Some(BuildError::NoWindow)
        } else {
            None
        }
    }

    /// Checks that the start of the window is given once, as an instant or
    /// as a span back from now.
    pub fn check_window(&self) -> (checked: Result<(), BuildError>)
        ensures
            match self.window_fault() {
                Some(fault) => checked == Err::<(), BuildError>(fault),
                None => checked is Ok,
            },
    {
        match (&self.from, &self.last) {
            (Some(_), Some(_)) => Err(BuildError::TwoWindows),
            (None, None) => Err(BuildError::NoWindow),
            _ => Ok(()),
        }
    }
}

/// A request for the heaviest grouped queries.
#[derive(Clone, Debug, PartialEq, Eq)]
pub struct TopQueriesRequest {
    pub limit: usize,
    pub sort_by: QueriesSortBy,
    pub filter: QueriesFilter,
    pub out: OutputFormat,
}

/// A request for the totals over all matching queries.
#[derive(Clone, Debug, PartialEq, Eq)]
pub struct TotalQueriesRequest {
    pub filter: QueriesFilter,
    pub out: OutputFormat,
}

/// The window, the threshold and the codes that select error counters.
#[derive(Clone, Debug, PartialEq, Eq)]
pub struct ErrorsFilter {
    pub last: Option<TimeSpan>,
    pub min_count: Option<usize>,
    pub code: Vec<i32>,
}

/// A request for the most frequent errors.
#[derive(Clone, Debug, PartialEq, Eq)]
pub struct TopErrorsRequest {
    pub limit: usize,
    pub filter: ErrorsFilter,
    pub out: OutputFormat,
}

impl From<QueriesFilterArgs> for QueriesFilter {
    fn from(args: QueriesFilterArgs) -> (filter: QueriesFilter) {
        QueriesFilter {
            from: args.from,
            to: args.to,
            last: args.last,
            users: args.query_user,
            tables: args.table,
            databases: args.database,
            min_query_duration: args.min_query_duration,
            min_read_rows: args.min_read_rows,
            min_read_data: args.min_read_data,
        }
    }
}

impl vstd::std_specs::convert::FromSpecImpl<QueriesFilterArgs> for QueriesFilter {
    open spec fn obeys_from_spec() -> bool {
        true
    }

    open spec fn from_spec(args: QueriesFilterArgs) -> QueriesFilter {
        QueriesFilter {
            from: args.from,
            to: args.to,
            last: args.last,
            users: args.query_user,
            tables: args.table,
            databases: args.database,
            min_query_duration: args.min_query_duration,
            min_read_rows: args.min_read_rows,
            min_read_data: args.min_read_data,
        }
    }
}

impl From<ErrorFilterArgs> for ErrorsFilter {
    fn from(args: ErrorFilterArgs) -> (filter: ErrorsFilter) {
        ErrorsFilter { last: args.last, min_count: args.min_count, code: args.code }
    }
}

impl vstd::std_specs::convert::FromSpecImpl<ErrorFilterArgs> for ErrorsFilter {
    open spec fn obeys_from_spec() -> bool {
        true
    }

    open spec fn from_spec(args: ErrorFilterArgs) -> ErrorsFilter {
        ErrorsFilter { last: args.last, min_count: args.min_count, code: args.code }
    }
}

/// A password. It is read only where it is asked for by name, and a value
/// that holds one cannot be printed for debugging.
#[derive(Clone, PartialEq, Eq)]
pub struct Password {
    text: String,
}

impl View for Password {
    type V = Seq<char>;

    closed spec fn view(&self) -> Seq<char> {
        self.text@
    }
}

impl DeepView for Password {
    type V = Seq<char>;

    open spec fn deep_view(&self) -> Seq<char> {
        self@
    }
}

impl Password {
    /// The password that is this text.
    pub fn new(text: String) -> (password: Password)
        ensures
            password@ == text@,
    {
        Password { text }
    }

    /// The text of the password.
    pub fn expose(&self) -> (text: &str)
        ensures
            text@ == self@,
    {
        self.text.as_str()
    }

    /// A copy of the password.
    pub fn duplicate(&self) -> (copy: Password)
        ensures
            copy@ == self@,
    {
        Password { text: self.text.clone() }
    }
}

/// How to reach a cluster: the nodes, and who connects.
#[derive(Clone, PartialEq, Eq)]
pub struct ContextProfile {
    pub user: String,
    pub password: Password,
    pub urls: Vec<String>,
    pub accept_invalid_certificate: bool,
}

/// What a [`ContextProfile`] holds, with texts as sequences of characters.
pub struct ContextProfileView {
    pub user: Seq<char>,
    pub password: Seq<char>,
    pub urls: Seq<Seq<char>>,
    pub accept_invalid_certificate: bool,
}

impl View for ContextProfile {
    type V = ContextProfileView;

    open spec fn view(&self) -> ContextProfileView {
        ContextProfileView {
            user: self.user@,
            password: self.password@,
            urls: self.urls.deep_view(),
            accept_invalid_certificate: self.accept_invalid_certificate,
        }
    }
}

impl DeepView for ContextProfile {
    type V = ContextProfileView;

    open spec fn deep_view(&self) -> ContextProfileView {
        self@
    }
}

/// A profile as it is shown: with its password, or with a mark in its place.
#[derive(Clone, Copy, Debug, PartialEq, Eq)]
pub struct PrintableContextProfile<'a> {
    pub user: &'a str,
    pub password: &'a str,
    pub urls: &'a Vec<String>,
    pub accept_invalid_certificate: bool,
}

impl ContextProfile {
    /// The profile as it is shown: the password itself where `show_secrets`
    /// is set, `[REDACTED]` in its place where it is not.
    pub fn to_printable(&self, show_secrets: bool) -> (shown: PrintableContextProfile<'_>)
        ensures
            shown.user@ == self.user@,
            shown.password@ == if show_secrets {
                self.password@
            } else {
                "[REDACTED]"@
            },
            shown.urls == &self.urls,
            shown.accept_invalid_certificate == self.accept_invalid_certificate,
    {
        let password = if show_secrets {
            self.password.expose()
        } else {
            "[REDACTED]"
        };
        PrintableContextProfile {
            user: self.user.as_str(),
            password,
            urls: &self.urls,
            accept_invalid_certificate: self.accept_invalid_certificate,
        }
    }
}

/// A request to store a profile under a name.
#[derive(Clone, Debug, PartialEq, Eq)]
pub struct ContextSetProfileRequest {
    pub name: String,
    pub user: String,
    pub password: String,
    pub urls: Vec<String>,
}

} // verus!
