//! What is sent to the nodes, and how the outcomes of the nodes become the
//! outcome of the whole.
//!
//! Every node gets the same statement: a query text with placeholders and the
//! parameters that take their places. The nodes work at the same time; the
//! whole succeeds only if every node does, and fails with the failure that was
//! reported first.

pub mod filter;

use crate::client::filter::{
    clause_params, clause_texts, conjunction, ErrorFilter, FormatError, QueryLogFilter,
    QueryParam, QueryParamView,
};
use crate::decimal::{decimal, decimal_text};
use crate::model::Password;
use crate::timestamp::Timestamp;
use vstd::prelude::*;
use vstd::string::StringExecFns;

verus! {

/// A connection to one node, as the `clickhouse` crate holds it.
#[verifier::external_type_specification]
#[verifier::external_body]
pub struct ExNode(clickhouse::Client);

/// A query for one node, as the `clickhouse` crate holds it.
#[verifier::external_type_specification]
#[verifier::external_body]
pub struct ExQuery(clickhouse::query::Query);

/// Why the work for a node failed.
#[derive(Clone, Debug, PartialEq, Eq)]
pub enum ClientError {
    /// The node could not be reached, refused the query, or answered what
    /// could not be read.
    Query(String),
    /// A row could not be handed on: nobody was receiving any more.
    Send,
    /// A timestamp among the parameters could not be written.
    Format(FormatError),
    /// The connection could not be set up.
    InitializationError(String),
}

/// The failure of one node.
#[derive(Clone, Debug, PartialEq, Eq)]
pub struct NodeFailure {
    /// The place of the node in the list of nodes.
    pub node: usize,
    pub cause: ClientError,
}

/// What one node reports when its work has ended.
#[derive(Debug, PartialEq, Eq)]
pub struct NodeReport {
    /// The place of the node in the list of nodes.
    pub node: usize,
    pub outcome: Result<(), ClientError>,
}

/// A query text with placeholders, and the parameters that take their places.
#[derive(Clone, Debug, PartialEq, Eq)]
pub struct Statement {
    pub sql: String,
    pub params: Vec<QueryParam>,
}

/// The query for the statistics of each fingerprint, up to the place of the filter.
pub open spec fn grouped_head() -> Seq<char> {
    r#"
            WITH
               sum(query_duration_ms) AS total_query_duration_ms,
               sum(read_rows) AS total_read_rows,
               sum(read_bytes) AS total_read_bytes,
               sum(memory_usage) AS total_memory_usage,
               sum(ProfileEvents['UserTimeMicroseconds']) AS total_user_time_us,
               sum(ProfileEvents['SystemTimeMicroseconds']) AS total_system_time_us,
               sum(ProfileEvents['NetworkReceiveBytes']) AS total_network_receive_bytes,
               sum(ProfileEvents['NetworkSendBytes']) AS total_network_send_bytes
            SELECT
               normalized_query_hash,
               any(query) AS query,
               total_read_rows * 100 + total_read_bytes * 1 AS io_impact,
               total_network_receive_bytes * 10 + total_network_send_bytes * 10 AS network_impact,
               total_user_time_us * 10_000 + total_system_time_us * 10_000 AS cpu_impact,
               total_memory_usage * 10 AS memory_impact,
               total_query_duration_ms * 1_000_000 AS time_impact,
               io_impact + network_impact + cpu_impact + memory_impact + time_impact AS total_impact
            FROM query_log
            WHERE type != 'QueryStart' AND query_kind = 'Select' "#@
}

/// The query for the statistics of each fingerprint, from the place of the filter on.
pub open spec fn grouped_tail() -> Seq<char> {
    r#"
            GROUP BY normalized_query_hash
            "#@
}

/// The query for the totals of all queries, up to the place of the filter.
pub open spec fn total_head() -> Seq<char> {
    r#"
            WITH
               sum(query_duration_ms) AS total_query_duration_ms,
               sum(read_rows) AS total_read_rows,
               sum(read_bytes) AS total_read_bytes,
               sum(memory_usage) AS total_memory_usage,
               sum(ProfileEvents['UserTimeMicroseconds']) AS total_user_time_us,
               sum(ProfileEvents['SystemTimeMicroseconds']) AS total_system_time_us,
               sum(ProfileEvents['NetworkReceiveBytes']) AS total_network_receive_bytes,
               sum(ProfileEvents['NetworkSendBytes']) AS total_network_send_bytes
            SELECT
               count() AS queries_count,
               total_read_rows * 100 + total_read_bytes * 1 AS io_impact,
               total_network_receive_bytes * 10 + total_network_send_bytes * 10 AS network_impact,
               total_user_time_us * 10_000 + total_system_time_us * 10_000 AS cpu_impact,
               total_memory_usage * 10 AS memory_impact,
               total_query_duration_ms * 1_000_000 AS time_impact,
               io_impact + network_impact + cpu_impact + memory_impact + time_impact AS total_impact
            FROM query_log
            WHERE type != 'QueryStart' AND query_kind = 'Select' "#@
}

/// The query for the totals of all queries, from the place of the filter on.
pub open spec fn total_tail() -> Seq<char> {
    r#"
            "#@
}

/// The query for the statistics of one fingerprint, up to the place of the fingerprint.
pub open spec fn single_head() -> Seq<char> {
    r#"
            SELECT
               normalized_query_hash,
               any(query) AS query,
               max(event_time) AS max_event_time,
               min(event_time) AS min_event_time,
               sum(query_duration_ms) AS total_query_duration_ms,
               sum(read_rows) AS total_read_rows,
               sum(read_bytes) AS total_read_bytes,
               sum(memory_usage) AS total_memory_usage,
               sum(ProfileEvents['UserTimeMicroseconds']) AS total_user_time_us,
               sum(ProfileEvents['SystemTimeMicroseconds']) AS total_system_time_us,
               sum(ProfileEvents['NetworkReceiveBytes']) AS total_network_receive_bytes,
               sum(ProfileEvents['NetworkSendBytes']) AS total_network_send_bytes,
               groupUniqArray(user) AS users,
               arrayDistinct(arrayFlatten(groupArray(databases))) AS databases,
               arrayDistinct(arrayFlatten(groupArray(tables))) AS tables
            FROM query_log
            WHERE type != 'QueryStart' AND query_kind = 'Select'
              AND normalized_query_hash = "#@
}

/// The query for the error counters, up to the place of the filter on single counters.
pub open spec fn errors_head() -> Seq<char> {
    r#"
            SELECT
                code,
                any(name)        AS name,
                sum(value)       AS count,
                max(last_error_time)    AS last_error_time,
                any(last_error_message) AS error_message
            FROM system.errors
            WHERE 1 = 1
              "#@
}

/// The query for the error counters, between the places of its two filters.
pub open spec fn errors_middle() -> Seq<char> {
    r#"
            GROUP BY code
            HAVING 1 = 1
              "#@
}

/// The end of the query for the statistics of one fingerprint and of the
/// query for the error counters.
pub open spec fn closing_line() -> Seq<char> {
    r#"
            "#@
}

/// The query for the statistics of each fingerprint, with the fragment of a
/// filter in its place.
pub open spec fn logs_by_fingerprint_text(where_clause: Seq<char>) -> Seq<char> {
    grouped_head() + where_clause + grouped_tail()
}

/// The query for the statistics of one fingerprint, with the fingerprint and
/// the fragment of a filter in their places.
pub open spec fn log_by_fingerprint_text(fingerprint: u64, where_clause: Seq<char>) -> Seq<char> {
    single_head() + decimal(fingerprint as nat) + " "@ + where_clause + grouped_tail()
}

/// The query for the totals of all queries, with the fragment of a filter in
/// its place.
pub open spec fn logs_total_text(where_clause: Seq<char>) -> Seq<char> {
    total_head() + where_clause + total_tail()
}

/// The query for the error counters, with the fragments of its two filters in
/// their places.
pub open spec fn error_by_code_text(where_clause: Seq<char>, having_clause: Seq<char>) -> Seq<
    char,
> {
    errors_head() + where_clause + errors_middle() + having_clause + closing_line()
}

/// Writes the query for the statistics of each fingerprint.
pub fn logs_by_fingerprint_sql(where_clause: &str) -> (sql: String)
    ensures
        sql@ == logs_by_fingerprint_text(where_clause@),
{
    let mut sql = String::from_str(
        r#"
            WITH
               sum(query_duration_ms) AS total_query_duration_ms,
               sum(read_rows) AS total_read_rows,
               sum(read_bytes) AS total_read_bytes,
               sum(memory_usage) AS total_memory_usage,
               sum(ProfileEvents['UserTimeMicroseconds']) AS total_user_time_us,
               sum(ProfileEvents['SystemTimeMicroseconds']) AS total_system_time_us,
               sum(ProfileEvents['NetworkReceiveBytes']) AS total_network_receive_bytes,
               sum(ProfileEvents['NetworkSendBytes']) AS total_network_send_bytes
            SELECT
               normalized_query_hash,
               any(query) AS query,
               total_read_rows * 100 + total_read_bytes * 1 AS io_impact,
               total_network_receive_bytes * 10 + total_network_send_bytes * 10 AS network_impact,
               total_user_time_us * 10_000 + total_system_time_us * 10_000 AS cpu_impact,
               total_memory_usage * 10 AS memory_impact,
               total_query_duration_ms * 1_000_000 AS time_impact,
               io_impact + network_impact + cpu_impact + memory_impact + time_impact AS total_impact
            FROM query_log
            WHERE type != 'QueryStart' AND query_kind = 'Select' "#,
    );
    sql.append(where_clause);
    sql.append(
        r#"
            GROUP BY normalized_query_hash
            "#,
    );
    sql
}

/// Writes the query for the statistics of one fingerprint.
pub fn log_by_fingerprint_sql(fingerprint: u64, where_clause: &str) -> (sql: String)
    ensures
        sql@ == log_by_fingerprint_text(fingerprint, where_clause@),
{
    let mut sql = String::from_str(
        r#"
            SELECT
               normalized_query_hash,
               any(query) AS query,
               max(event_time) AS max_event_time,
               min(event_time) AS min_event_time,
               sum(query_duration_ms) AS total_query_duration_ms,
               sum(read_rows) AS total_read_rows,
               sum(read_bytes) AS total_read_bytes,
               sum(memory_usage) AS total_memory_usage,
               sum(ProfileEvents['UserTimeMicroseconds']) AS total_user_time_us,
               sum(ProfileEvents['SystemTimeMicroseconds']) AS total_system_time_us,
               sum(ProfileEvents['NetworkReceiveBytes']) AS total_network_receive_bytes,
               sum(ProfileEvents['NetworkSendBytes']) AS total_network_send_bytes,
               groupUniqArray(user) AS users,
               arrayDistinct(arrayFlatten(groupArray(databases))) AS databases,
               arrayDistinct(arrayFlatten(groupArray(tables))) AS tables
            FROM query_log
            WHERE type != 'QueryStart' AND query_kind = 'Select'
              AND normalized_query_hash = "#,
    );
    let number = decimal_text(fingerprint);
    sql.append(number.as_str());
    sql.append(" ");
    sql.append(where_clause);
    sql.append(
        r#"
            GROUP BY normalized_query_hash
            "#,
    );
    sql
}

/// Writes the query for the totals of all queries.
pub fn logs_total_sql(where_clause: &str) -> (sql: String)
    ensures
        sql@ == logs_total_text(where_clause@),
{
    let mut sql = String::from_str(
        r#"
            WITH
               sum(query_duration_ms) AS total_query_duration_ms,
               sum(read_rows) AS total_read_rows,
               sum(read_bytes) AS total_read_bytes,
               sum(memory_usage) AS total_memory_usage,
               sum(ProfileEvents['UserTimeMicroseconds']) AS total_user_time_us,
               sum(ProfileEvents['SystemTimeMicroseconds']) AS total_system_time_us,
               sum(ProfileEvents['NetworkReceiveBytes']) AS total_network_receive_bytes,
               sum(ProfileEvents['NetworkSendBytes']) AS total_network_send_bytes
            SELECT
               count() AS queries_count,
               total_read_rows * 100 + total_read_bytes * 1 AS io_impact,
               total_network_receive_bytes * 10 + total_network_send_bytes * 10 AS network_impact,
               total_user_time_us * 10_000 + total_system_time_us * 10_000 AS cpu_impact,
               total_memory_usage * 10 AS memory_impact,
               total_query_duration_ms * 1_000_000 AS time_impact,
               io_impact + network_impact + cpu_impact + memory_impact + time_impact AS total_impact
            FROM query_log
            WHERE type != 'QueryStart' AND query_kind = 'Select' "#,
    );
    sql.append(where_clause);
    sql.append(
        r#"
            "#,
    );
    sql
}

/// Writes the query for the error counters.
pub fn error_by_code_sql(where_clause: &str, having_clause: &str) -> (sql: String)
    ensures
        sql@ == error_by_code_text(where_clause@, having_clause@),
{
    let mut sql = String::from_str(
        r#"
            SELECT
                code,
                any(name)        AS name,
                sum(value)       AS count,
                max(last_error_time)    AS last_error_time,
                any(last_error_message) AS error_message
            FROM system.errors
            WHERE 1 = 1
              "#,
    );
    sql.append(where_clause);
    sql.append(
        r#"
            GROUP BY code
            HAVING 1 = 1
              "#,
    );
    sql.append(having_clause);
    sql.append(
        r#"
            "#,
    );
    sql
}

impl Statement {
    /// The statement for the statistics of each fingerprint that `filter`
    /// selects. A window given as a span ends when this is called.
    pub fn logs_by_fingerprint(filter: &QueryLogFilter) -> (statement: Statement)
        ensures
            exists|now: Timestamp|
                {
                    &&& statement.sql@ == logs_by_fingerprint_text(
                        conjunction(clause_texts(#[trigger] filter.clauses(now))),
                    )
                    &&& statement.params.deep_view() == clause_params(filter.clauses(now))
                },
    {
        let (where_clause, params) = filter.build_where();
        Statement { sql: logs_by_fingerprint_sql(where_clause.as_str()), params }
    }

    /// The statement for the statistics of the fingerprint `fingerprint`,
    /// over the rows that `filter` selects. A window given as a span ends
    /// when this is called.
    pub fn log_by_fingerprint(fingerprint: u64, filter: &QueryLogFilter) -> (statement: Statement)
        ensures
            exists|now: Timestamp|
                {
                    &&& statement.sql@ == log_by_fingerprint_text(
                        fingerprint,
                        conjunction(clause_texts(#[trigger] filter.clauses(now))),
                    )
                    &&& statement.params.deep_view() == clause_params(filter.clauses(now))
                },
    {
        let (where_clause, params) = filter.build_where();
        Statement { sql: log_by_fingerprint_sql(fingerprint, where_clause.as_str()), params }
    }

    /// The statement for the totals of all queries that `filter` selects. A
    /// window given as a span ends when this is called.
    pub fn logs_total(filter: &QueryLogFilter) -> (statement: Statement)
        ensures
            exists|now: Timestamp|
                {
                    &&& statement.sql@ == logs_total_text(
                        conjunction(clause_texts(#[trigger] filter.clauses(now))),
                    )
                    &&& statement.params.deep_view() == clause_params(filter.clauses(now))
                },
    {
        let (where_clause, params) = filter.build_where();
        Statement { sql: logs_total_sql(where_clause.as_str()), params }
    }

    /// The statement for the error counters that `filter` selects: the
    /// parameters of the filter on single counters come first, then those of
    /// the filter on the counters of a code taken together. The window ends
    /// when this is called.
    pub fn error_by_code(filter: &ErrorFilter) -> (statement: Statement)
        ensures
            exists|now: Timestamp|
                {
                    &&& statement.sql@ == error_by_code_text(
                        conjunction(clause_texts(filter.where_clauses())),
                        conjunction(clause_texts(#[trigger] filter.having_clauses(now))),
                    )
                    &&& statement.params.deep_view() == clause_params(filter.where_clauses())
                        + clause_params(filter.having_clauses(now))
                },
    {
        let (where_clause, where_params) = filter.build_where();
        let (having_clause, having_params) = filter.build_having();
        let ghost first = where_params.deep_view();
        let ghost second = having_params.deep_view();
        let mut params = where_params;
        let mut rest = having_params;
        params.append(&mut rest);
        assert(params.deep_view() =~= first + second);
        Statement { sql: error_by_code_sql(where_clause.as_str(), having_clause.as_str()), params }
    }
}

/// What a query keeps of its text, as the `clickhouse` crate builds it up:
/// the pieces in their order, each with its kind. Kind 0 is a piece of text,
/// kind 1 a place that is still open, kind 2 the place of the field names. A
/// query that took a parameter without a place for it keeps one piece of kind
/// 3 with the fault instead. A piece of kind 4 at the end names the format of
/// the answer where one is set.
pub uninterp spec fn query_parts(query: clickhouse::query::Query) -> Seq<(int, Seq<char>)>;

/// What a connection holds under the names `url`, `database`, `user`,
/// `password` and `access_token`, as the `clickhouse` crate keeps them: the
/// address always, which is the empty text until one is set, and each of the
/// others where it is set.
pub uninterp spec fn node_settings(node: clickhouse::Client) -> Map<Seq<char>, Seq<char>>;

/// What the connection holds that a query was started on, under the same
/// names.
pub uninterp spec fn query_settings(query: clickhouse::query::Query) -> Map<Seq<char>, Seq<char>>;

/// What a connection holds before anything is set: the empty address.
pub open spec fn fresh_settings() -> Map<Seq<char>, Seq<char>> {
    Map::<Seq<char>, Seq<char>>::empty().insert("url"@, Seq::empty())
}

/// What the connection to the node at `url` holds: the address, who
/// connects, and the database of the telemetry tables.
pub open spec fn settings_for(url: Seq<char>, user: Seq<char>, password: Seq<char>) -> Map<
    Seq<char>,
    Seq<char>,
> {
    fresh_settings().insert("url"@, url).insert("user"@, user).insert("password"@, password).insert(
        "database"@,
        "system"@,
    )
}

/// What a query keeps of its text when it was started with `template` and
/// has taken no parameter yet.
pub uninterp spec fn template_parts(template: Seq<char>) -> Seq<(int, Seq<char>)>;

/// What a query keeps of its text after it took the text `value` as its next
/// parameter, where it kept `parts` before.
pub uninterp spec fn bound_parts(parts: Seq<(int, Seq<char>)>, value: Seq<char>) -> Seq<
    (int, Seq<char>),
>;

/// What a query keeps of its text when it was started with `template` and
/// has taken the texts `values` as parameters, in their order.
pub open spec fn parts_with(template: Seq<char>, values: Seq<Seq<char>>) -> Seq<(int, Seq<char>)> {
    values.fold_left(
        template_parts(template),
        |parts: Seq<(int, Seq<char>)>, value: Seq<char>| bound_parts(parts, value),
    )
}

/// The texts that are sent for the parameters, in their order, or, where a
/// timestamp among them cannot be written, what the formatter said of the
/// first such timestamp.
pub open spec fn sql_texts(params: Seq<QueryParamView>) -> Result<Seq<Seq<char>>, Seq<char>>
    decreases params.len(),
{
    if params.len() == 0 {
        Ok(Seq::empty())
    } else {
        match sql_texts(params.drop_last()) {
            Err(message) => Err(message),
            Ok(texts) => match params.last().sql_text() {
                Ok(text) => Ok(texts.push(text)),
                Err(message) => Err(message),
            },
        }
    }
}

/// Where the parameters before one have their texts and that one has none,
/// what the formatter said of it is what comes of all the parameters.
pub proof fn lemma_sql_texts_first_failure(
    params: Seq<QueryParamView>,
    at: int,
    message: Seq<char>,
)
    requires
        0 <= at < params.len(),
        sql_texts(params.take(at)) is Ok,
        params[at].sql_text() == Err::<Seq<char>, Seq<char>>(message),
    ensures
        sql_texts(params) == Err::<Seq<Seq<char>>, Seq<char>>(message),
    decreases params.len(),
{
    let shorter = params.drop_last();
    if at == params.len() - 1 {
        assert(shorter =~= params.take(at));
    } else {
        assert(shorter.take(at) =~= params.take(at));
        assert(shorter[at] == params[at]);
        lemma_sql_texts_first_failure(shorter, at, message);
    }
}

/// Parameters without a timestamp among them all have a text.
pub proof fn lemma_sql_texts_without_timestamp(params: Seq<QueryParamView>)
    requires
        forall|i: int| 0 <= i < params.len() ==> !(#[trigger] params[i] is DateTime),
    ensures
        sql_texts(params) is Ok,
    decreases params.len(),
{
    if params.len() > 0 {
        let shorter = params.drop_last();
        assert forall|i: int| 0 <= i < shorter.len() implies !(#[trigger] shorter[i] is DateTime) by {
            assert(shorter[i] == params[i]);
        }
        lemma_sql_texts_without_timestamp(shorter);
        assert(!(params.last() is DateTime));
    }
}

/// Starts a query on a node through `clickhouse::Client::query`. What the
/// query keeps of its text is made of the text alone, whatever the node:
/// [`template_parts`] names it. The query keeps a copy of the connection.
#[verifier::external_body]
fn start_query(node: &clickhouse::Client, sql: &str) -> (query: clickhouse::query::Query)
    ensures
        query_parts(query) == template_parts(sql@),
        query_settings(query) == node_settings(*node),
{
    node.query(sql)
}

/// Hands a text to `clickhouse::query::Query::bind`, which puts it, quoted
/// and escaped, in the place of the first `?` that is still open, or keeps a
/// fault where none is. What the query keeps of its text afterwards is made
/// of what it kept before and of the text alone: [`bound_parts`] names it.
/// The connection that the query keeps is left as it is.
#[verifier::external_body]
fn bind_text(query: clickhouse::query::Query, value: String) -> (bound: clickhouse::query::Query)
    ensures
        query_parts(bound) == bound_parts(query_parts(query), value@),
        query_settings(bound) == query_settings(query),
{
    query.bind(value)
}

/// The query on `node` with the text `sql`, in which the parameters take the
/// places of the `?` in their order, each as the text that is sent for it.
/// It fails where a timestamp among the parameters cannot be written, with
/// what the formatter said of the first such timestamp.
pub fn build_query_with_params(node: &clickhouse::Client, sql: &str, params: &[QueryParam]) -> (built:
    Result<clickhouse::query::Query, ClientError>)
    ensures
        match sql_texts(params.deep_view()) {
            Ok(texts) => {
                &&& built matches Ok(query)
                &&& query_parts(built->Ok_0) == parts_with(sql@, texts)
                &&& query_settings(built->Ok_0) == node_settings(*node)
            },
            Err(message) => built matches Err(ClientError::Format(e)) && e.reason@ == message,
        },
        built matches Err(e) ==> e is Format,
        (forall|i: int| 0 <= i < params.len() ==> !(#[trigger] params[i] is DateTime))
            ==> built is Ok,
{
    let ghost all = params.deep_view();
    proof {
        if forall|i: int| 0 <= i < params.len() ==> !(#[trigger] params[i] is DateTime) {
            assert forall|i: int| 0 <= i < all.len() implies !(#[trigger] all[i] is DateTime) by {
                assert(all[i] == params[i]@);
            }
            lemma_sql_texts_without_timestamp(all);
        }
    }
    let mut query = start_query(node, sql);
    let mut i: usize = 0;
    assert(all.take(0) =~= Seq::<QueryParamView>::empty());
    while i < params.len()
        invariant
            i <= params.len(),
            all == params.deep_view(),
            sql_texts(all.take(i as int)) is Ok,
            query_parts(query) == parts_with(sql@, sql_texts(all.take(i as int))->Ok_0),
            query_settings(query) == node_settings(*node),
        decreases params.len() - i,
    {
        assert(all[i as int] == params[i as int]@);
        match params[i].to_sql_string() {
            Ok(text) => {
                query = bind_text(query, text);
                proof {
                    let shorter = sql_texts(all.take(i as int))->Ok_0;
                    assert(all.take(i + 1).drop_last() =~= all.take(i as int));
                    assert(all.take(i + 1).last() == all[i as int]);
                    assert(sql_texts(all.take(i + 1)) == Ok::<Seq<Seq<char>>, Seq<char>>(
                        shorter.push(text@),
                    ));
                    assert(shorter.push(text@).drop_last() =~= shorter);
                }
            },
            Err(e) => {
                proof {
                    lemma_sql_texts_first_failure(all, i as int, e.reason@);
                }
                return Err(ClientError::Format(e));
            },
        }
        i = i + 1;
    }
    assert(all.take(all.len() as int) =~= all);
    Ok(query)
}

/// Seconds between two keep-alive probes on a connection to a node.
pub const TCP_KEEPALIVE_SECS: u64 = 60;

/// Seconds after which a connection that is not used is closed. The nodes
/// close theirs after three seconds, so this has to be less.
pub const POOL_IDLE_TIMEOUT_SECS: u64 = 2;

/// A connection with the settings of `clickhouse::Client::default`: no
/// address, database, user, password or access token is set in it.
#[verifier::external_body]
fn default_node() -> (node: clickhouse::Client)
    ensures
        node_settings(node) == fresh_settings(),
{
    clickhouse::Client::default()
}

/// A connection that accepts every certificate: `clickhouse::Client::with_http_client`
/// on a `hyper_util` client over a `hyper_tls::HttpsConnector` whose
/// `native_tls::TlsConnector` was built with `danger_accept_invalid_certs`.
/// Where the connector cannot be built its message is returned; whether it
/// can depends on the machine. In the connection no address, database, user,
/// password or access token is set.
#[verifier::external_body]
fn insecure_node(keepalive_secs: u64, idle_secs: u64) -> (node: Result<clickhouse::Client, String>)
    ensures
        node matches Ok(made) ==> node_settings(made) == fresh_settings(),
{
    let mut connector = hyper_util::client::legacy::connect::HttpConnector::new();
    connector.set_keepalive(Some(std::time::Duration::from_secs(keepalive_secs)));
    connector.enforce_http(false);
    let tls = hyper_tls::native_tls::TlsConnector::builder().danger_accept_invalid_certs(
        true,
    ).build().map_err(|e| e.to_string())?;
    let connector = hyper_tls::HttpsConnector::from((connector, tls.into()));
    let http = hyper_util::client::legacy::Client::builder(
        hyper_util::rt::TokioExecutor::new(),
    ).pool_idle_timeout(std::time::Duration::from_secs(idle_secs)).build(connector);
    Ok(clickhouse::Client::with_http_client(http))
}

/// Sets the address of the node through `clickhouse::Client::with_url`,
/// which leaves the rest of the connection as it is.
#[verifier::external_body]
fn with_url(node: clickhouse::Client, url: &str) -> (addressed: clickhouse::Client)
    ensures
        node_settings(addressed) == node_settings(node).insert("url"@, url@),
{
    node.with_url(url)
}

/// Sets the user through `clickhouse::Client::with_user`, which leaves the
/// rest of the connection as it is. The crate panics where an access token is
/// set, so such a connection is not taken.
#[verifier::external_body]
fn with_user(node: clickhouse::Client, user: &str) -> (named: clickhouse::Client)
    requires
        !node_settings(node).contains_key("access_token"@),
    ensures
        node_settings(named) == node_settings(node).insert("user"@, user@),
{
    node.with_user(user)
}

/// Sets the password through `clickhouse::Client::with_password`, which
/// leaves the rest of the connection as it is. The crate panics where an
/// access token is set, so such a connection is not taken.
#[verifier::external_body]
fn with_password(node: clickhouse::Client, password: &str) -> (keyed: clickhouse::Client)
    requires
        !node_settings(node).contains_key("access_token"@),
    ensures
        node_settings(keyed) == node_settings(node).insert("password"@, password@),
{
    node.with_password(password)
}

/// Sets the database through `clickhouse::Client::with_database`, which
/// leaves the rest of the connection as it is.
#[verifier::external_body]
fn with_database(node: clickhouse::Client, database: &str) -> (placed: clickhouse::Client)
    ensures
        node_settings(placed) == node_settings(node).insert("database"@, database@),
{
    node.with_database(database)
}

/// The connection to the node at `url`, made of what came of setting up a
/// connection that holds nothing yet: that connection with the address, the
/// user and the password set, to the database of the telemetry tables; or,
/// where none could be set up, the error that holds the reason.
pub fn node_from(made: Result<clickhouse::Client, String>, url: &str, user: &str, password: &str) -> (node:
    Result<clickhouse::Client, ClientError>)
    requires
        made matches Ok(fresh) ==> node_settings(fresh) == fresh_settings(),
    ensures
        match made {
            Ok(_) => node matches Ok(set) && node_settings(set) == settings_for(
                url@,
                user@,
                password@,
            ),
            Err(reason) => node == Err::<clickhouse::Client, ClientError>(
                ClientError::InitializationError(reason),
            ),
        },
{
    proof {
        reveal_strlit("url");
        reveal_strlit("user");
        reveal_strlit("access_token");
        assert("url"@.len() == 3);
        assert("user"@.len() == 4);
        assert("access_token"@.len() == 12);
    }
    match made {
        Ok(fresh) => {
            let node = with_url(fresh, url);
            let node = with_user(node, user);
            let node = with_password(node, password);
            Ok(with_database(node, "system"))
        },
        Err(reason) => Err(ClientError::InitializationError(reason)),
    }
}

/// Where the nodes are, who connects, and whether their certificates are
/// checked.
#[derive(Clone, Copy)]
pub struct Config<'a> {
    pub urls: &'a [String],
    pub user: &'a str,
    pub password: &'a Password,
    pub danger_accept_invalid_certs: bool,
}

/// One connection for each node.
pub struct ClusterClient {
    nodes: Vec<clickhouse::Client>,
}

impl ClusterClient {
    /// What each connection holds, in the order of the nodes.
    pub closed spec fn settings(&self) -> Seq<Map<Seq<char>, Seq<char>>> {
        self.nodes@.map_values(|node: clickhouse::Client| node_settings(node))
    }

    /// The number of nodes.
    pub open spec fn node_count(&self) -> nat {
        self.settings().len()
    }

    /// One connection for each address, in the order of the addresses, each
    /// with that address, the user and the password, to the database of the
    /// telemetry tables. It fails only where certificates are not to be
    /// checked and such a connection cannot be set up.
    pub fn new(cfg: Config) -> (made: Result<ClusterClient, ClientError>)
        ensures
            made matches Ok(client) ==> client.settings() == cfg.urls.deep_view().map_values(
                |url: Seq<char>| settings_for(url, cfg.user@, cfg.password@),
            ),
            made matches Err(e) ==> e is InitializationError,
            !cfg.danger_accept_invalid_certs || cfg.urls.len() == 0 ==> made is Ok,
    {
        let ghost urls = cfg.urls.deep_view();
        let ghost wanted = |url: Seq<char>| settings_for(url, cfg.user@, cfg.password@);
        let mut nodes: Vec<clickhouse::Client> = Vec::new();
        let mut i: usize = 0;
        while i < cfg.urls.len()
            invariant
                i <= cfg.urls.len(),
                nodes.len() == i,
                urls == cfg.urls.deep_view(),
                wanted == |url: Seq<char>| settings_for(url, cfg.user@, cfg.password@),
                forall|k: int| 0 <= k < i ==> node_settings(#[trigger] nodes[k]) == wanted(urls[k]),
            decreases cfg.urls.len() - i,
        {
            let made = if cfg.danger_accept_invalid_certs {
                insecure_node(TCP_KEEPALIVE_SECS, POOL_IDLE_TIMEOUT_SECS)
            } else {
                Ok(default_node())
            };
            match node_from(made, cfg.urls[i].as_str(), cfg.user, cfg.password.expose()) {
                Ok(node) => {
                    assert(node_settings(node) == wanted(urls[i as int]));
                    nodes.push(node);
                },
                Err(e) => {
                    return Err(e);
                },
            }
            i = i + 1;
        }
        let client = ClusterClient { nodes };
        assert(client.settings() =~= urls.map_values(wanted));
        Ok(client)
    }

    /// The number of nodes.
    pub fn len(&self) -> (count: usize)
        ensures
            count == self.node_count(),
    {
        self.nodes.len()
    }

    /// The queries that carry a statement to the nodes, one for each node in
    /// the order of the nodes: each on the connection of its node, with the
    /// text of the statement in which the parameters take the places of the
    /// `?`. They fail where there is a node and a timestamp among the
    /// parameters cannot be written, with what the formatter said of the
    /// first such timestamp.
    pub fn queries(&self, statement: &Statement) -> (built: Result<
        Vec<clickhouse::query::Query>,
        ClientError,
    >)
        ensures
            match sql_texts(statement.params.deep_view()) {
                Err(message) if self.node_count() > 0 => built matches Err(ClientError::Format(e))
                    && e.reason@ == message,
                _ => built is Ok,
            },
            built matches Ok(queries) ==> {
                &&& queries.len() == self.node_count()
                &&& forall|i: int|
                    0 <= i < queries.len() ==> {
                        &&& sql_texts(statement.params.deep_view()) matches Ok(texts)
                        &&& query_parts(#[trigger] queries[i]) == parts_with(
                            statement.sql@,
                            sql_texts(statement.params.deep_view())->Ok_0,
                        )
                        &&& query_settings(queries[i]) == self.settings()[i]
                    }
            },
            built matches Err(e) ==> e is Format,
            (forall|i: int|
                0 <= i < statement.params.len() ==> !(#[trigger] statement.params[i] is DateTime))
                ==> built is Ok,
    {
        let ghost texts = sql_texts(statement.params.deep_view());
        let mut queries: Vec<clickhouse::query::Query> = Vec::new();
        let mut i: usize = 0;
        while i < self.nodes.len()
            invariant
                i <= self.nodes.len(),
                queries.len() == i,
                texts == sql_texts(statement.params.deep_view()),
                i > 0 ==> texts is Ok,
                forall|k: int|
                    0 <= k < i ==> {
                        &&& query_parts(#[trigger] queries[k]) == parts_with(
                            statement.sql@,
                            texts->Ok_0,
                        )
                        &&& query_settings(queries[k]) == self.settings()[k]
                    },
            decreases self.nodes.len() - i,
        {
            let params = statement.params.as_slice();
            assert(params.deep_view() =~= statement.params.deep_view());
            match build_query_with_params(&self.nodes[i], statement.sql.as_str(), params) {
                Ok(query) => {
                    queries.push(query);
                },
                Err(e) => {
                    return Err(e);
                },
            }
            i = i + 1;
        }
        Ok(queries)
    }
}

/// How far the work on all nodes has come: how many nodes there are, how many
/// have reported, and the failure that was reported first.
#[derive(Debug, PartialEq, Eq)]
pub struct FanOut {
    pub nodes: usize,
    pub finished: usize,
    pub failure: Option<NodeFailure>,
}

impl FanOut {
    /// Nothing has been reported yet.
    pub open spec fn start(nodes: usize) -> FanOut {
        FanOut { nodes, finished: 0, failure: None }
    }

    /// The state after one more report: the first failure stays, and a
    /// failure is kept where none was reported before.
    pub open spec fn after(self, report: NodeReport) -> FanOut {
        FanOut {
            nodes: self.nodes,
            finished: if self.finished < usize::MAX {
                (self.finished + 1) as usize
            } else {
                self.finished
            },
            failure: match self.failure {
                Some(first) => Some(first),
                None => match report.outcome {
                    Ok(_) => None,
                    Err(cause) => Some(NodeFailure { node: report.node, cause }),
                },
            },
        }
    }

    /// The state after the reports came in, in their order.
    pub open spec fn after_all(nodes: usize, reports: Seq<NodeReport>) -> FanOut {
        reports.fold_left(FanOut::start(nodes), |state: FanOut, report: NodeReport| state.after(report))
    }

    /// The outcome of the whole, once it is known: the first failure as soon
    /// as there is one, success when every node has reported and none failed.
    pub open spec fn verdict(self) -> Option<Result<(), NodeFailure>> {
        match self.failure {
            Some(first) => Some(Err(first)),
            None => if self.finished >= self.nodes {
                Some(Ok(()))
            } else {
                None
            },
        }
    }

    /// The state before any node has reported.
    pub fn new(nodes: usize) -> (state: FanOut)
        ensures
            state == FanOut::start(nodes),
    {
        FanOut { nodes, finished: 0, failure: None }
    }

    /// Takes in the report of one node.
    pub fn node_finished(&mut self, report: NodeReport)
        ensures
            *final(self) == old(self).after(report),
    {
        if self.finished < usize::MAX {
            self.finished = self.finished + 1;
        }
        if self.failure.is_none() {
            match report.outcome {
                Ok(_) => {},
                Err(cause) => {
                    self.failure = Some(NodeFailure { node: report.node, cause });
                },
            }
        }
    }

    /// Whether the outcome of the whole is known.
    pub fn is_done(&self) -> (done: bool)
        ensures
            done == self.verdict().is_some(),
    {
        self.failure.is_some() || self.finished >= self.nodes
    }

    /// The outcome of the whole, or nothing while it is not known.
    pub fn outcome(self) -> (outcome: Option<Result<(), NodeFailure>>)
        ensures
            outcome == self.verdict(),
    {
        match self.failure {
            Some(first) => Some(Err(first)),
            None => if self.finished >= self.nodes {
                Some(Ok(()))
            } else {
                None
            },
        }
    }
}

/// The outcome of the work on `nodes` nodes whose reports came in in the
/// order of `reports`, or nothing where a report is still missing and no node
/// has failed.
pub fn fan_out_outcome(nodes: usize, reports: Vec<NodeReport>) -> (outcome: Option<
    Result<(), NodeFailure>,
>)
    ensures
        outcome == FanOut::after_all(nodes, reports@).verdict(),
{
    let ghost given = reports@;
    let mut state = FanOut::new(nodes);
    assert(given.take(0) =~= Seq::<NodeReport>::empty());
    for report in it: reports
        invariant
            it.seq() == given,
            state == FanOut::after_all(nodes, given.take(it.index())),
    {
        let ghost n = it.index();
        state.node_finished(report);
        proof {
            assert(given.take(n + 1).drop_last() =~= given.take(n));
            assert(given.take(n + 1).last() == report);
        }
    }
    assert(given.take(given.len() as int) =~= given);
    state.outcome()
}

/// Once a node has failed, the state holds a failure whatever is reported
/// afterwards.
proof fn lemma_failure_stays(nodes: usize, reports: Seq<NodeReport>, failed: int)
    requires
        0 <= failed < reports.len(),
        reports[failed].outcome is Err,
    ensures
        FanOut::after_all(nodes, reports).failure is Some,
    decreases reports.len(),
{
    let earlier = reports.drop_last();
    if failed < earlier.len() {
        assert(earlier[failed] == reports[failed]);
        lemma_failure_stays(nodes, earlier, failed);
    }
}

/// Without a failure among the reports, the state holds none, and it has
/// counted the reports.
proof fn lemma_no_failure(nodes: usize, reports: Seq<NodeReport>)
    requires
        forall|i: int| 0 <= i < reports.len() ==> (#[trigger] reports[i]).outcome is Ok,
        reports.len() <= usize::MAX,
    ensures
        FanOut::after_all(nodes, reports).failure is None,
        FanOut::after_all(nodes, reports).finished == reports.len(),
        FanOut::after_all(nodes, reports).nodes == nodes,
    decreases reports.len(),
{
    if reports.len() > 0 {
        let earlier = reports.drop_last();
        assert forall|i: int| 0 <= i < earlier.len() implies (#[trigger] earlier[i]).outcome is Ok by {
            assert(earlier[i] == reports[i]);
        }
        lemma_no_failure(nodes, earlier);
    }
}

/// If the work of any node fails, the whole fails, whatever the other nodes
/// report and whenever they do: the outcome is never a success and is known
/// at once.
pub proof fn lemma_one_failure_fails_the_whole(
    nodes: usize,
    reports: Seq<NodeReport>,
    failed: int,
)
    requires
        0 <= failed < reports.len(),
        reports[failed].outcome is Err,
    ensures
        FanOut::after_all(nodes, reports).verdict() matches Some(Err(_)),
{
    lemma_failure_stays(nodes, reports, failed);
}

/// The failure that is reported to the caller is the one that came in
/// first.
pub proof fn lemma_first_failure_is_reported(nodes: usize, reports: Seq<NodeReport>, first: int)
    requires
        0 <= first < reports.len() <= usize::MAX,
        reports[first].outcome is Err,
        forall|i: int| 0 <= i < first ==> (#[trigger] reports[i]).outcome is Ok,
    ensures
        FanOut::after_all(nodes, reports).verdict() == Some(
            Err::<(), NodeFailure>(
                NodeFailure { node: reports[first].node, cause: reports[first].outcome->Err_0 },
            ),
        ),
    decreases reports.len(),
{
    let earlier = reports.drop_last();
    if first < earlier.len() {
        assert(earlier[first] == reports[first]);
        assert forall|i: int| 0 <= i < first implies (#[trigger] earlier[i]).outcome is Ok by {
            assert(earlier[i] == reports[i]);
        }
        lemma_first_failure_is_reported(nodes, earlier, first);
    } else {
        assert forall|i: int| 0 <= i < earlier.len() implies (#[trigger] earlier[i]).outcome is Ok by {
            assert(earlier[i] == reports[i]);
        }
        lemma_no_failure(nodes, earlier);
    }
}

/// The whole succeeds exactly when every node has reported and none of them
/// failed.
pub proof fn lemma_success_needs_every_node(nodes: usize, reports: Seq<NodeReport>)
    requires
        reports.len() <= usize::MAX,
    ensures
        FanOut::after_all(nodes, reports).verdict() == Some(Ok::<(), NodeFailure>(())) <==> (
        reports.len() >= nodes && forall|i: int|
            0 <= i < reports.len() ==> (#[trigger] reports[i]).outcome is Ok),
{
    if forall|i: int| 0 <= i < reports.len() ==> (#[trigger] reports[i]).outcome is Ok {
        lemma_no_failure(nodes, reports);
    } else {
        let failed = choose|i: int| 0 <= i < reports.len() && !((#[trigger] reports[i]).outcome is Ok);
        lemma_failure_stays(nodes, reports, failed);
    }
}

} // verus!
