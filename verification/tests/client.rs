use clickcheck::client::filter::{ErrorFilter, FormatError, QueryLogFilter, QueryParam};
use clickcheck::client::{
    build_query_with_params, error_by_code_sql, fan_out_outcome, log_by_fingerprint_sql,
    logs_by_fingerprint_sql, logs_total_sql, node_from, ClientError, ClusterClient, Config,
    FanOut, NodeFailure, NodeReport, Statement,
};
use clickcheck::model::Password;
use clickcheck::timestamp::Timestamp;

fn plain_filter() -> QueryLogFilter {
    QueryLogFilter {
        from: Some(Timestamp::from_unix_seconds(1_704_067_200)),
        to: None,
        last: None,
        users: vec!["default".to_string()],
        databases: Vec::new(),
        tables: Vec::new(),
        min_query_duration: None,
        min_read_rows: None,
        min_read_data: None,
    }
}

fn done(node: usize) -> NodeReport {
    NodeReport { node, outcome: Ok(()) }
}

fn failed(node: usize, reason: &str) -> NodeReport {
    NodeReport { node, outcome: Err(ClientError::Query(reason.to_string())) }
}

#[test]
fn the_grouped_query_holds_the_weights_and_the_filter() {
    let sql = logs_by_fingerprint_sql("AND user IN (?)");
    assert!(sql.contains("total_read_rows * 100 + total_read_bytes * 1 AS io_impact,"));
    assert!(sql.contains(
        "total_network_receive_bytes * 10 + total_network_send_bytes * 10 AS network_impact,"
    ));
    assert!(sql.contains(
        "total_user_time_us * 10_000 + total_system_time_us * 10_000 AS cpu_impact,"
    ));
    assert!(sql.contains("total_memory_usage * 10 AS memory_impact,"));
    assert!(sql.contains("total_query_duration_ms * 1_000_000 AS time_impact,"));
    assert!(sql.contains(
        "io_impact + network_impact + cpu_impact + memory_impact + time_impact AS total_impact"
    ));
    assert!(sql.contains(
        "WHERE type != 'QueryStart' AND query_kind = 'Select' AND user IN (?)\n            GROUP BY normalized_query_hash\n"
    ));
    assert!(sql.starts_with("\n            WITH\n               sum(query_duration_ms) AS total_query_duration_ms,\n"));
    assert!(sql.contains("               normalized_query_hash,\n               any(query) AS query,\n"));
    assert_eq!(sql.matches('?').count(), 1);
}

#[test]
fn the_total_query_counts_and_does_not_group() {
    let sql = logs_total_sql("");
    assert!(sql.contains("               count() AS queries_count,\n"));
    assert!(!sql.contains("GROUP BY"));
    assert!(sql.ends_with("WHERE type != 'QueryStart' AND query_kind = 'Select' \n            "));
    assert_eq!(sql.matches('?').count(), 0);
}

#[test]
fn the_query_for_one_fingerprint_names_it_in_decimal() {
    let sql = log_by_fingerprint_sql(18_446_744_073_709_551_615, "AND read_rows >= ?");
    assert!(sql.contains(
        "              AND normalized_query_hash = 18446744073709551615 AND read_rows >= ?\n            GROUP BY normalized_query_hash\n"
    ));
    assert!(sql.contains("groupUniqArray(user) AS users,"));
    assert!(sql.contains("arrayDistinct(arrayFlatten(groupArray(tables))) AS tables\n"));
}

#[test]
fn the_error_query_has_a_place_for_each_filter() {
    let sql = error_by_code_sql("AND code IN (?)", "AND count >= ?");
    assert_eq!(
        sql,
        "\n            SELECT\n                code,\n                any(name)        AS name,\n                sum(value)       AS count,\n                max(last_error_time)    AS last_error_time,\n                any(last_error_message) AS error_message\n            FROM system.errors\n            WHERE 1 = 1\n              AND code IN (?)\n            GROUP BY code\n            HAVING 1 = 1\n              AND count >= ?\n            "
    );
}

#[test]
fn statements_pair_the_text_with_the_parameters_of_the_filter() {
    let statement = Statement::logs_by_fingerprint(&plain_filter());
    assert_eq!(
        statement.sql,
        logs_by_fingerprint_sql("AND event_time >= toDateTime(?, 'UTC') AND user IN (?)")
    );
    assert_eq!(
        statement.params,
        vec![
            QueryParam::DateTime(Timestamp::from_unix_seconds(1_704_067_200)),
            QueryParam::String("default".to_string()),
        ]
    );
    let total = Statement::logs_total(&plain_filter());
    assert_eq!(
        total.sql,
        logs_total_sql("AND event_time >= toDateTime(?, 'UTC') AND user IN (?)")
    );
    assert_eq!(total.params, statement.params);
    let single = Statement::log_by_fingerprint(255, &plain_filter());
    assert_eq!(
        single.sql,
        log_by_fingerprint_sql(255, "AND event_time >= toDateTime(?, 'UTC') AND user IN (?)")
    );
    assert_eq!(single.params, statement.params);
}

#[test]
fn the_error_statement_lists_where_parameters_before_having_parameters() {
    let filter = ErrorFilter { last: None, min_count: Some(10), code: vec![1002, 1003] };
    let statement = Statement::error_by_code(&filter);
    assert_eq!(statement.sql, error_by_code_sql("AND code IN (?, ?)", "AND count >= ?"));
    assert_eq!(
        statement.params,
        vec![QueryParam::Int32(1002), QueryParam::Int32(1003), QueryParam::UInt64(10)]
    );
}

#[test]
fn parameters_take_the_places_of_the_marks_in_order() {
    let node = clickhouse::Client::default();
    let params = vec![
        QueryParam::DateTime(Timestamp::from_unix_seconds(1_704_067_200)),
        QueryParam::UInt64(5),
        QueryParam::Int32(-7),
        QueryParam::String("o'neil\\".to_string()),
    ];
    let query = build_query_with_params(&node, "SELECT ?, ?, ?, ? FROM t", &params).unwrap();
    assert_eq!(
        query.sql_display().to_string(),
        "SELECT '2024-01-01 00:00:00', '5', '-7', 'o\\'neil\\\\' FROM t"
    );
}

#[test]
fn a_query_without_parameters_is_the_text_itself() {
    let node = clickhouse::Client::default();
    let query = build_query_with_params(&node, "SELECT 1", &[]).unwrap();
    assert_eq!(query.sql_display().to_string(), "SELECT 1");
}

#[test]
fn a_timestamp_that_cannot_be_written_fails_the_query() {
    let node = clickhouse::Client::default();
    let params = vec![QueryParam::UInt64(1), QueryParam::DateTime(Timestamp { unix_nanos: i128::MAX })];
    match build_query_with_params(&node, "SELECT ?, ?", &params) {
        Err(ClientError::Format(FormatError { reason })) => assert!(!reason.is_empty()),
        Err(other) => panic!("another error: {:?}", other),
        Ok(_) => panic!("the query was built"),
    }
}

#[test]
fn the_error_holds_what_the_formatter_said() {
    let node = clickhouse::Client::default();
    let expected = time::OffsetDateTime::from_unix_timestamp_nanos(i128::MAX).unwrap_err().to_string();
    let params = vec![
        QueryParam::String("x".to_string()),
        QueryParam::DateTime(Timestamp { unix_nanos: i128::MAX }),
        QueryParam::UInt64(1),
    ];
    match build_query_with_params(&node, "SELECT ?, ?, ?", &params) {
        Err(ClientError::Format(FormatError { reason })) => assert_eq!(reason, expected),
        other => panic!("not a format error: {:?}", other.map(|q| q.sql_display().to_string())),
    }
}

#[test]
fn without_a_node_no_query_is_built_and_nothing_fails() {
    let client = ClusterClient::new(Config {
        urls: &[],
        user: "u",
        password: &Password::new("p".to_string()),
        danger_accept_invalid_certs: false,
    })
    .unwrap();
    let unwritable = Statement {
        sql: "SELECT ?".to_string(),
        params: vec![QueryParam::DateTime(Timestamp { unix_nanos: i128::MIN })],
    };
    assert_eq!(client.queries(&unwritable).unwrap().len(), 0);
}

#[test]
fn one_failure_among_three_nodes_fails_the_whole() {
    for failing in 0..3usize {
        for place in 0..3usize {
            let mut reports = vec![done((failing + 1) % 3), done((failing + 2) % 3)];
            reports.insert(place, failed(failing, "connection reset"));
            assert_eq!(
                fan_out_outcome(3, reports),
                Some(Err(NodeFailure {
                    node: failing,
                    cause: ClientError::Query("connection reset".to_string())
                }))
            );
        }
    }
}

#[test]
fn the_first_failure_is_the_one_reported() {
    let reports = vec![done(2), failed(0, "first"), failed(1, "second")];
    assert_eq!(
        fan_out_outcome(3, reports),
        Some(Err(NodeFailure { node: 0, cause: ClientError::Query("first".to_string()) }))
    );
    let send = vec![NodeReport { node: 1, outcome: Err(ClientError::Send) }, failed(0, "late")];
    assert_eq!(
        fan_out_outcome(3, send),
        Some(Err(NodeFailure { node: 1, cause: ClientError::Send }))
    );
}

#[test]
fn the_whole_succeeds_when_every_node_has() {
    assert_eq!(fan_out_outcome(3, vec![done(1), done(0), done(2)]), Some(Ok(())));
    assert_eq!(fan_out_outcome(0, Vec::new()), Some(Ok(())));
}

#[test]
fn the_outcome_is_open_while_a_node_is_still_at_work() {
    assert_eq!(fan_out_outcome(3, vec![done(1), done(0)]), None);
    assert_eq!(fan_out_outcome(1, Vec::new()), None);
}

#[test]
fn the_state_of_the_fan_out_follows_the_reports() {
    let mut state = FanOut::new(2);
    assert_eq!(state, FanOut { nodes: 2, finished: 0, failure: None });
    assert!(!state.is_done());
    state.node_finished(done(1));
    assert_eq!(state, FanOut { nodes: 2, finished: 1, failure: None });
    assert!(!state.is_done());
    state.node_finished(failed(0, "boom"));
    assert!(state.is_done());
    state.node_finished(failed(1, "later"));
    assert_eq!(state.finished, 3);
    assert_eq!(
        state.outcome(),
        Some(Err(NodeFailure { node: 0, cause: ClientError::Query("boom".to_string()) }))
    );
}

#[test]
fn a_client_holds_one_connection_for_each_address() {
    let urls = vec!["http://a:8123".to_string(), "http://b:8123".to_string()];
    let client = ClusterClient::new(Config {
        urls: &urls,
        user: "default",
        password: &Password::new(String::new()),
        danger_accept_invalid_certs: false,
    })
    .unwrap();
    assert_eq!(client.len(), 2);
    let statement = Statement {
        sql: "SELECT ? FROM t".to_string(),
        params: vec![QueryParam::String("x".to_string())],
    };
    let queries = client.queries(&statement).unwrap();
    assert_eq!(queries.len(), 2);
    for query in &queries {
        assert_eq!(query.sql_display().to_string(), "SELECT 'x' FROM t");
    }
    let unwritable = Statement {
        sql: "SELECT ?".to_string(),
        params: vec![QueryParam::DateTime(Timestamp { unix_nanos: i128::MIN })],
    };
    assert!(matches!(client.queries(&unwritable), Err(ClientError::Format(_))));
}

#[test]
fn a_connection_that_cannot_be_set_up_is_an_error_with_the_reason() {
    match node_from(Err("no TLS here".to_string()), "http://a:8123", "u", "p") {
        Err(e) => assert_eq!(e, ClientError::InitializationError("no TLS here".to_string())),
        Ok(_) => panic!("a connection was made of nothing"),
    }
    match node_from(Ok(clickhouse::Client::default()), "http://a:8123", "u", "p") {
        Ok(node) => {
            let query = build_query_with_params(&node, "SELECT 1", &[]).unwrap();
            assert_eq!(query.sql_display().to_string(), "SELECT 1");
        }
        Err(e) => panic!("no connection: {:?}", e),
    }
}

#[test]
fn a_client_without_addresses_has_no_connection() {
    let client = ClusterClient::new(Config {
        urls: &[],
        user: "u",
        password: &Password::new("p".to_string()),
        danger_accept_invalid_certs: true,
    })
    .unwrap();
    assert_eq!(client.len(), 0);
    let statement = Statement { sql: "SELECT 1".to_string(), params: Vec::new() };
    assert_eq!(client.queries(&statement).unwrap().len(), 0);
}
