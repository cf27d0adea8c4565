use clickcheck::client::filter::{ErrorFilter, Predicate, QueryLogFilter, QueryParam};
use clickcheck::model::{BuildError, ErrorsFilter, QueriesFilter};
use clickcheck::timestamp::{TimeSpan, Timestamp};

fn texts(list: &[&str]) -> Vec<String> {
    list.iter().map(|s| s.to_string()).collect()
}

fn no_filter() -> QueryLogFilter {
    QueryLogFilter {
        from: None,
        to: None,
        last: None,
        users: Vec::new(),
        databases: Vec::new(),
        tables: Vec::new(),
        min_query_duration: None,
        min_read_rows: None,
        min_read_data: None,
    }
}

/// 2024-01-01T00:00:00Z
fn new_year_2024() -> Timestamp {
    Timestamp::from_unix_seconds(1_704_067_200)
}

#[test]
fn a_filter_with_from_alone_has_one_clause_and_one_timestamp() {
    let filter = QueryLogFilter { from: Some(new_year_2024()), ..no_filter() };
    let (fragment, params) = filter.build_where();
    assert_eq!(fragment, "AND event_time >= toDateTime(?, 'UTC')");
    assert_eq!(params, vec![QueryParam::DateTime(new_year_2024())]);
}

#[test]
fn adding_tables_appends_a_membership_clause_and_two_texts() {
    let filter = QueryLogFilter {
        from: Some(new_year_2024()),
        tables: texts(&["t1", "t2"]),
        ..no_filter()
    };
    let (fragment, params) = filter.build_where();
    assert_eq!(
        fragment,
        "AND event_time >= toDateTime(?, 'UTC') AND hasAny(query_log.tables, [?, ?])"
    );
    assert_eq!(
        params,
        vec![
            QueryParam::DateTime(new_year_2024()),
            QueryParam::String("t1".to_string()),
            QueryParam::String("t2".to_string()),
        ]
    );
}

#[test]
fn a_filter_without_criteria_renders_to_the_empty_fragment() {
    let (fragment, params) = no_filter().build_where();
    assert_eq!(fragment, "");
    assert!(params.is_empty());
}

#[test]
fn every_criterion_renders_in_its_place() {
    let filter = QueryLogFilter {
        from: Some(Timestamp::from_unix_seconds(100)),
        to: Some(Timestamp::from_unix_seconds(200)),
        last: Some(TimeSpan::from_secs(60)),
        users: texts(&["alice", "bob", "carol"]),
        databases: texts(&["d1"]),
        tables: texts(&["t1", "t2"]),
        min_query_duration: Some(TimeSpan { nanos: 1_500_999_999 }),
        min_read_rows: Some(7),
        min_read_data: Some(1_000_000),
    };
    let now = Timestamp::from_unix_seconds(1_000);
    let (fragment, params) = filter.build_where_at(now);
    assert_eq!(
        fragment,
        "AND event_time >= toDateTime(?, 'UTC') \
         AND event_time >= toDateTime(?, 'UTC') \
         AND event_time < toDateTime(?, 'UTC') \
         AND user IN (?, ?, ?) \
         AND read_rows >= ? \
         AND read_bytes >= ? \
         AND query_duration_ms >= ? \
         AND hasAny(query_log.tables, [?, ?]) \
         AND hasAny(query_log.databases, [?])"
    );
    assert_eq!(
        params,
        vec![
            QueryParam::DateTime(Timestamp::from_unix_seconds(100)),
            QueryParam::DateTime(Timestamp::from_unix_seconds(940)),
            QueryParam::DateTime(Timestamp::from_unix_seconds(200)),
            QueryParam::String("alice".to_string()),
            QueryParam::String("bob".to_string()),
            QueryParam::String("carol".to_string()),
            QueryParam::UInt64(7),
            QueryParam::UInt64(1_000_000),
            QueryParam::UInt64(1_500),
            QueryParam::String("t1".to_string()),
            QueryParam::String("t2".to_string()),
            QueryParam::String("d1".to_string()),
        ]
    );
    assert_eq!(fragment.matches('?').count(), params.len());
}

#[test]
fn a_span_is_taken_back_from_the_clock() {
    let filter = QueryLogFilter { last: Some(TimeSpan::from_secs(3_600)), ..no_filter() };
    let before = time::OffsetDateTime::now_utc().unix_timestamp_nanos();
    let (fragment, params) = filter.build_where();
    let after = time::OffsetDateTime::now_utc().unix_timestamp_nanos();
    assert_eq!(fragment, "AND event_time >= toDateTime(?, 'UTC')");
    assert_eq!(params.len(), 1);
    match &params[0] {
        QueryParam::DateTime(threshold) => {
            let hour: i128 = 3_600_000_000_000;
            assert!(before - hour <= threshold.unix_nanos);
            assert!(threshold.unix_nanos <= after - hour);
        }
        other => panic!("not a timestamp: {:?}", other),
    }
}

#[test]
fn a_span_longer_than_all_time_stops_at_the_earliest_instant() {
    let now = Timestamp { unix_nanos: 5 };
    assert_eq!(now.minus(TimeSpan { nanos: u128::MAX }), Timestamp { unix_nanos: i128::MIN });
    assert_eq!(
        now.minus(TimeSpan { nanos: (1u128 << 127) + 5 }),
        Timestamp { unix_nanos: i128::MIN }
    );
    assert_eq!(
        now.minus(TimeSpan { nanos: (1u128 << 127) + 4 }),
        Timestamp { unix_nanos: i128::MIN + 1 }
    );
    assert_eq!(now.minus(TimeSpan { nanos: 7 }), Timestamp { unix_nanos: -2 });
    assert_eq!(
        Timestamp { unix_nanos: i128::MIN + 3 }.minus(TimeSpan { nanos: 4 }),
        Timestamp { unix_nanos: i128::MIN }
    );
}

#[test]
fn a_duration_of_more_milliseconds_than_64_bits_count_is_the_most_they_count() {
    let filter = QueryLogFilter {
        min_query_duration: Some(TimeSpan { nanos: ((1u128 << 64) + 5) * 1_000_000 + 999_999 }),
        ..no_filter()
    };
    let (_, params) = filter.build_where();
    assert_eq!(params, vec![QueryParam::UInt64(u64::MAX)]);
    assert_eq!(TimeSpan { nanos: u128::MAX }.as_millis_u64(), u64::MAX);
    assert_eq!(
        TimeSpan { nanos: (u64::MAX as u128) * 1_000_000 + 999_999 }.as_millis_u64(),
        u64::MAX
    );
    assert_eq!(
        TimeSpan { nanos: (u64::MAX as u128) * 1_000_000 - 1 }.as_millis_u64(),
        u64::MAX - 1
    );
}

#[test]
fn timestamps_render_on_the_utc_calendar() {
    let param = QueryParam::DateTime(new_year_2024());
    assert_eq!(param.to_sql_string().unwrap(), "2024-01-01 00:00:00");
    let late = QueryParam::DateTime(Timestamp { unix_nanos: 1_714_836_645_999_999_999 });
    assert_eq!(late.to_sql_string().unwrap(), "2024-05-04 15:30:45");
    let early = QueryParam::DateTime(Timestamp::from_unix_seconds(-1));
    assert_eq!(early.to_sql_string().unwrap(), "1969-12-31 23:59:59");
}

#[test]
fn timestamps_render_as_the_time_crate_renders_them() {
    let description =
        time::format_description::parse_borrowed::<1>("[year]-[month]-[day] [hour]:[minute]:[second]")
            .unwrap();
    for seconds in [0i64, 1, 86_399, 951_782_400, 4_102_444_799, -62_135_596_800] {
        let expected =
            time::OffsetDateTime::from_unix_timestamp(seconds).unwrap().format(&description).unwrap();
        let param = QueryParam::DateTime(Timestamp::from_unix_seconds(seconds));
        assert_eq!(param.to_sql_string().unwrap(), expected);
    }
}

#[test]
fn a_timestamp_beyond_the_calendar_is_a_format_error() {
    let param = QueryParam::DateTime(Timestamp { unix_nanos: i128::MAX });
    let error = param.to_sql_string().unwrap_err();
    assert!(!error.reason.is_empty());
    assert!(QueryParam::DateTime(Timestamp { unix_nanos: i128::MIN }).to_sql_string().is_err());
}

#[test]
fn integers_render_in_decimal_and_texts_as_they_are() {
    assert_eq!(QueryParam::UInt64(0).to_sql_string().unwrap(), "0");
    assert_eq!(QueryParam::UInt64(u64::MAX).to_sql_string().unwrap(), "18446744073709551615");
    assert_eq!(QueryParam::Int32(-42).to_sql_string().unwrap(), "-42");
    assert_eq!(QueryParam::Int32(i32::MIN).to_sql_string().unwrap(), "-2147483648");
    assert_eq!(QueryParam::Int32(i32::MAX).to_sql_string().unwrap(), "2147483647");
    assert_eq!(
        QueryParam::String("it's; DROP TABLE".to_string()).to_sql_string().unwrap(),
        "it's; DROP TABLE"
    );
}

#[test]
fn written_datetime_hands_on_what_the_formatter_said() {
    assert_eq!(QueryParam::written_datetime(Ok("x".to_string())), Ok("x".to_string()));
    let refused = QueryParam::written_datetime(Err("out of range".to_string()));
    assert_eq!(refused.unwrap_err().reason, "out of range");
}

#[test]
fn error_codes_render_as_a_membership_clause() {
    let filter = ErrorFilter { last: None, min_count: None, code: vec![60, -1, 241] };
    let (fragment, params) = filter.build_where();
    assert_eq!(fragment, "AND code IN (?, ?, ?)");
    assert_eq!(
        params,
        vec![QueryParam::Int32(60), QueryParam::Int32(-1), QueryParam::Int32(241)]
    );
    let (having, having_params) = filter.build_having();
    assert_eq!(having, "");
    assert!(having_params.is_empty());
}

#[test]
fn an_error_filter_without_codes_selects_every_counter() {
    let filter = ErrorFilter { last: None, min_count: Some(3), code: Vec::new() };
    let (fragment, params) = filter.build_where();
    assert_eq!(fragment, "");
    assert!(params.is_empty());
}

#[test]
fn the_having_clause_holds_count_and_window() {
    let filter = ErrorFilter { last: Some(TimeSpan::from_millis(1_500)), min_count: Some(3), code: vec![] };
    let (fragment, params) = filter.build_having_at(Timestamp::from_unix_seconds(10));
    assert_eq!(fragment, "AND count >= ? AND last_error_time >= toDateTime(?, 'UTC')");
    assert_eq!(
        params,
        vec![
            QueryParam::UInt64(3),
            QueryParam::DateTime(Timestamp { unix_nanos: 8_500_000_000 }),
        ]
    );
    let count_only = ErrorFilter { last: None, min_count: Some(9), code: vec![] };
    let (fragment, params) = count_only.build_having();
    assert_eq!(fragment, "AND count >= ?");
    assert_eq!(params, vec![QueryParam::UInt64(9)]);
}

#[test]
fn a_predicate_keeps_clauses_and_parameters_in_order() {
    let mut predicate = Predicate::new();
    predicate.add_clause("a = ?".to_string(), vec![QueryParam::UInt64(1)]);
    predicate.add_clause("b".to_string(), Vec::new());
    predicate.add_clause(
        "c BETWEEN ? AND ?".to_string(),
        vec![QueryParam::Int32(2), QueryParam::Int32(3)],
    );
    let (fragment, params) = predicate.build();
    assert_eq!(fragment, "AND a = ? AND b AND c BETWEEN ? AND ?");
    assert_eq!(
        params,
        vec![QueryParam::UInt64(1), QueryParam::Int32(2), QueryParam::Int32(3)]
    );
    let (empty, none) = Predicate::new().build();
    assert_eq!(empty, "");
    assert!(none.is_empty());
}

#[test]
fn filters_carry_over_field_by_field() {
    let filter = QueriesFilter {
        from: Some(Timestamp::from_unix_seconds(1)),
        to: Some(Timestamp::from_unix_seconds(2)),
        last: Some(TimeSpan::from_secs(3)),
        users: texts(&["u"]),
        databases: texts(&["d"]),
        tables: texts(&["t"]),
        min_query_duration: Some(TimeSpan::from_millis(4)),
        min_read_rows: Some(5),
        min_read_data: Some(6),
    };
    let made = QueryLogFilter::from(filter.clone());
    assert_eq!(made.from, filter.from);
    assert_eq!(made.to, filter.to);
    assert_eq!(made.last, filter.last);
    assert_eq!(made.users, filter.users);
    assert_eq!(made.databases, filter.databases);
    assert_eq!(made.tables, filter.tables);
    assert_eq!(made.min_query_duration, filter.min_query_duration);
    assert_eq!(made.min_read_rows, filter.min_read_rows);
    assert_eq!(made.min_read_data, filter.min_read_data);

    let errors = ErrorsFilter { last: Some(TimeSpan::from_secs(1)), min_count: Some(2), code: vec![3] };
    assert_eq!(
        ErrorFilter::from(errors),
        ErrorFilter { last: Some(TimeSpan::from_secs(1)), min_count: Some(2), code: vec![3] }
    );
}

#[test]
fn the_window_starts_once() {
    let blank = QueriesFilter {
        from: None,
        to: None,
        last: None,
        users: Vec::new(),
        databases: Vec::new(),
        tables: Vec::new(),
        min_query_duration: None,
        min_read_rows: None,
        min_read_data: None,
    };
    assert_eq!(blank.check_window(), Err(BuildError::NoWindow));
    let from = QueriesFilter { from: Some(Timestamp::from_unix_seconds(1)), ..blank.clone() };
    assert_eq!(from.check_window(), Ok(()));
    let last = QueriesFilter { last: Some(TimeSpan::from_secs(1)), ..blank.clone() };
    assert_eq!(last.check_window(), Ok(()));
    let both = QueriesFilter { last: Some(TimeSpan::from_secs(1)), ..from.clone() };
    assert_eq!(both.check_window(), Err(BuildError::TwoWindows));
    let to_only = QueriesFilter { to: Some(Timestamp::from_unix_seconds(1)), ..blank };
    assert_eq!(to_only.check_window(), Err(BuildError::NoWindow));
}

#[test]
fn spans_count_nanoseconds() {
    assert_eq!(TimeSpan::from_secs(2).nanos, 2_000_000_000);
    assert_eq!(TimeSpan::from_millis(3).nanos, 3_000_000);
    assert_eq!(TimeSpan::from_secs(u64::MAX).nanos, u64::MAX as u128 * 1_000_000_000);
    assert_eq!(TimeSpan { nanos: 1_999_999 }.as_millis(), 1);
    assert_eq!(TimeSpan { nanos: 999_999 }.as_millis_u64(), 0);
    assert_eq!(Timestamp::from_unix_seconds(-3).unix_nanos, -3_000_000_000);
    assert_eq!(
        Timestamp::from_unix_seconds(1).latest(Timestamp::from_unix_seconds(2)),
        Timestamp::from_unix_seconds(2)
    );
    assert_eq!(
        Timestamp::from_unix_seconds(1).earliest(Timestamp::from_unix_seconds(2)),
        Timestamp::from_unix_seconds(1)
    );
}
