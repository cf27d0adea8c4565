use clickcheck::analyzer::{merge_string_vecs, top_errors, top_queries, total_queries, Analyzer};
use clickcheck::model::{Error, QueriesSortBy, QueryLog, QueryLogTotal};
use clickcheck::timestamp::Timestamp;

fn names(list: &[&str]) -> Vec<String> {
    list.iter().map(|s| s.to_string()).collect()
}

fn row(hash: u64, total_impact: u64) -> QueryLog {
    QueryLog {
        normalized_query_hash: hash,
        query: format!("SELECT {hash}"),
        max_event_time: Timestamp::from_unix_seconds(2_000),
        min_event_time: Timestamp::from_unix_seconds(1_000),
        total_query_duration_ms: 1,
        total_read_rows: 2,
        total_read_bytes: 3,
        total_memory_usage: 4,
        total_user_time_us: 5,
        total_system_time_us: 6,
        total_network_receive_bytes: 7,
        total_network_send_bytes: 8,
        users: names(&["default"]),
        databases: names(&["system"]),
        tables: names(&["system.query_log"]),
        io_impact: 0,
        network_impact: 0,
        cpu_impact: 0,
        memory_impact: 0,
        time_impact: 0,
        total_impact,
    }
}

fn error(code: i32, count: u64, seen: i64) -> Error {
    Error {
        code,
        name: format!("ERROR_{code}"),
        count,
        last_error_time: Timestamp::from_unix_seconds(seen),
        error_message: format!("message {code} at {seen}"),
    }
}

#[test]
fn top_queries_by_total_impact_keeps_the_two_heaviest() {
    let rows = vec![row(1, 30), row(2, 10), row(3, 50)];
    let top = top_queries(rows, 2, QueriesSortBy::TotalImpact);
    let impacts: Vec<u64> = top.iter().map(|q| q.total_impact).collect();
    assert_eq!(impacts, vec![50, 30]);
    assert_eq!(top[0].normalized_query_hash, 3);
    assert_eq!(top[1].normalized_query_hash, 1);
}

#[test]
fn top_queries_with_room_lists_every_record() {
    let rows = vec![row(1, 30), row(2, 10), row(3, 50)];
    let top = top_queries(rows, 5, QueriesSortBy::TotalImpact);
    let hashes: Vec<u64> = top.iter().map(|q| q.normalized_query_hash).collect();
    assert_eq!(hashes, vec![3, 1, 2]);
}

#[test]
fn top_queries_with_limit_zero_is_empty() {
    let top = top_queries(vec![row(1, 30)], 0, QueriesSortBy::TotalImpact);
    assert!(top.is_empty());
}

#[test]
fn top_queries_of_no_rows_is_empty() {
    let top = top_queries(Vec::new(), 3, QueriesSortBy::TotalImpact);
    assert!(top.is_empty());
}

#[test]
fn top_queries_ties_are_listed_by_fingerprint() {
    let rows = vec![row(9, 7), row(4, 7), row(6, 7)];
    let top = top_queries(rows, 2, QueriesSortBy::TotalImpact);
    let hashes: Vec<u64> = top.iter().map(|q| q.normalized_query_hash).collect();
    assert_eq!(hashes, vec![4, 6]);
}

#[test]
fn top_queries_ranks_by_the_chosen_score() {
    let mut a = row(1, 1);
    a.io_impact = 5;
    a.cpu_impact = 1;
    a.memory_impact = 9;
    a.time_impact = 2;
    a.network_impact = 4;
    let mut b = row(2, 2);
    b.io_impact = 6;
    b.cpu_impact = 0;
    b.memory_impact = 3;
    b.time_impact = 8;
    b.network_impact = 1;
    let first = |sort_by| top_queries(vec![a.clone(), b.clone()], 1, sort_by)[0].normalized_query_hash;
    assert_eq!(first(QueriesSortBy::TotalImpact), 2);
    assert_eq!(first(QueriesSortBy::IOImpact), 2);
    assert_eq!(first(QueriesSortBy::CPUImpact), 1);
    assert_eq!(first(QueriesSortBy::MemoryImpact), 1);
    assert_eq!(first(QueriesSortBy::TimeImpact), 2);
    assert_eq!(first(QueriesSortBy::NetworkImpact), 1);
}

#[test]
fn top_queries_ranks_by_a_counter_as_well() {
    let mut a = row(1, 1);
    a.total_query_duration_ms = 9;
    a.total_read_rows = 1;
    a.total_read_bytes = 9;
    a.total_memory_usage = 1;
    a.total_user_time_us = 9;
    a.total_system_time_us = 1;
    a.total_network_receive_bytes = 9;
    a.total_network_send_bytes = 1;
    let mut b = row(2, 2);
    b.total_query_duration_ms = 5;
    b.total_read_rows = 5;
    b.total_read_bytes = 5;
    b.total_memory_usage = 5;
    b.total_user_time_us = 5;
    b.total_system_time_us = 5;
    b.total_network_receive_bytes = 5;
    b.total_network_send_bytes = 5;
    let first = |sort_by| top_queries(vec![a.clone(), b.clone()], 1, sort_by)[0].normalized_query_hash;
    assert_eq!(first(QueriesSortBy::Duration), 1);
    assert_eq!(first(QueriesSortBy::ReadRows), 2);
    assert_eq!(first(QueriesSortBy::ReadBytes), 1);
    assert_eq!(first(QueriesSortBy::MemoryUsage), 2);
    assert_eq!(first(QueriesSortBy::UserTime), 1);
    assert_eq!(first(QueriesSortBy::SystemTime), 2);
    assert_eq!(first(QueriesSortBy::NetworkReceived), 1);
    assert_eq!(first(QueriesSortBy::NetworkSent), 2);
}

#[test]
fn rows_of_one_fingerprint_are_merged() {
    let mut first = row(7, 10);
    first.users = names(&["zoe", "adam", "zoe"]);
    first.databases = names(&["db2"]);
    first.tables = names(&["t"]);
    first.io_impact = 1;
    first.network_impact = 2;
    first.cpu_impact = 3;
    first.memory_impact = 4;
    first.time_impact = 0;
    let mut second = row(7, 25);
    second.query = "SELECT other".to_string();
    second.max_event_time = Timestamp::from_unix_seconds(3_000);
    second.min_event_time = Timestamp::from_unix_seconds(500);
    second.users = names(&["bob", "adam"]);
    second.databases = names(&["db1", "db2"]);
    second.tables = names(&[]);
    second.io_impact = 10;
    second.network_impact = 20;
    second.cpu_impact = 30;
    second.memory_impact = 40;
    second.time_impact = 50;

    let top = top_queries(vec![first, second], 5, QueriesSortBy::TotalImpact);
    assert_eq!(top.len(), 1);
    let merged = &top[0];
    assert_eq!(merged.normalized_query_hash, 7);
    assert_eq!(merged.query, "SELECT 7");
    assert_eq!(merged.max_event_time, Timestamp::from_unix_seconds(3_000));
    assert_eq!(merged.min_event_time, Timestamp::from_unix_seconds(500));
    assert_eq!(merged.total_query_duration_ms, 2);
    assert_eq!(merged.total_read_rows, 4);
    assert_eq!(merged.total_read_bytes, 6);
    assert_eq!(merged.total_memory_usage, 8);
    assert_eq!(merged.total_user_time_us, 10);
    assert_eq!(merged.total_system_time_us, 12);
    assert_eq!(merged.total_network_receive_bytes, 14);
    assert_eq!(merged.total_network_send_bytes, 16);
    assert_eq!(merged.users, names(&["adam", "bob", "zoe"]));
    assert_eq!(merged.databases, names(&["db1", "db2"]));
    assert_eq!(merged.tables, names(&["t"]));
    assert_eq!(merged.io_impact, 11);
    assert_eq!(merged.network_impact, 22);
    assert_eq!(merged.cpu_impact, 33);
    assert_eq!(merged.memory_impact, 44);
    assert_eq!(merged.time_impact, 50);
    assert_eq!(merged.total_impact, 35);
}

#[test]
fn a_single_row_is_filed_with_its_names_in_order() {
    let mut only = row(1, 10);
    only.users = names(&["bob", "alice", "bob"]);
    only.databases = names(&["z", "a", "z", "a"]);
    only.tables = names(&["t2", "t1"]);
    let mut expected = only.clone();
    expected.users = names(&["alice", "bob"]);
    expected.databases = names(&["a", "z"]);
    expected.tables = names(&["t1", "t2"]);
    let top = top_queries(vec![only.clone()], 5, QueriesSortBy::TotalImpact);
    assert_eq!(top, vec![expected.clone()]);

    let mut analyzer = Analyzer::new();
    analyzer.merge_query(only);
    assert_eq!(analyzer.finish().top_queries(1, QueriesSortBy::TotalImpact), vec![expected]);
}

#[test]
fn one_report_and_two_reports_show_the_same_names() {
    let mut whole = row(1, 10);
    whole.users = names(&["bob", "alice", "bob"]);
    let mut first = row(1, 10);
    first.users = names(&["bob"]);
    let mut second = row(1, 10);
    second.users = names(&["alice", "bob"]);
    let once = top_queries(vec![whole], 1, QueriesSortBy::TotalImpact);
    let twice = top_queries(vec![first, second], 1, QueriesSortBy::TotalImpact);
    assert_eq!(once[0].users, names(&["alice", "bob"]));
    assert_eq!(once[0].users, twice[0].users);
}

#[test]
fn merged_counters_saturate() {
    let mut first = row(1, u64::MAX - 1);
    first.total_read_rows = u64::MAX;
    let second = row(1, 5);
    let top = top_queries(vec![first, second], 1, QueriesSortBy::TotalImpact);
    assert_eq!(top[0].total_impact, u64::MAX);
    assert_eq!(top[0].total_read_rows, u64::MAX);
    assert_eq!(top[0].total_read_bytes, 6);
}

#[test]
fn total_impact_stays_the_sum_of_the_others() {
    let mut rows = Vec::new();
    for step in 1..=20u64 {
        let mut r = row(step % 3, 0);
        r.io_impact = step;
        r.cpu_impact = 2 * step;
        r.memory_impact = 3 * step;
        r.time_impact = 4 * step;
        r.network_impact = 5 * step;
        r.total_impact = 15 * step;
        rows.push(r);
        let mut analyzer = Analyzer::new();
        for seen in rows.iter().cloned() {
            analyzer.merge_query(seen);
        }
        for q in analyzer.finish().top_queries(10, QueriesSortBy::TotalImpact) {
            assert_eq!(
                q.total_impact,
                q.io_impact + q.cpu_impact + q.memory_impact + q.time_impact + q.network_impact
            );
        }
    }
}

#[test]
fn merge_order_does_not_change_the_records() {
    let mut a = row(1, 10);
    a.users = names(&["u1"]);
    let mut b = row(1, 20);
    b.users = names(&["u3", "u2"]);
    b.max_event_time = Timestamp::from_unix_seconds(9_000);
    let mut c = row(1, 30);
    c.users = names(&["u2"]);
    c.min_event_time = Timestamp::from_unix_seconds(1);
    let d = row(2, 5);
    let orders: Vec<Vec<QueryLog>> = vec![
        vec![a.clone(), b.clone(), c.clone(), d.clone()],
        vec![c.clone(), d.clone(), a.clone(), b.clone()],
        vec![d.clone(), b.clone(), c.clone(), a.clone()],
        vec![b.clone(), a.clone(), d.clone(), c.clone()],
    ];
    let expected = top_queries(orders[0].clone(), 10, QueriesSortBy::TotalImpact);
    assert_eq!(expected[0].total_impact, 60);
    assert_eq!(expected[0].users, names(&["u1", "u2", "u3"]));
    for order in orders {
        assert_eq!(top_queries(order, 10, QueriesSortBy::TotalImpact), expected);
    }
}

#[test]
fn totals_are_added_field_by_field() {
    let rows = vec![
        QueryLogTotal {
            queries_count: 1,
            io_impact: 2,
            network_impact: 3,
            cpu_impact: 4,
            memory_impact: 5,
            time_impact: 6,
            total_impact: 20,
        },
        QueryLogTotal {
            queries_count: 10,
            io_impact: 20,
            network_impact: 30,
            cpu_impact: 40,
            memory_impact: 50,
            time_impact: 60,
            total_impact: 200,
        },
    ];
    let total = total_queries(rows);
    assert_eq!(
        total,
        QueryLogTotal {
            queries_count: 11,
            io_impact: 22,
            network_impact: 33,
            cpu_impact: 44,
            memory_impact: 55,
            time_impact: 66,
            total_impact: 220,
        }
    );
}

#[test]
fn totals_of_no_rows_are_zero() {
    assert_eq!(total_queries(Vec::new()), QueryLogTotal::default());
}

#[test]
fn totals_do_not_depend_on_the_order_of_rows() {
    let rows: Vec<QueryLogTotal> = (1..=6u64)
        .map(|n| QueryLogTotal {
            queries_count: n,
            io_impact: n * 3,
            network_impact: n * 5,
            cpu_impact: n * 7,
            memory_impact: u64::MAX / n,
            time_impact: n * 11,
            total_impact: u64::MAX / (7 - n),
        })
        .collect();
    let expected = total_queries(rows.clone());
    assert_eq!(expected.queries_count, 21);
    assert_eq!(expected.memory_impact, u64::MAX);
    let mut reversed = rows.clone();
    reversed.reverse();
    assert_eq!(total_queries(reversed), expected);
    let mut rotated = rows.clone();
    rotated.rotate_left(2);
    assert_eq!(total_queries(rotated), expected);
}

#[test]
fn top_errors_breaks_ties_by_the_lower_code() {
    let rows = vec![error(1003, 5, 10), error(1002, 5, 20)];
    let top = top_errors(rows, 1);
    assert_eq!(top.len(), 1);
    assert_eq!(top[0].code, 1002);
    assert_eq!(top[0].count, 5);
}

#[test]
fn top_errors_lists_the_highest_counts_first() {
    let rows = vec![error(1, 5, 10), error(2, 50, 10), error(3, 7, 10), error(-4, 7, 10)];
    let codes: Vec<i32> = top_errors(rows, 3).iter().map(|e| e.code).collect();
    assert_eq!(codes, vec![2, -4, 3]);
}

#[test]
fn errors_of_one_code_are_merged() {
    let rows = vec![error(60, 5, 100), error(60, 7, 300), error(60, 1, 200)];
    let top = top_errors(rows, 5);
    assert_eq!(
        top,
        vec![Error {
            code: 60,
            name: "ERROR_60".to_string(),
            count: 13,
            last_error_time: Timestamp::from_unix_seconds(300),
            error_message: "message 60 at 100".to_string(),
        }]
    );
}

#[test]
fn error_counts_saturate() {
    let top = top_errors(vec![error(1, u64::MAX, 1), error(1, 1, 2)], 1);
    assert_eq!(top[0].count, u64::MAX);
}

#[test]
fn merge_string_vecs_sorts_and_drops_repeats() {
    let mut target = names(&["b", "a", "b"]);
    merge_string_vecs(&mut target, &names(&["c", "a", "B", "ab", ""]));
    assert_eq!(target, names(&["", "B", "a", "ab", "b", "c"]));
}

#[test]
fn merge_string_vecs_orders_as_str_does() {
    let mut target = names(&["é", "z", "日本", "a\u{10000}", "a\u{ffff}"]);
    let source = names(&["Z", "ze", "", "é"]);
    let mut expected: Vec<String> = target.iter().chain(source.iter()).cloned().collect();
    expected.sort_unstable();
    expected.dedup();
    merge_string_vecs(&mut target, &source);
    assert_eq!(target, expected);
}

#[test]
fn merge_string_vecs_with_nothing_to_add_still_sorts() {
    let mut target = names(&["b", "a"]);
    merge_string_vecs(&mut target, &[]);
    assert_eq!(target, names(&["a", "b"]));
}

#[test]
fn analyzer_keeps_totals_queries_and_errors_apart() {
    let mut analyzer = Analyzer::new();
    analyzer.merge_query(row(1, 3));
    analyzer.merge_error(error(2, 4, 5));
    analyzer.merge_query_total(QueryLogTotal { queries_count: 9, ..QueryLogTotal::default() });
    let done = analyzer.finish();
    assert_eq!(done.top_queries(5, QueriesSortBy::TotalImpact), vec![row(1, 3)]);
    assert_eq!(done.top_errors(5), vec![error(2, 4, 5)]);
    assert_eq!(done.total_queries().queries_count, 9);
    assert_eq!(done.top_queries(5, QueriesSortBy::TotalImpact), vec![row(1, 3)]);
}
