use clickcheck::decimal::{decimal_text, hex_text, signed_decimal_text};
use clickcheck::model::{ImpactScores, QueryLog};
use clickcheck::names::{compare_texts, same_text, text_precedes, Standing};
use clickcheck::timestamp::Timestamp;

fn counters() -> QueryLog {
    QueryLog {
        normalized_query_hash: 1,
        query: String::new(),
        max_event_time: Timestamp::from_unix_seconds(0),
        min_event_time: Timestamp::from_unix_seconds(0),
        total_query_duration_ms: 3,
        total_read_rows: 5,
        total_read_bytes: 7,
        total_memory_usage: 11,
        total_user_time_us: 13,
        total_system_time_us: 17,
        total_network_receive_bytes: 19,
        total_network_send_bytes: 23,
        users: Vec::new(),
        databases: Vec::new(),
        tables: Vec::new(),
        io_impact: 0,
        network_impact: 0,
        cpu_impact: 0,
        memory_impact: 0,
        time_impact: 0,
        total_impact: 0,
    }
}

#[test]
fn numbers_are_written_in_decimal() {
    for n in [0u64, 1, 9, 10, 11, 99, 100, 12_345, u64::MAX] {
        assert_eq!(decimal_text(n), n.to_string());
    }
    for n in [0i32, 1, -1, 10, -10, i32::MAX, i32::MIN] {
        assert_eq!(signed_decimal_text(n), n.to_string());
    }
}

#[test]
fn numbers_are_written_in_hexadecimal() {
    assert_eq!(hex_text(0), "0x0");
    assert_eq!(hex_text(255), "0xff");
    for n in [1u64, 9, 10, 15, 16, 0xabcdef, 0x1234_5678_9abc_def0, u64::MAX] {
        assert_eq!(hex_text(n), format!("{:#x}", n));
    }
}

#[test]
fn texts_are_ordered_as_str_orders_them() {
    let samples = ["", "a", "A", "ab", "b", "é", "e\u{301}", "z", "日本", "\u{10000}", "\u{ffff}", "a\n"];
    for a in samples {
        for b in samples {
            let expected = if a < b {
                Standing::Before
            } else if a == b {
                Standing::Same
            } else {
                Standing::After
            };
            assert_eq!(compare_texts(a, b), expected);
            assert_eq!(text_precedes(a, b), a < b);
            assert_eq!(same_text(a, b), a == b);
        }
    }
}

#[test]
fn counters_weigh_up_to_impacts() {
    assert_eq!(
        counters().weighted_impacts(),
        ImpactScores {
            io_impact: 5 * 100 + 7,
            network_impact: (19 + 23) * 10,
            cpu_impact: (13 + 17) * 10_000,
            memory_impact: 11 * 10,
            time_impact: 3 * 1_000_000,
            total_impact: 507 + 420 + 300_000 + 110 + 3_000_000,
        }
    );
}

#[test]
fn impacts_saturate() {
    let mut heavy = counters();
    heavy.total_read_rows = u64::MAX / 100 + 1;
    heavy.total_network_receive_bytes = u64::MAX;
    heavy.total_user_time_us = u64::MAX / 10_000;
    heavy.total_system_time_us = 1;
    heavy.total_memory_usage = u64::MAX / 10;
    heavy.total_query_duration_ms = u64::MAX / 1_000_000 + 1;
    let scores = heavy.weighted_impacts();
    assert_eq!(scores.io_impact, u64::MAX);
    assert_eq!(scores.network_impact, u64::MAX);
    assert_eq!(scores.cpu_impact, u64::MAX);
    assert_eq!(scores.memory_impact, u64::MAX / 10 * 10);
    assert_eq!(scores.time_impact, u64::MAX);
    assert_eq!(scores.total_impact, u64::MAX);

    let mut edge = counters();
    edge.total_read_rows = u64::MAX / 100;
    edge.total_read_bytes = u64::MAX % 100;
    assert_eq!(edge.weighted_impacts().io_impact, u64::MAX);
    edge.total_read_bytes = 0;
    assert_eq!(edge.weighted_impacts().io_impact, u64::MAX - u64::MAX % 100);
}
