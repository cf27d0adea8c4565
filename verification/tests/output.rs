use clickcheck::model::{
    Error, OutputFormat, PrintableContextProfile, QueryLog, QueryLogExtended, QueryLogTotal,
};
use clickcheck::output::text::{
    compact_str, is_whitespace, join_texts, print_errors_table, print_query_extended, print_weighted_queries_table,
    query_extended_from, error_row_from,
};
use clickcheck::output::{
    print_context_config_path, print_context_current, print_context_list, print_context_profile,
    print_top_errors, print_top_queries, print_total_queries, Printout,
};
use clickcheck::timestamp::Timestamp;

fn some_totals() -> QueryLogTotal {
    QueryLogTotal {
        queries_count: 12,
        io_impact: 1_500,
        network_impact: 999,
        cpu_impact: 2_000_000,
        memory_impact: 0,
        time_impact: 1_234_567_890,
        total_impact: u64::MAX,
    }
}

fn heavy_query() -> QueryLog {
    QueryLog {
        normalized_query_hash: 0xdead_beef,
        query: "SELECT\n    count()\tFROM   t".to_string(),
        max_event_time: Timestamp::from_unix_seconds(2),
        min_event_time: Timestamp::from_unix_seconds(1),
        total_query_duration_ms: 0,
        total_read_rows: 0,
        total_read_bytes: 0,
        total_memory_usage: 0,
        total_user_time_us: 0,
        total_system_time_us: 0,
        total_network_receive_bytes: 0,
        total_network_send_bytes: 0,
        users: Vec::new(),
        databases: Vec::new(),
        tables: Vec::new(),
        io_impact: 10,
        network_impact: 20,
        cpu_impact: 30,
        memory_impact: 40,
        time_impact: 50,
        total_impact: 1_000_000,
    }
}

fn timeout_error() -> Error {
    Error {
        code: 159,
        name: "TIMEOUT_EXCEEDED".to_string(),
        count: 3,
        last_error_time: Timestamp::from_unix_seconds(1_704_067_200),
        error_message: "Timeout exceeded:\n elapsed 10 s".to_string(),
    }
}

fn drawn(headers: &[&str], rows: Vec<Vec<String>>) -> String {
    let mut table = ascii_table::AsciiTable::default();
    for (i, header) in headers.iter().enumerate() {
        table.column(i).set_header(*header);
    }
    table.format(rows)
}

fn size(bytes: u64) -> String {
    humansize::format_size(bytes, humansize::DECIMAL)
}

#[test]
fn structured_formats_are_left_to_the_caller() {
    for (format, expected) in [(OutputFormat::Json, Printout::Json), (OutputFormat::Yaml, Printout::Yaml)] {
        assert_eq!(print_total_queries(&some_totals(), format), expected);
        assert_eq!(print_top_queries(&[heavy_query()], format), expected);
        assert_eq!(print_top_errors(&[timeout_error()], format), expected);
        assert_eq!(print_context_list(&["a".to_string()], format), expected);
        assert_eq!(print_context_current(Some("a"), format), expected);
        assert_eq!(print_context_config_path("/p", format), expected);
        let urls = vec!["http://n".to_string()];
        let profile = PrintableContextProfile {
            user: "u",
            password: "p",
            urls: &urls,
            accept_invalid_certificate: true,
        };
        assert_eq!(print_context_profile(&profile, format), expected);
    }
}

#[test]
fn the_totals_are_one_row_of_sizes() {
    let expected = drawn(
        &[
            "Select count",
            "Total Impact",
            "IO Impact",
            "CPU Impact",
            "Memory Impact",
            "Time Impact",
            "Network Impact",
        ],
        vec![vec![
            "12".to_string(),
            size(u64::MAX),
            size(1_500),
            size(2_000_000),
            size(0),
            size(1_234_567_890),
            size(999),
        ]],
    );
    assert_eq!(print_total_queries(&some_totals(), OutputFormat::Text), Printout::Text(expected.clone()));
    assert!(expected.contains("│ 12 "));
    assert!(expected.contains(" 1.50 kB "));
    assert!(expected.contains(" 2 MB "));
    assert!(expected.contains(" 999 B "));
    assert!(expected.contains(" 1.23 GB "));
    assert!(expected.contains(" 18.45 EB "));
}

#[test]
fn profile_names_are_a_table_of_one_column() {
    let names = vec!["prod".to_string(), "dev".to_string()];
    let expected = "┌──────┐\n│ Name │\n├──────┤\n│ prod │\n│ dev  │\n└──────┘\n";
    assert_eq!(print_context_list(&names, OutputFormat::Text), Printout::Text(expected.to_string()));
    let none: Vec<String> = Vec::new();
    assert_eq!(
        print_context_list(&none, OutputFormat::Text),
        Printout::Text(drawn(&["Name"], Vec::new()))
    );
}

#[test]
fn the_profile_in_use_is_one_line() {
    assert_eq!(
        print_context_current(Some("prod"), OutputFormat::Text),
        Printout::Text("prod\n".to_string())
    );
    assert_eq!(
        print_context_current(None, OutputFormat::Text),
        Printout::Text("No active context set\n".to_string())
    );
    assert_eq!(
        print_context_config_path("/home/u/.config/clickcheck/config.toml", OutputFormat::Text),
        Printout::Text("/home/u/.config/clickcheck/config.toml\n".to_string())
    );
}

#[test]
fn a_profile_is_shown_line_by_line() {
    let urls = vec!["http://a:8123".to_string(), "https://b:8443".to_string()];
    let profile = PrintableContextProfile {
        user: "default",
        password: "[REDACTED]",
        urls: &urls,
        accept_invalid_certificate: false,
    };
    assert_eq!(
        print_context_profile(&profile, OutputFormat::Text),
        Printout::Text(
            "Profile:\n  URLs: http://a:8123, https://b:8443\n  User: default\n  Password: [REDACTED]\n  Accept invalid certificate: false\n"
                .to_string()
        )
    );
    let none: Vec<String> = Vec::new();
    let bare = PrintableContextProfile {
        user: "",
        password: "",
        urls: &none,
        accept_invalid_certificate: true,
    };
    assert_eq!(
        print_context_profile(&bare, OutputFormat::Text),
        Printout::Text(
            "Profile:\n  URLs: \n  User: \n  Password: (empty)\n  Accept invalid certificate: true\n"
                .to_string()
        )
    );
}

#[test]
fn grouped_queries_are_a_table_with_the_fingerprint_in_hexadecimal() {
    let expected = drawn(
        &[
            "Fingerprint",
            "Query",
            "Total Impact",
            "IO Impact",
            "CPU Impact",
            "Memory Impact",
            "Time Impact",
            "Network Impact",
        ],
        vec![vec![
            "0xdeadbeef".to_string(),
            "SELECT count() FROM t".to_string(),
            size(1_000_000),
            size(10),
            size(30),
            size(40),
            size(50),
            size(20),
        ]],
    );
    assert_eq!(print_weighted_queries_table(&[heavy_query()]), expected);
    assert_eq!(
        print_top_queries(&[heavy_query()], OutputFormat::Text),
        Printout::Text(expected)
    );
    assert_eq!(print_weighted_queries_table(&[]), drawn(&["Fingerprint"], Vec::new()));
}

#[test]
fn errors_are_a_table_with_the_time_in_rfc3339() {
    let expected = drawn(
        &["Code", "Name", "Count", "Last Seen", "Message"],
        vec![vec![
            "159".to_string(),
            "TIMEOUT_EXCEEDED".to_string(),
            "3".to_string(),
            "2024-01-01T00:00:00Z".to_string(),
            "Timeout exceeded: elapsed 10 s".to_string(),
        ]],
    );
    assert_eq!(print_errors_table(&[timeout_error()]), expected);
    assert_eq!(print_top_errors(&[timeout_error()], OutputFormat::Text), Printout::Text(expected));
}

#[test]
fn a_time_that_cannot_be_written_is_a_dash() {
    let never = Error { last_error_time: Timestamp { unix_nanos: i128::MAX }, ..timeout_error() };
    let expected = drawn(
        &["Code", "Name", "Count", "Last Seen", "Message"],
        vec![vec![
            "159".to_string(),
            "TIMEOUT_EXCEEDED".to_string(),
            "3".to_string(),
            "-".to_string(),
            "Timeout exceeded: elapsed 10 s".to_string(),
        ]],
    );
    assert_eq!(print_errors_table(&[never]), expected);
    assert_eq!(
        error_row_from(&timeout_error(), None),
        vec!["159", "TIMEOUT_EXCEEDED", "3", "-", "Timeout exceeded: elapsed 10 s"]
    );
    assert_eq!(
        error_row_from(&Error { code: -5, ..timeout_error() }, Some("then".to_string()))[..4],
        ["-5", "TIMEOUT_EXCEEDED", "3", "then"]
    );
}

#[test]
fn one_fingerprint_is_shown_line_by_line() {
    let query = QueryLogExtended {
        normalized_query_hash: 255,
        query: "SELECT 1".to_string(),
        max_event_time: Timestamp::from_unix_seconds(1_704_070_800),
        min_event_time: Timestamp::from_unix_seconds(1_704_067_200),
        total_query_duration_ms: 9_420_032,
        total_read_rows: 1_000,
        total_read_bytes: 1_500_000,
        total_memory_usage: 2_048,
        total_user_time_us: 1_500_000,
        total_system_time_us: 0,
        total_network_receive_bytes: 10,
        total_network_send_bytes: 20,
        users: vec!["a".to_string(), "b".to_string()],
        databases: vec!["system".to_string()],
        tables: Vec::new(),
    };
    let expected = "Query fingerprint: 0xff\n\
                    Query text:\nSELECT 1\n\
                    Events time range: 2024-01-01T00:00:00Z - 2024-01-01T01:00:00Z\n\
                    Total duration: 2h 37m 32ms\n\
                    Read rows: 1000\n\
                    Read bytes: 1.50 MB\n\
                    Memory usage: 2.05 kB\n\
                    User CPU time: 1s 500ms\n\
                    System CPU time: 0s\n\
                    Network received: 10 B\n\
                    Network sent: 20 B\n\
                    Users: a, b\n\
                    Databases: system\n\
                    Tables: \n";
    assert_eq!(print_query_extended(&query), expected);
    let unwritten = query_extended_from(&query, None, Some("later".to_string()));
    assert!(unwritten.contains("Events time range:  - later\n"));
    let far = QueryLogExtended { max_event_time: Timestamp { unix_nanos: i128::MAX }, ..query };
    assert!(print_query_extended(&far).contains("Events time range: 2024-01-01T00:00:00Z - \n"));
}

#[test]
fn spans_are_written_as_humantime_writes_them() {
    let base = QueryLogExtended {
        normalized_query_hash: 0,
        query: String::new(),
        max_event_time: Timestamp::from_unix_seconds(0),
        min_event_time: Timestamp::from_unix_seconds(0),
        total_query_duration_ms: 0,
        total_read_rows: 0,
        total_read_bytes: 0,
        total_memory_usage: 0,
        total_user_time_us: 0,
        total_system_time_us: 0,
        total_network_receive_bytes: 0,
        total_network_send_bytes: 0,
        users: Vec::new(),
        databases: Vec::new(),
        tables: Vec::new(),
    };
    for n in [0u64, 1, 999, 1_000, 1_001, 59_999, 86_400_000, u64::MAX] {
        let shown = print_query_extended(&QueryLogExtended {
            total_query_duration_ms: n,
            total_user_time_us: n,
            ..base.clone()
        });
        let millis = humantime::format_duration(std::time::Duration::from_millis(n)).to_string();
        let micros = humantime::format_duration(std::time::Duration::from_micros(n)).to_string();
        assert!(shown.contains(&format!("Total duration: {millis}\n")));
        assert!(shown.contains(&format!("User CPU time: {micros}\n")));
    }
}

#[test]
fn a_text_is_put_on_one_line() {
    assert_eq!(compact_str("  SELECT\n\t1 ,\r\n  2  ", 50), "SELECT 1 , 2");
    assert_eq!(compact_str("", 50), "");
    assert_eq!(compact_str(" \n\t ", 50), "");
    assert_eq!(compact_str("a\u{a0}b\u{2003}c", 50), "a b c");
    assert_eq!(compact_str("one", 3), "one");
    assert_eq!(compact_str("one", 0), "one".get(..0).unwrap().to_string() + "…");
}

#[test]
fn white_space_is_what_parts_words() {
    let listed = |c: char| {
        let code = c as u32;
        (0x09..=0x0d).contains(&code)
            || [0x20, 0x85, 0xa0, 0x1680, 0x2028, 0x2029, 0x202f, 0x205f, 0x3000].contains(&code)
            || (0x2000..=0x200a).contains(&code)
    };
    let mut text = String::new();
    for code in 0..=0x10ffffu32 {
        let c = match char::from_u32(code) {
            Some(c) => c,
            None => continue,
        };
        assert_eq!(c.is_whitespace(), listed(c), "U+{:04X}", code);
        assert_eq!(is_whitespace(c), c.is_whitespace(), "U+{:04X}", code);
        text.clear();
        text.push('a');
        text.push(c);
        text.push('b');
        let compacted = compact_str(&text, 16);
        if listed(c) {
            assert_eq!(compacted, "a b", "U+{:04X}", code);
        } else {
            assert_eq!(compacted, text, "U+{:04X}", code);
        }
    }
}

#[test]
fn a_long_text_is_cut_and_marked() {
    let long = "x".repeat(60);
    assert_eq!(compact_str(&long, 50), format!("{}…", "x".repeat(50)));
    assert_eq!(compact_str("abcdef", 5), "abcde…");
    assert_eq!(compact_str("ab  cdef", 4), "ab c…");
    assert_eq!(compact_str(&"x".repeat(50), 50), "x".repeat(50));
}

#[test]
fn a_cut_never_parts_a_character() {
    assert_eq!(compact_str("ééé", 6), "ééé");
    assert_eq!(compact_str("ééé", 5), "éé…");
    assert_eq!(compact_str("ééé", 4), "éé…");
    assert_eq!(compact_str("ééé", 1), "…");
    assert_eq!(compact_str("a日本語", 4), "a日…");
    assert_eq!(compact_str("a日本語", 6), "a日…");
    assert_eq!(compact_str("a😀b", 4), "a…");
    assert_eq!(compact_str("a😀b", 5), "a😀…");
}

#[test]
fn a_short_text_is_its_words_joined_by_single_spaces() {
    for text in ["SELECT  *\nFROM\tt WHERE x = 'a  b'", " leading", "trailing ", "привет   мир"] {
        let expected = text.split_whitespace().collect::<Vec<_>>().join(" ");
        assert_eq!(compact_str(text, 1_000), expected);
    }
}

#[test]
fn texts_are_joined_with_a_separator() {
    let list = vec!["a".to_string(), "".to_string(), "c".to_string()];
    assert_eq!(join_texts(&list, ", "), "a, , c");
    assert_eq!(join_texts(&list[..1], ", "), "a");
    assert_eq!(join_texts(&[], ", "), "");
}
