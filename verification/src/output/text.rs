//! The output in the format `Text`: tables and plain lines.
//!
//! Tables are drawn by the `ascii_table` crate and sizes are written by the
//! `humansize` crate.

use crate::client::filter::joined;
use crate::decimal::{
    decimal, decimal_text, hex, hex_text, signed_decimal, signed_decimal_text,
};
use crate::model::{
    Error, ErrorView, PrintableContextProfile, QueryLog, QueryLogExtended, QueryLogExtendedView,
    QueryLogTotal, QueryLogView,
};
use crate::timestamp::{format_instant, rfc3339_text, text_or_message, Timestamp};
use vstd::prelude::*;
use vstd::std_specs::iter::IteratorSpec;
use vstd::string::{StringExecFns, StringSliceAdditionalSpecFns};
use vstd::utf8::{
    decode_utf8, encode_utf8, encode_utf8_decode_utf8, encode_utf8_valid_utf8, is_char_boundary,
    valid_utf8,
};

verus! {

/// The table that `ascii_table` draws with its default settings for the
/// column headers `headers` and the rows `rows` of cells.
pub uninterp spec fn table_text(headers: Seq<Seq<char>>, rows: Seq<Seq<Seq<char>>>) -> Seq<char>;

/// The text that `humansize` writes for a number of bytes with its options
/// `DECIMAL`: a power of 1000 as unit, as in `1.50 MB`.
pub uninterp spec fn decimal_size_text(bytes: u64) -> Seq<char>;

/// Draws a table through `ascii_table::AsciiTable::format`, on a table with
/// default settings whose columns got the headers through
/// `AsciiTable::column` and `Column::set_header`, the first header for the
/// first column. The text is a function of the headers and the cells alone,
/// which [`table_text`] names.
#[verifier::external_body]
fn format_table(headers: &Vec<String>, rows: &Vec<Vec<String>>) -> (text: String)
    ensures
        text@ == table_text(headers.deep_view(), rows.deep_view()),
{
    let mut table = ascii_table::AsciiTable::default();
    for (index, header) in headers.iter().enumerate() {
        table.column(index).set_header(header.as_str());
    }
    table.format(rows)
}

/// Writes a number of bytes through `humansize::format_size` with the options
/// `humansize::DECIMAL`. The text is a function of the number alone, which
/// [`decimal_size_text`] names.
#[verifier::external_body]
fn format_decimal_size(bytes: u64) -> (text: String)
    ensures
        text@ == decimal_size_text(bytes),
{
    humansize::format_size(bytes, humansize::DECIMAL)
}

/// Whether a character has the Unicode property `White_Space`: the tab, the
/// line feed, the vertical tab, the form feed, the carriage return, the
/// space, the next line, the no-break space, the Ogham space mark, the spaces
/// from the en quad to the hair space, the line and the paragraph separator,
/// the narrow no-break space, the medium mathematical space and the
/// ideographic space.
pub open spec fn is_white_space(c: char) -> bool {
    let code = c as int;
    ||| 0x09 <= code <= 0x0d
    ||| code == 0x20
    ||| code == 0x85
    ||| code == 0xa0
    ||| code == 0x1680
    ||| 0x2000 <= code <= 0x200a
    ||| code == 0x2028
    ||| code == 0x2029
    ||| code == 0x202f
    ||| code == 0x205f
    ||| code == 0x3000
}

/// Whether a character has the Unicode property `White_Space`.
pub fn is_whitespace(c: char) -> (white: bool)
    ensures
        white == is_white_space(c),
{
    let code = c as u32;
    (0x09 <= code && code <= 0x0d) || code == 0x20 || code == 0x85 || code == 0xa0 || code
        == 0x1680 || (0x2000 <= code && code <= 0x200a) || code == 0x2028 || code == 0x2029
        || code == 0x202f || code == 0x205f || code == 0x3000
}

/// Puts a character at the end of a text through `String::push`.
#[verifier::external_body]
fn push_char(text: &mut String, c: char)
    ensures
        final(text)@ == old(text)@.push(c),
{
    text.push(c)
}

/// The most columns a long text takes in a table.
pub const MAX_COLUMN_LEN: usize = 50;

/// A character that parts words: a line feed, a tab, or any other white
/// space.
pub open spec fn parts_words(c: char) -> bool {
    c == '\n' || c == '\t' || is_white_space(c)
}

/// What is left of a text when every run of characters that part words
/// becomes one space. `started` says that a word came before the text, `gap`
/// that characters that part words came since that word.
pub open spec fn collapsed(s: Seq<char>, started: bool, gap: bool) -> Seq<char>
    decreases s.len(),
{
    if s.len() == 0 {
        Seq::empty()
    } else if parts_words(s[0]) {
        collapsed(s.drop_first(), started, started)
    } else if gap {
        seq![' ', s[0]] + collapsed(s.drop_first(), true, false)
    } else {
        seq![s[0]] + collapsed(s.drop_first(), true, false)
    }
}

/// The last place at or before `at` at which the bytes of a text can be cut
/// between two characters.
pub open spec fn last_boundary(bytes: Seq<u8>, at: int) -> int
    decreases at,
{
    if at <= 0 {
        0
    } else if is_char_boundary(bytes, at) {
        at
    } else {
        last_boundary(bytes, at - 1)
    }
}

/// A text on one line in at most `max_len` bytes and a mark: its words with
/// one space between each two, and, where that takes more than `max_len`
/// bytes, cut at the last character that ends within them, with `…` behind.
pub open spec fn compact(s: Seq<char>, max_len: nat) -> Seq<char> {
    let words = collapsed(s, false, false);
    let bytes = encode_utf8(words);
    if bytes.len() > max_len {
        decode_utf8(bytes.subrange(0, last_boundary(bytes, max_len as int))) + "\u{2026}"@
    } else {
        words
    }
}

/// Puts a text on one line and shortens it to `max_len` bytes and a mark.
pub fn compact_str(s: &str, max_len: usize) -> (text: String)
    ensures
        text@ == compact(s@, max_len as nat),
{
    let mut words = String::new();
    let mut started = false;
    let mut gap = false;
    let mut chars = s.chars();
    let ghost mut n: int = 0;
    proof {
        reveal_strlit(" ");
        assert(s@.skip(0) =~= s@);
        assert(words@ + collapsed(s@, false, false) =~= collapsed(s@, false, false));
    }
    loop
        invariant
            0 <= n <= s@.len(),
            chars.remaining() == s@.skip(n),
            words@ + collapsed(s@.skip(n), started, gap) == collapsed(s@, false, false),
            " "@ == seq![' '],
        ensures
            words@ == collapsed(s@, false, false),
        decreases s@.len() - n,
    {
        let ghost before = words@;
        let ghost rest = s@.skip(n);
        match chars.next() {
            None => {
                assert(before + Seq::<char>::empty() =~= before);
                break ;
            },
            Some(c) => {
                assert(rest.drop_first() =~= s@.skip(n + 1));
                if c == '\n' || c == '\t' || is_whitespace(c) {
                    gap = started;
                } else {
                    if gap {
                        words.append(" ");
                    }
                    push_char(&mut words, c);
                    proof {
                        let tail = collapsed(rest.drop_first(), true, false);
                        if gap {
                            assert(words@ =~= before + seq![' ', c]);
                            assert(words@ + tail =~= before + (seq![' ', c] + tail));
                        } else {
                            assert(words@ =~= before + seq![c]);
                            assert(words@ + tail =~= before + (seq![c] + tail));
                        }
                    }
                    started = true;
                    gap = false;
                }
                proof {
                    n = n + 1;
                }
            },
        }
    }
    if words.as_str().as_bytes().len() > max_len {
        let ghost bytes = encode_utf8(words@);
        let mut cut = max_len;
        proof {
            encode_utf8_valid_utf8(words@);
        }
        while !words.as_str().is_char_boundary(cut)
            invariant
                cut <= max_len,
                bytes == encode_utf8(words@),
                valid_utf8(bytes),
                last_boundary(bytes, cut as int) == last_boundary(bytes, max_len as int),
            decreases cut,
        {
            cut = cut - 1;
        }
        let (head, _) = words.as_str().split_at(cut);
        proof {
            assert(last_boundary(bytes, cut as int) == cut);
            assert(head.spec_bytes() == bytes.subrange(0, cut as int));
            encode_utf8_decode_utf8(head@);
        }
        let mut text = String::from_str(head);
        text.append("\u{2026}");
        text
    } else {
        words
    }
}

/// The text that `humantime` writes for a span of `secs` seconds and `nanos`
/// nanoseconds, as in `2h 37m`.
pub uninterp spec fn duration_text(secs: u64, nanos: u32) -> Seq<char>;

/// Writes a span of time through `humantime::format_duration`, on the
/// `Duration` that `Duration::new` makes of the seconds and the nanoseconds.
/// The text is a function of the two numbers alone, which [`duration_text`]
/// names.
#[verifier::external_body]
fn format_duration(secs: u64, nanos: u32) -> (text: String)
    requires
        nanos < 1_000_000_000,
    ensures
        text@ == duration_text(secs, nanos),
{
    humantime::format_duration(std::time::Duration::new(secs, nanos)).to_string()
}

/// The text for a span of whole milliseconds.
pub open spec fn millis_text(millis: u64) -> Seq<char> {
    duration_text(millis / 1000, ((millis % 1000) * 1_000_000) as u32)
}

/// The text for a span of whole microseconds.
pub open spec fn micros_text(micros: u64) -> Seq<char> {
    duration_text(micros / 1_000_000, ((micros % 1_000_000) * 1000) as u32)
}

/// Writes a span of whole milliseconds.
fn format_millis(millis: u64) -> (text: String)
    ensures
        text@ == millis_text(millis),
{
    format_duration(millis / 1000, ((millis % 1000) * 1_000_000) as u32)
}

/// Writes a span of whole microseconds.
fn format_micros(micros: u64) -> (text: String)
    ensures
        text@ == micros_text(micros),
{
    format_duration(micros / 1_000_000, ((micros % 1_000_000) * 1000) as u32)
}

/// What the formatter wrote, if it wrote anything.
fn written(formatted: Result<String, String>) -> (text: Option<String>)
    ensures
        match formatted {
            Ok(written) => text == Some(written),
            Err(_) => text is None,
        },
        match text_or_message(formatted) {
            Ok(written) => text matches Some(t) && t@ == written,
            Err(_) => text is None,
        },
{
    match formatted {
        Ok(written) => Some(written),
        Err(_) => None,
    }
}

/// The headers of the table of grouped queries.
pub open spec fn weighted_queries_headers() -> Seq<Seq<char>> {
    seq![
        "Fingerprint"@,
        "Query"@,
        "Total Impact"@,
        "IO Impact"@,
        "CPU Impact"@,
        "Memory Impact"@,
        "Time Impact"@,
        "Network Impact"@,
    ]
}

/// The row of one grouped query: the fingerprint in hexadecimal, the query
/// text on one line and shortened, and the impacts as sizes.
pub open spec fn weighted_query_row(log: QueryLogView) -> Seq<Seq<char>> {
    seq![
        hex(log.normalized_query_hash as nat),
        compact(log.query, MAX_COLUMN_LEN as nat),
        decimal_size_text(log.total_impact),
        decimal_size_text(log.io_impact),
        decimal_size_text(log.cpu_impact),
        decimal_size_text(log.memory_impact),
        decimal_size_text(log.time_impact),
        decimal_size_text(log.network_impact),
    ]
}

/// The table of grouped queries, one row for each.
pub open spec fn weighted_queries_table(logs: Seq<QueryLogView>) -> Seq<char> {
    table_text(
        weighted_queries_headers(),
        logs.map_values(|log: QueryLogView| weighted_query_row(log)),
    )
}

/// The headers of the table of errors.
pub open spec fn errors_headers() -> Seq<Seq<char>> {
    seq!["Code"@, "Name"@, "Count"@, "Last Seen"@, "Message"@]
}

/// The row of one error, where `last_seen` is the time at which it was last
/// seen, as text: the code and the count in decimal, the name, that time, and
/// the message on one line and shortened.
pub open spec fn error_row(error: ErrorView, last_seen: Seq<char>) -> Seq<Seq<char>> {
    seq![
        signed_decimal(error.code as int),
        error.name,
        decimal(error.count as nat),
        last_seen,
        compact(error.error_message, MAX_COLUMN_LEN as nat),
    ]
}

/// The row of one error, given what the formatter made of the time at which
/// it was last seen: that text, or `-` where there is none.
pub fn error_row_from(error: &Error, last_seen: Option<String>) -> (row: Vec<String>)
    ensures
        row.deep_view() == error_row(
            error@,
            match last_seen {
                Some(text) => text@,
                None => "-"@,
            },
        ),
{
    let last_seen = match last_seen {
        Some(text) => text,
        None => String::from_str("-"),
    };
    let mut row: Vec<String> = Vec::new();
    row.push(signed_decimal_text(error.code));
    row.push(error.name.clone());
    row.push(decimal_text(error.count));
    row.push(last_seen);
    row.push(compact_str(error.error_message.as_str(), MAX_COLUMN_LEN));
    assert(row.deep_view() =~= error_row(error@, last_seen@));
    row
}

/// The time at which something was seen, in the format of RFC 3339 at offset
/// UTC, or `missing` where the formatter writes no such text.
pub open spec fn seen_text(at: Timestamp, missing: Seq<char>) -> Seq<char> {
    match rfc3339_text(at.unix_nanos) {
        Ok(text) => text,
        Err(_) => missing,
    }
}

/// The rows of the table of errors, one for each error, with `-` for a time
/// that cannot be written.
pub open spec fn error_rows(errors: Seq<ErrorView>) -> Seq<Seq<Seq<char>>> {
    errors.map_values(|error: ErrorView| error_row(error, seen_text(error.last_error_time, "-"@)))
}

/// The table of errors.
pub open spec fn errors_table(errors: Seq<ErrorView>) -> Seq<char> {
    table_text(errors_headers(), error_rows(errors))
}

/// The table of grouped queries.
pub fn print_weighted_queries_table(logs: &[QueryLog]) -> (text: String)
    ensures
        text@ == weighted_queries_table(logs.deep_view()),
{
    let mut headers: Vec<String> = Vec::new();
    headers.push(String::from_str("Fingerprint"));
    headers.push(String::from_str("Query"));
    headers.push(String::from_str("Total Impact"));
    headers.push(String::from_str("IO Impact"));
    headers.push(String::from_str("CPU Impact"));
    headers.push(String::from_str("Memory Impact"));
    headers.push(String::from_str("Time Impact"));
    headers.push(String::from_str("Network Impact"));
    assert(headers.deep_view() =~= weighted_queries_headers());

    let ghost all = logs.deep_view();
    let mut data: Vec<Vec<String>> = Vec::new();
    let mut i: usize = 0;
    while i < logs.len()
        invariant
            i <= logs.len(),
            all == logs.deep_view(),
            data.deep_view() == all.take(i as int).map_values(
                |log: QueryLogView| weighted_query_row(log),
            ),
        decreases logs.len() - i,
    {
        let ghost before = data.deep_view();
        let l = &logs[i];
        let mut row: Vec<String> = Vec::new();
        row.push(hex_text(l.normalized_query_hash));
        row.push(compact_str(l.query.as_str(), MAX_COLUMN_LEN));
        row.push(format_decimal_size(l.total_impact));
        row.push(format_decimal_size(l.io_impact));
        row.push(format_decimal_size(l.cpu_impact));
        row.push(format_decimal_size(l.memory_impact));
        row.push(format_decimal_size(l.time_impact));
        row.push(format_decimal_size(l.network_impact));
        assert(row.deep_view() =~= weighted_query_row(all[i as int]));
        data.push(row);
        proof {
            assert(data.deep_view() =~= before.push(weighted_query_row(all[i as int])));
            assert(all.take(i + 1) =~= all.take(i as int).push(all[i as int]));
            assert(data.deep_view() =~= all.take(i + 1).map_values(
                |log: QueryLogView| weighted_query_row(log),
            ));
        }
        i = i + 1;
    }
    assert(all.take(all.len() as int) =~= all);
    format_table(&headers, &data)
}

/// The table of errors.
pub fn print_errors_table(errs: &[Error]) -> (text: String)
    ensures
        text@ == errors_table(errs.deep_view()),
{
    let mut headers: Vec<String> = Vec::new();
    headers.push(String::from_str("Code"));
    headers.push(String::from_str("Name"));
    headers.push(String::from_str("Count"));
    headers.push(String::from_str("Last Seen"));
    headers.push(String::from_str("Message"));
    assert(headers.deep_view() =~= errors_headers());

    let ghost all = errs.deep_view();
    let mut data: Vec<Vec<String>> = Vec::new();
    let mut i: usize = 0;
    while i < errs.len()
        invariant
            i <= errs.len(),
            all == errs.deep_view(),
            data.deep_view() == error_rows(all.take(i as int)),
        decreases errs.len() - i,
    {
        let ghost before = data.deep_view();
        let e = &errs[i];
        let last_seen = written(format_instant(e.last_error_time.unix_nanos, None));
        let row = error_row_from(e, last_seen);
        data.push(row);
        proof {
            let shown = all.take(i + 1);
            assert(row.deep_view() == error_row(all[i as int], seen_text(e.last_error_time, "-"@)));
            assert(data.deep_view() =~= before.push(row.deep_view()));
            assert(shown =~= all.take(i as int).push(all[i as int]));
            assert(data.deep_view() =~= error_rows(shown));
        }
        i = i + 1;
    }
    assert(all.take(all.len() as int) =~= all);
    format_table(&headers, &data)
}

/// The lines that show the statistics of one fingerprint, where `from` and
/// `to` are the times of the first and of the last event, as text.
pub open spec fn query_extended_text(
    query: QueryLogExtendedView,
    from: Seq<char>,
    to: Seq<char>,
) -> Seq<char> {
    "Query fingerprint: "@ + hex(query.normalized_query_hash as nat) + "\n"@ + "Query text:\n"@
        + query.query + "\n"@ + "Events time range: "@ + from + " - "@ + to + "\n"@
        + "Total duration: "@ + millis_text(query.total_query_duration_ms) + "\n"@
        + "Read rows: "@ + decimal(query.total_read_rows as nat) + "\n"@ + "Read bytes: "@
        + decimal_size_text(query.total_read_bytes) + "\n"@ + "Memory usage: "@
        + decimal_size_text(query.total_memory_usage) + "\n"@ + "User CPU time: "@ + micros_text(
        query.total_user_time_us,
    ) + "\n"@ + "System CPU time: "@ + micros_text(query.total_system_time_us) + "\n"@
        + "Network received: "@ + decimal_size_text(query.total_network_receive_bytes) + "\n"@
        + "Network sent: "@ + decimal_size_text(query.total_network_send_bytes) + "\n"@ + "Users: "@
        + joined(query.users, ", "@) + "\n"@ + "Databases: "@ + joined(query.databases, ", "@)
        + "\n"@ + "Tables: "@ + joined(query.tables, ", "@) + "\n"@
}

/// The lines that show the statistics of one fingerprint, given what the
/// formatter made of the times of its first and last event: those texts, or
/// nothing in the place of one that was not written.
pub fn query_extended_from(
    query: &QueryLogExtended,
    from: Option<String>,
    to: Option<String>,
) -> (text: String)
    ensures
        text@ == query_extended_text(
            query@,
            match from {
                Some(from) => from@,
                None => Seq::empty(),
            },
            match to {
                Some(to) => to@,
                None => Seq::empty(),
            },
        ),
{
    let from = match from {
        Some(from) => from,
        None => String::new(),
    };
    let to = match to {
        Some(to) => to,
        None => String::new(),
    };
    let mut text = String::from_str("Query fingerprint: ");
    text.append(hex_text(query.normalized_query_hash).as_str());
    text.append("\n");
    text.append("Query text:\n");
    text.append(query.query.as_str());
    text.append("\n");
    text.append("Events time range: ");
    text.append(from.as_str());
    text.append(" - ");
    text.append(to.as_str());
    text.append("\n");
    text.append("Total duration: ");
    text.append(format_millis(query.total_query_duration_ms).as_str());
    text.append("\n");
    text.append("Read rows: ");
    text.append(decimal_text(query.total_read_rows).as_str());
    text.append("\n");
    text.append("Read bytes: ");
    text.append(format_decimal_size(query.total_read_bytes).as_str());
    text.append("\n");
    text.append("Memory usage: ");
    text.append(format_decimal_size(query.total_memory_usage).as_str());
    text.append("\n");
    text.append("User CPU time: ");
    text.append(format_micros(query.total_user_time_us).as_str());
    text.append("\n");
    text.append("System CPU time: ");
    text.append(format_micros(query.total_system_time_us).as_str());
    text.append("\n");
    text.append("Network received: ");
    text.append(format_decimal_size(query.total_network_receive_bytes).as_str());
    text.append("\n");
    text.append("Network sent: ");
    text.append(format_decimal_size(query.total_network_send_bytes).as_str());
    text.append("\n");
    text.append("Users: ");
    text.append(join_texts(query.users.as_slice(), ", ").as_str());
    text.append("\n");
    text.append("Databases: ");
    text.append(join_texts(query.databases.as_slice(), ", ").as_str());
    text.append("\n");
    text.append("Tables: ");
    text.append(join_texts(query.tables.as_slice(), ", ").as_str());
    text.append("\n");
    text
}

/// The lines that show the statistics of one fingerprint. The times of its
/// first and last event are in the format of RFC 3339; one that the formatter
/// does not write is left out.
pub fn print_query_extended(query: &QueryLogExtended) -> (text: String)
    ensures
        text@ == query_extended_text(
            query@,
            seen_text(query.min_event_time, Seq::empty()),
            seen_text(query.max_event_time, Seq::empty()),
        ),
{
    let from = written(format_instant(query.min_event_time.unix_nanos, None));
    let to = written(format_instant(query.max_event_time.unix_nanos, None));
    query_extended_from(query, from, to)
}

/// The headers of the table of totals.
pub open spec fn total_queries_headers() -> Seq<Seq<char>> {
    seq![
        "Select count"@,
        "Total Impact"@,
        "IO Impact"@,
        "CPU Impact"@,
        "Memory Impact"@,
        "Time Impact"@,
        "Network Impact"@,
    ]
}

/// The one row of the table of totals: the number of queries in decimal and
/// the impacts as sizes.
pub open spec fn total_queries_row(totals: QueryLogTotal) -> Seq<Seq<char>> {
    seq![
        decimal(totals.queries_count as nat),
        decimal_size_text(totals.total_impact),
        decimal_size_text(totals.io_impact),
        decimal_size_text(totals.cpu_impact),
        decimal_size_text(totals.memory_impact),
        decimal_size_text(totals.time_impact),
        decimal_size_text(totals.network_impact),
    ]
}

/// The table of totals.
pub open spec fn total_queries_table(totals: QueryLogTotal) -> Seq<char> {
    table_text(total_queries_headers(), seq![total_queries_row(totals)])
}

/// The table of profile names: one column `Name`, one row for each name.
pub open spec fn context_names_table(names: Seq<Seq<char>>) -> Seq<char> {
    table_text(seq!["Name"@], names.map_values(|name: Seq<char>| seq![name]))
}

/// The line that shows the profile in use.
pub open spec fn context_current_text(active: Option<Seq<char>>) -> Seq<char> {
    match active {
        Some(name) => name + "\n"@,
        None => "No active context set\n"@,
    }
}

/// The line that shows the path of the file of profiles.
pub open spec fn context_config_path_text(path: Seq<char>) -> Seq<char> {
    path + "\n"@
}

/// `true` or `false`.
pub open spec fn bool_text(value: bool) -> Seq<char> {
    if value {
        "true"@
    } else {
        "false"@
    }
}

/// The lines that show one profile. An empty password is shown as `(empty)`.
pub open spec fn context_profile_text(
    urls: Seq<Seq<char>>,
    user: Seq<char>,
    password: Seq<char>,
    accept_invalid_certificate: bool,
) -> Seq<char> {
    "Profile:\n"@ + "  URLs: "@ + joined(urls, ", "@) + "\n"@ + "  User: "@ + user + "\n"@
        + "  Password: "@ + (if password.len() == 0 {
        "(empty)"@
    } else {
        password
    }) + "\n"@ + "  Accept invalid certificate: "@ + bool_text(accept_invalid_certificate)
        + "\n"@
}

/// The texts with `separator` between each two of them.
pub fn join_texts(texts: &[String], separator: &str) -> (text: String)
    ensures
        text@ == joined(texts.deep_view(), separator@),
{
    let mut text = String::new();
    let mut i: usize = 0;
    let ghost all = texts.deep_view();
    while i < texts.len()
        invariant
            i <= texts.len(),
            all == texts.deep_view(),
            text@ == joined(all.take(i as int), separator@),
        decreases texts.len() - i,
    {
        if i > 0 {
            text.append(separator);
        }
        text.append(texts[i].as_str());
        proof {
            let shorter = all.take(i as int);
            let longer = all.take(i + 1);
            assert(longer.drop_last() =~= shorter);
            assert(longer.last() == all[i as int]);
            assert(text@ =~= joined(longer, separator@));
        }
        i = i + 1;
    }
    assert(all.take(all.len() as int) =~= all);
    text
}

/// The table of totals.
pub fn print_total_queries_table(l: &QueryLogTotal) -> (text: String)
    ensures
        text@ == total_queries_table(*l),
{
    let mut headers: Vec<String> = Vec::new();
    headers.push(String::from_str("Select count"));
    headers.push(String::from_str("Total Impact"));
    headers.push(String::from_str("IO Impact"));
    headers.push(String::from_str("CPU Impact"));
    headers.push(String::from_str("Memory Impact"));
    headers.push(String::from_str("Time Impact"));
    headers.push(String::from_str("Network Impact"));
    assert(headers.deep_view() =~= total_queries_headers());

    let mut row: Vec<String> = Vec::new();
    row.push(decimal_text(l.queries_count));
    row.push(format_decimal_size(l.total_impact));
    row.push(format_decimal_size(l.io_impact));
    row.push(format_decimal_size(l.cpu_impact));
    row.push(format_decimal_size(l.memory_impact));
    row.push(format_decimal_size(l.time_impact));
    row.push(format_decimal_size(l.network_impact));
    assert(row.deep_view() =~= total_queries_row(*l));

    let mut data: Vec<Vec<String>> = Vec::new();
    data.push(row);
    assert(data.deep_view() =~= seq![total_queries_row(*l)]);
    format_table(&headers, &data)
}

/// The table of profile names.
pub fn print_context_names_table(names: &[String]) -> (text: String)
    ensures
        text@ == context_names_table(names.deep_view()),
{
    let mut headers: Vec<String> = Vec::new();
    headers.push(String::from_str("Name"));
    assert(headers.deep_view() =~= seq!["Name"@]);

    let ghost all = names.deep_view();
    let mut data: Vec<Vec<String>> = Vec::new();
    let mut i: usize = 0;
    while i < names.len()
        invariant
            i <= names.len(),
            all == names.deep_view(),
            data.deep_view() == all.take(i as int).map_values(|name: Seq<char>| seq![name]),
        decreases names.len() - i,
    {
        let ghost before = data.deep_view();
        let mut row: Vec<String> = Vec::new();
        row.push(names[i].clone());
        assert(row.deep_view() =~= seq![all[i as int]]);
        data.push(row);
        proof {
            assert(data.deep_view() =~= before.push(seq![all[i as int]]));
            assert(all.take(i + 1) =~= all.take(i as int).push(all[i as int]));
            assert(data.deep_view() =~= all.take(i + 1).map_values(
                |name: Seq<char>| seq![name],
            ));
        }
        i = i + 1;
    }
    assert(all.take(all.len() as int) =~= all);
    format_table(&headers, &data)
}

/// The line that shows the profile in use.
pub fn print_context_current(active: Option<&str>) -> (text: String)
    ensures
        text@ == context_current_text(
            match active {
                Some(name) => Some(name@),
                None => None,
            },
        ),
{
    match active {
        Some(name) => {
            let mut text = String::from_str(name);
            text.append("\n");
            text
        },
        None => String::from_str("No active context set\n"),
    }
}

/// The line that shows the path of the file of profiles.
pub fn print_context_config_path(path: &str) -> (text: String)
    ensures
        text@ == context_config_path_text(path@),
{
    let mut text = String::from_str(path);
    text.append("\n");
    text
}

/// The lines that show one profile.
pub fn print_context_profile(profile: &PrintableContextProfile) -> (text: String)
    ensures
        text@ == context_profile_text(
            profile.urls.deep_view(),
            profile.user@,
            profile.password@,
            profile.accept_invalid_certificate,
        ),
{
    let mut text = String::from_str("Profile:\n");
    text.append("  URLs: ");
    let urls = join_texts(profile.urls.as_slice(), ", ");
    text.append(urls.as_str());
    text.append("\n");
    text.append("  User: ");
    text.append(profile.user);
    text.append("\n");
    text.append("  Password: ");
    if profile.password.is_empty() {
        text.append("(empty)");
    } else {
        text.append(profile.password);
    }
    text.append("\n");
    text.append("  Accept invalid certificate: ");
    if profile.accept_invalid_certificate {
        text.append("true");
    } else {
        text.append("false");
    }
    text.append("\n");
    text
}

} // verus!
