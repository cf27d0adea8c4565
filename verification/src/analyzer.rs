//! The merge of the rows that the nodes send, and the ranking of what was
//! merged.
//!
//! Rows arrive in no particular order. While rows come in, the analyzer keeps
//! one record for each fingerprint and one for each error code and adds every
//! row to the record it belongs to. Once all rows are in it is finished, and
//! what was merged is ranked and read, but not changed any more.

use crate::model::{
    saturated, Error, ErrorView, QueriesSortBy, QueryLog, QueryLogTotal, QueryLogView,
};
use crate::names::{
    lemma_merged_names_associate, lemma_merged_names_commute, lemma_merged_names_of_sorted,
    lemma_sorted_names, lemma_strictly_ascending_is_sorted, merged_names, sorted_names,
    strictly_ascending, text_le, text_precedes,
};
use crate::ranking::{
    is_top_errors, is_top_errors_of, is_top_queries, is_top_queries_of,
    lemma_top_queries_is_unique, place_error, place_query,
};
use crate::timestamp::Timestamp;
use std::collections::HashMap;
use vstd::prelude::*;
use vstd::seq_lib::lemma_fold_left_permutation;
use vstd::std_specs::iter::IteratorSpec;

verus! {

/// The later of two instants.
pub open spec fn later(a: Timestamp, b: Timestamp) -> Timestamp {
    if a.unix_nanos >= b.unix_nanos {
        a
    } else {
        b
    }
}

/// The earlier of two instants.
pub open spec fn earlier(a: Timestamp, b: Timestamp) -> Timestamp {
    if a.unix_nanos <= b.unix_nanos {
        a
    } else {
        b
    }
}

/// The record of a fingerprint after one more row for it came in: counters
/// and scores are added and saturate, the time bounds widen, the lists of
/// names are united, and fingerprint and query text stay.
pub open spec fn merged_query(existing: QueryLogView, row: QueryLogView) -> QueryLogView {
    QueryLogView {
        normalized_query_hash: existing.normalized_query_hash,
        query: existing.query,
        max_event_time: later(existing.max_event_time, row.max_event_time),
        min_event_time: earlier(existing.min_event_time, row.min_event_time),
        total_query_duration_ms: saturated(
            existing.total_query_duration_ms + row.total_query_duration_ms,
        ),
        total_read_rows: saturated(existing.total_read_rows + row.total_read_rows),
        total_read_bytes: saturated(existing.total_read_bytes + row.total_read_bytes),
        total_memory_usage: saturated(existing.total_memory_usage + row.total_memory_usage),
        total_user_time_us: saturated(existing.total_user_time_us + row.total_user_time_us),
        total_system_time_us: saturated(existing.total_system_time_us + row.total_system_time_us),
        total_network_receive_bytes: saturated(
            existing.total_network_receive_bytes + row.total_network_receive_bytes,
        ),
        total_network_send_bytes: saturated(
            existing.total_network_send_bytes + row.total_network_send_bytes,
        ),
        users: merged_names(existing.users, row.users),
        databases: merged_names(existing.databases, row.databases),
        tables: merged_names(existing.tables, row.tables),
        io_impact: saturated(existing.io_impact + row.io_impact),
        network_impact: saturated(existing.network_impact + row.network_impact),
        cpu_impact: saturated(existing.cpu_impact + row.cpu_impact),
        memory_impact: saturated(existing.memory_impact + row.memory_impact),
        time_impact: saturated(existing.time_impact + row.time_impact),
        total_impact: saturated(existing.total_impact + row.total_impact),
    }
}

/// The record of an error code after one more row for it came in: the counts
/// are added and saturate, the later time stays, and code, name and message
/// stay as they were first seen.
pub open spec fn merged_error(existing: ErrorView, row: ErrorView) -> ErrorView {
    ErrorView {
        code: existing.code,
        name: existing.name,
        count: saturated(existing.count + row.count),
        last_error_time: later(existing.last_error_time, row.last_error_time),
        error_message: existing.error_message,
    }
}

/// The running total after one more row: every field is added and saturates.
pub open spec fn added_total(total: QueryLogTotal, row: QueryLogTotal) -> QueryLogTotal {
    QueryLogTotal {
        queries_count: saturated(total.queries_count + row.queries_count),
        io_impact: saturated(total.io_impact + row.io_impact),
        network_impact: saturated(total.network_impact + row.network_impact),
        cpu_impact: saturated(total.cpu_impact + row.cpu_impact),
        memory_impact: saturated(total.memory_impact + row.memory_impact),
        time_impact: saturated(total.time_impact + row.time_impact),
        total_impact: saturated(total.total_impact + row.total_impact),
    }
}

/// A row as it is filed when it is the first of its fingerprint: as it came,
/// but with each of its lists of names holding each name once, in ascending
/// order.
pub open spec fn filed_query(row: QueryLogView) -> QueryLogView {
    QueryLogView {
        users: sorted_names(row.users.to_set()),
        databases: sorted_names(row.databases.to_set()),
        tables: sorted_names(row.tables.to_set()),
        ..row
    }
}

/// The grouped queries after `row` came in: the filed row where its
/// fingerprint was not seen before, the merged record where it was.
pub open spec fn with_query(
    queries: Map<u64, QueryLogView>,
    row: QueryLogView,
) -> Map<u64, QueryLogView> {
    let key = row.normalized_query_hash;
    if queries.contains_key(key) {
        queries.insert(key, merged_query(queries[key], row))
    } else {
        queries.insert(key, filed_query(row))
    }
}

/// The grouped errors after `row` came in: a new record where its code was
/// not seen before, the merged record where it was.
pub open spec fn with_error(errors: Map<i32, ErrorView>, row: ErrorView) -> Map<i32, ErrorView> {
    let key = row.code;
    if errors.contains_key(key) {
        errors.insert(key, merged_error(errors[key], row))
    } else {
        errors.insert(key, row)
    }
}

/// The grouped queries after all of `rows` came in, in that order.
pub open spec fn queries_after(rows: Seq<QueryLogView>) -> Map<u64, QueryLogView> {
    rows.fold_left(
        Map::<u64, QueryLogView>::empty(),
        |queries: Map<u64, QueryLogView>, row: QueryLogView| with_query(queries, row),
    )
}

/// The grouped errors after all of `rows` came in, in that order.
pub open spec fn errors_after(rows: Seq<ErrorView>) -> Map<i32, ErrorView> {
    rows.fold_left(
        Map::<i32, ErrorView>::empty(),
        |errors: Map<i32, ErrorView>, row: ErrorView| with_error(errors, row),
    )
}

/// The running total after all of `rows` came in, in that order.
pub open spec fn total_after(rows: Seq<QueryLogTotal>) -> QueryLogTotal {
    rows.fold_left(
        QueryLogTotal::zero(),
        |total: QueryLogTotal, row: QueryLogTotal| added_total(total, row),
    )
}

/// Merges the rows of the query log by fingerprint and returns the `limit`
/// records that rank first by `sort_by`.
pub fn top_queries(rows: Vec<QueryLog>, limit: usize, sort_by: QueriesSortBy) -> (top: Vec<
    QueryLog,
>)
    ensures
        is_top_queries(top.deep_view(), queries_after(rows.deep_view()), sort_by, limit as nat),
{
    let ghost given = rows.deep_view();
    let mut analyzer = Analyzer::new();
    assert(given.take(0) =~= Seq::<QueryLogView>::empty());
    for row in it: rows
        invariant
            it.seq().len() == given.len(),
            forall|i: int| 0 <= i < given.len() ==> (#[trigger] it.seq()[i])@ == given[i],
            analyzer@.queries == queries_after(given.take(it.index())),
    {
        let ghost n = it.index();
        analyzer.merge_query(row);
        proof {
            assert(given.take(n + 1).drop_last() =~= given.take(n));
            assert(given.take(n + 1).last() == row@);
        }
    }
    assert(given.take(given.len() as int) =~= given);
    analyzer.finish().top_queries(limit, sort_by)
}

/// Adds up the rows of totals.
pub fn total_queries(rows: Vec<QueryLogTotal>) -> (total: QueryLogTotal)
    ensures
        total == total_after(rows@),
{
    let ghost given = rows@;
    let mut analyzer = Analyzer::new();
    assert(given.take(0) =~= Seq::<QueryLogTotal>::empty());
    for row in it: rows
        invariant
            it.seq() == given,
            analyzer@.total_queries == total_after(given.take(it.index())),
    {
        let ghost n = it.index();
        analyzer.merge_query_total(row);
        proof {
            assert(given.take(n + 1).drop_last() =~= given.take(n));
            assert(given.take(n + 1).last() == row);
        }
    }
    assert(given.take(given.len() as int) =~= given);
    analyzer.finish().total_queries()
}

/// Merges the rows of the error counters by code and returns the `limit`
/// records with the highest counts.
pub fn top_errors(rows: Vec<Error>, limit: usize) -> (top: Vec<Error>)
    ensures
        is_top_errors(top.deep_view(), errors_after(rows.deep_view()), limit as nat),
{
    let ghost given = rows.deep_view();
    let mut analyzer = Analyzer::new();
    assert(given.take(0) =~= Seq::<ErrorView>::empty());
    for row in it: rows
        invariant
            it.seq().len() == given.len(),
            forall|i: int| 0 <= i < given.len() ==> (#[trigger] it.seq()[i])@ == given[i],
            analyzer@.errors == errors_after(given.take(it.index())),
    {
        let ghost n = it.index();
        analyzer.merge_error(row);
        proof {
            assert(given.take(n + 1).drop_last() =~= given.take(n));
            assert(given.take(n + 1).last() == row@);
        }
    }
    assert(given.take(given.len() as int) =~= given);
    analyzer.finish().top_errors(limit)
}

/// A merged record keeps the rule that the total impact is the saturating
/// sum of the five others, where the record and the row both keep it.
pub proof fn lemma_merged_query_adds_up(existing: QueryLogView, row: QueryLogView)
    requires
        existing.impacts_add_up(),
        row.impacts_add_up(),
    ensures
        merged_query(existing, row).impacts_add_up(),
{
}

/// The running total keeps the rule that the total impact is the saturating
/// sum of the five others, where the total and the row both keep it.
pub proof fn lemma_added_total_adds_up(total: QueryLogTotal, row: QueryLogTotal)
    requires
        total.impacts_add_up(),
        row.impacts_add_up(),
    ensures
        added_total(total, row).impacts_add_up(),
{
}

/// Whatever rows are merged, in whatever order: if the total impact of each
/// row is the saturating sum of its five other impacts, the same holds of
/// every record after every step.
pub proof fn lemma_queries_after_add_up(rows: Seq<QueryLogView>)
    requires
        forall|i: int| 0 <= i < rows.len() ==> (#[trigger] rows[i]).impacts_add_up(),
    ensures
        forall|k: u64| #[trigger]
            queries_after(rows).contains_key(k) ==> queries_after(rows)[k].impacts_add_up(),
    decreases rows.len(),
{
    if rows.len() > 0 {
        let earlier_rows = rows.drop_last();
        assert forall|i: int| 0 <= i < earlier_rows.len() implies (#[trigger] earlier_rows[i]).impacts_add_up() by {
            assert(earlier_rows[i] == rows[i]);
        }
        lemma_queries_after_add_up(earlier_rows);
        let before = queries_after(earlier_rows);
        let row = rows.last();
        assert(row.impacts_add_up());
        assert(queries_after(rows) == with_query(before, row));
        if before.contains_key(row.normalized_query_hash) {
            lemma_merged_query_adds_up(before[row.normalized_query_hash], row);
        }
    }
}

/// Two rows with the same fingerprint and query text merge into the same
/// record, whichever of them comes first.
pub proof fn lemma_merged_query_commutes(a: QueryLogView, b: QueryLogView)
    requires
        a.normalized_query_hash == b.normalized_query_hash,
        a.query == b.query,
    ensures
        merged_query(a, b) == merged_query(b, a),
{
    lemma_merged_names_commute(a.users, b.users);
    lemma_merged_names_commute(a.databases, b.databases);
    lemma_merged_names_commute(a.tables, b.tables);
}

/// Merging three rows gives the same record, whichever two are merged first.
pub proof fn lemma_merged_query_associates(a: QueryLogView, b: QueryLogView, c: QueryLogView)
    ensures
        merged_query(merged_query(a, b), c) == merged_query(a, merged_query(b, c)),
{
    lemma_merged_names_associate(a.users, b.users, c.users);
    lemma_merged_names_associate(a.databases, b.databases, c.databases);
    lemma_merged_names_associate(a.tables, b.tables, c.tables);
}

/// A record that takes in two rows is the same, whichever row comes first.
pub proof fn lemma_merged_query_rows_swap(record: QueryLogView, a: QueryLogView, b: QueryLogView)
    ensures
        merged_query(merged_query(record, a), b) == merged_query(merged_query(record, b), a),
{
    lemma_merged_query_associates(record, a, b);
    lemma_merged_query_associates(record, b, a);
    lemma_merged_names_commute(a.users, b.users);
    lemma_merged_names_commute(a.databases, b.databases);
    lemma_merged_names_commute(a.tables, b.tables);
    assert(merged_query(record, merged_query(a, b)) == merged_query(record, merged_query(b, a)));
}

/// Two rows that come in one after the other leave the same records behind,
/// whichever of them comes first. Where the two are the first rows of one
/// fingerprint, this is said of rows with the same query text, since the
/// text of the first row is the one that is kept.
pub proof fn lemma_with_query_rows_swap(
    queries: Map<u64, QueryLogView>,
    a: QueryLogView,
    b: QueryLogView,
)
    requires
        a.normalized_query_hash == b.normalized_query_hash && !queries.contains_key(
            a.normalized_query_hash,
        ) ==> a.query == b.query,
    ensures
        with_query(with_query(queries, a), b) == with_query(with_query(queries, b), a),
{
    let key = a.normalized_query_hash;
    if key == b.normalized_query_hash {
        if queries.contains_key(key) {
            lemma_merged_query_rows_swap(queries[key], a, b);
        } else {
            lemma_merged_query_commutes(a, b);
            lemma_merged_names_of_sorted(a.users, b.users);
            lemma_merged_names_of_sorted(a.databases, b.databases);
            lemma_merged_names_of_sorted(a.tables, b.tables);
            lemma_merged_names_of_sorted(b.users, a.users);
            lemma_merged_names_of_sorted(b.databases, a.databases);
            lemma_merged_names_of_sorted(b.tables, a.tables);
            assert(merged_query(filed_query(a), b) == merged_query(filed_query(b), a));
        }
    }
    assert(with_query(with_query(queries, a), b) =~= with_query(with_query(queries, b), a));
}

/// `row` with the query text that `texts` has for its fingerprint.
spec fn with_text(row: QueryLogView, texts: spec_fn(u64) -> Seq<char>) -> QueryLogView {
    QueryLogView { query: texts(row.normalized_query_hash), ..row }
}

/// The grouped queries after rows came in whose query texts are those that
/// `texts` has for their fingerprints.
spec fn queries_after_with_texts(
    rows: Seq<QueryLogView>,
    texts: spec_fn(u64) -> Seq<char>,
) -> Map<u64, QueryLogView> {
    rows.fold_left(
        Map::<u64, QueryLogView>::empty(),
        |queries: Map<u64, QueryLogView>, row: QueryLogView|
            with_query(queries, with_text(row, texts)),
    )
}

/// Rows that carry the texts of `texts` are merged as they are.
proof fn lemma_queries_after_with_texts(rows: Seq<QueryLogView>, texts: spec_fn(u64) -> Seq<char>)
    requires
        forall|i: int|
            0 <= i < rows.len() ==> (#[trigger] rows[i]).query == texts(
                rows[i].normalized_query_hash,
            ),
    ensures
        queries_after_with_texts(rows, texts) == queries_after(rows),
    decreases rows.len(),
{
    if rows.len() > 0 {
        let shorter = rows.drop_last();
        assert forall|i: int| 0 <= i < shorter.len() implies (#[trigger] shorter[i]).query == texts(
            shorter[i].normalized_query_hash,
        ) by {
            assert(shorter[i] == rows[i]);
        }
        lemma_queries_after_with_texts(shorter, texts);
        assert(with_text(rows.last(), texts) == rows.last());
    }
}

/// The records that are left when all rows are in do not depend on the order
/// in which the rows came in. This is said of rows that carry the same query
/// text wherever they have the same fingerprint, since the text of the first
/// row of a fingerprint is the one that is kept.
pub proof fn lemma_queries_after_any_order(rows: Seq<QueryLogView>, reordered: Seq<QueryLogView>)
    requires
        rows.to_multiset() == reordered.to_multiset(),
        forall|i: int, j: int|
            0 <= i < rows.len() && 0 <= j < rows.len() && (#[trigger] rows[i]).normalized_query_hash
                == (#[trigger] rows[j]).normalized_query_hash ==> rows[i].query == rows[j].query,
    ensures
        queries_after(rows) == queries_after(reordered),
{
    broadcast use vstd::seq_lib::group_to_multiset_ensures;

    let texts = |hash: u64|
        {
            let i = choose|i: int|
                0 <= i < rows.len() && (#[trigger] rows[i]).normalized_query_hash == hash;
            rows[i].query
        };
    assert forall|i: int| 0 <= i < rows.len() implies (#[trigger] rows[i]).query == texts(
        rows[i].normalized_query_hash,
    ) by {
        let hash = rows[i].normalized_query_hash;
        let chosen = choose|k: int|
            0 <= k < rows.len() && (#[trigger] rows[k]).normalized_query_hash == hash;
        assert(rows[chosen].normalized_query_hash == rows[i].normalized_query_hash);
    }
    assert forall|j: int| 0 <= j < reordered.len() implies (#[trigger] reordered[j]).query == texts(
        reordered[j].normalized_query_hash,
    ) by {
        assert(reordered.contains(reordered[j]));
        assert(reordered.to_multiset().count(reordered[j]) > 0);
        assert(rows.to_multiset().count(reordered[j]) > 0);
        assert(rows.contains(reordered[j]));
        let i = choose|i: int| 0 <= i < rows.len() && rows[i] == reordered[j];
        assert(rows[i].query == texts(rows[i].normalized_query_hash));
    }
    lemma_queries_after_with_texts(rows, texts);
    lemma_queries_after_with_texts(reordered, texts);
    let step = |queries: Map<u64, QueryLogView>, row: QueryLogView|
        with_query(queries, with_text(row, texts));
    assert forall|x: QueryLogView, y: QueryLogView, v: Map<u64, QueryLogView>| #[trigger]
        step(step(v, x), y) == step(step(v, y), x) by {
        lemma_with_query_rows_swap(v, with_text(x, texts), with_text(y, texts));
    }
    lemma_fold_left_permutation(rows, reordered, step, Map::<u64, QueryLogView>::empty());
}

/// Merging rows with the texts of `texts` in place of their own gives the
/// records of the rows themselves with those texts in place of theirs.
proof fn lemma_queries_after_texts_replaced(
    rows: Seq<QueryLogView>,
    texts: spec_fn(u64) -> Seq<char>,
)
    ensures
        queries_after_with_texts(rows, texts) == queries_after(rows).map_values(
            |record: QueryLogView| with_text(record, texts),
        ),
    decreases rows.len(),
{
    let replaced = |record: QueryLogView| with_text(record, texts);
    if rows.len() == 0 {
        assert(queries_after_with_texts(rows, texts) =~= queries_after(rows).map_values(replaced));
    } else {
        let shorter = rows.drop_last();
        let row = rows.last();
        lemma_queries_after_texts_replaced(shorter, texts);
        let before = queries_after(shorter);
        assert(queries_after(rows) == with_query(before, row));
        assert(queries_after_with_texts(rows, texts) == with_query(
            before.map_values(replaced),
            with_text(row, texts),
        ));
        assert(with_query(before.map_values(replaced), with_text(row, texts)) =~= with_query(
            before,
            row,
        ).map_values(replaced));
    }
}

/// Whatever the order in which the rows came in, and whatever their query
/// texts: the same fingerprints have a record, and the two records of a
/// fingerprint agree in everything but the query text, of which the one of
/// the first row is kept.
pub proof fn lemma_merged_numbers_any_order(
    rows: Seq<QueryLogView>,
    reordered: Seq<QueryLogView>,
    hash: u64,
)
    requires
        rows.to_multiset() == reordered.to_multiset(),
    ensures
        queries_after(rows).contains_key(hash) == queries_after(reordered).contains_key(hash),
        queries_after(rows).contains_key(hash) ==> (QueryLogView {
            query: queries_after(reordered)[hash].query,
            ..queries_after(rows)[hash]
        }) == queries_after(reordered)[hash],
{
    let texts = |fingerprint: u64| Seq::<char>::empty();
    let step = |queries: Map<u64, QueryLogView>, row: QueryLogView|
        with_query(queries, with_text(row, texts));
    assert forall|x: QueryLogView, y: QueryLogView, v: Map<u64, QueryLogView>| #[trigger]
        step(step(v, x), y) == step(step(v, y), x) by {
        lemma_with_query_rows_swap(v, with_text(x, texts), with_text(y, texts));
    }
    lemma_fold_left_permutation(rows, reordered, step, Map::<u64, QueryLogView>::empty());
    lemma_queries_after_texts_replaced(rows, texts);
    lemma_queries_after_texts_replaced(reordered, texts);
    let replaced = |record: QueryLogView| with_text(record, texts);
    let a = queries_after(rows);
    let b = queries_after(reordered);
    assert(a.map_values(replaced) == b.map_values(replaced));
    assert(a.map_values(replaced).contains_key(hash) == a.contains_key(hash));
    assert(b.map_values(replaced).contains_key(hash) == b.contains_key(hash));
    if a.contains_key(hash) {
        assert(a.map_values(replaced)[hash] == with_text(a[hash], texts));
        assert(b.map_values(replaced)[hash] == with_text(b[hash], texts));
    }
}

/// The ranking does not depend on the order in which the rows came in. This
/// is said of rows that carry the same query text wherever they have the same
/// fingerprint.
pub proof fn lemma_top_queries_any_order(
    rows: Seq<QueryLogView>,
    reordered: Seq<QueryLogView>,
    top: Seq<QueryLogView>,
    top_of_reordered: Seq<QueryLogView>,
    sort_by: QueriesSortBy,
    limit: nat,
)
    requires
        rows.to_multiset() == reordered.to_multiset(),
        forall|i: int, j: int|
            0 <= i < rows.len() && 0 <= j < rows.len() && (#[trigger] rows[i]).normalized_query_hash
                == (#[trigger] rows[j]).normalized_query_hash ==> rows[i].query == rows[j].query,
        is_top_queries(top, queries_after(rows), sort_by, limit),
        is_top_queries(top_of_reordered, queries_after(reordered), sort_by, limit),
    ensures
        top == top_of_reordered,
{
    lemma_queries_after_any_order(rows, reordered);
    lemma_top_queries_is_unique(top, top_of_reordered, queries_after(rows), sort_by, limit);
}

/// One of the three lists of names of a record.
pub enum NameList {
    Users,
    Databases,
    Tables,
}

impl QueryLogView {
    /// The list of names that `list` selects.
    pub open spec fn names(self, list: NameList) -> Seq<Seq<char>> {
        match list {
            NameList::Users => self.users,
            NameList::Databases => self.databases,
            NameList::Tables => self.tables,
        }
    }
}

/// The rows with the fingerprint `hash`, in their order.
pub open spec fn rows_of(rows: Seq<QueryLogView>, hash: u64) -> Seq<QueryLogView>
    decreases rows.len(),
{
    if rows.len() == 0 {
        rows
    } else if rows.last().normalized_query_hash == hash {
        rows_of(rows.drop_last(), hash).push(rows.last())
    } else {
        rows_of(rows.drop_last(), hash)
    }
}

/// The sum over the rows of the number that `number` selects.
pub open spec fn sum_of(rows: Seq<QueryLogView>, number: QueriesSortBy) -> int
    decreases rows.len(),
{
    if rows.len() == 0 {
        0
    } else {
        sum_of(rows.drop_last(), number) + rows.last().score(number)
    }
}

/// The names that the rows hold in the list that `list` selects.
pub open spec fn names_in(rows: Seq<QueryLogView>, list: NameList) -> Set<Seq<char>>
    decreases rows.len(),
{
    if rows.len() == 0 {
        Set::empty()
    } else {
        names_in(rows.drop_last(), list).union(rows.last().names(list).to_set())
    }
}

/// The latest of the last events of the rows.
pub open spec fn latest_of(rows: Seq<QueryLogView>) -> Timestamp
    decreases rows.len(),
{
    if rows.len() <= 1 {
        rows[0].max_event_time
    } else {
        later(latest_of(rows.drop_last()), rows.last().max_event_time)
    }
}

/// The earliest of the first events of the rows.
pub open spec fn earliest_of(rows: Seq<QueryLogView>) -> Timestamp
    decreases rows.len(),
{
    if rows.len() <= 1 {
        rows[0].min_event_time
    } else {
        earlier(earliest_of(rows.drop_last()), rows.last().min_event_time)
    }
}

/// The record of the rows of one fingerprint: the fingerprint and the query
/// text of the first row, the latest and the earliest of their times, each
/// counter and each score summed up and saturated, and each list of names
/// with every name of the rows once, in ascending order.
pub open spec fn record_of(rows: Seq<QueryLogView>) -> QueryLogView {
    QueryLogView {
        normalized_query_hash: rows[0].normalized_query_hash,
        query: rows[0].query,
        max_event_time: latest_of(rows),
        min_event_time: earliest_of(rows),
        total_query_duration_ms: saturated(sum_of(rows, QueriesSortBy::Duration)),
        total_read_rows: saturated(sum_of(rows, QueriesSortBy::ReadRows)),
        total_read_bytes: saturated(sum_of(rows, QueriesSortBy::ReadBytes)),
        total_memory_usage: saturated(sum_of(rows, QueriesSortBy::MemoryUsage)),
        total_user_time_us: saturated(sum_of(rows, QueriesSortBy::UserTime)),
        total_system_time_us: saturated(sum_of(rows, QueriesSortBy::SystemTime)),
        total_network_receive_bytes: saturated(sum_of(rows, QueriesSortBy::NetworkReceived)),
        total_network_send_bytes: saturated(sum_of(rows, QueriesSortBy::NetworkSent)),
        users: sorted_names(names_in(rows, NameList::Users)),
        databases: sorted_names(names_in(rows, NameList::Databases)),
        tables: sorted_names(names_in(rows, NameList::Tables)),
        io_impact: saturated(sum_of(rows, QueriesSortBy::IOImpact)),
        network_impact: saturated(sum_of(rows, QueriesSortBy::NetworkImpact)),
        cpu_impact: saturated(sum_of(rows, QueriesSortBy::CPUImpact)),
        memory_impact: saturated(sum_of(rows, QueriesSortBy::MemoryImpact)),
        time_impact: saturated(sum_of(rows, QueriesSortBy::TimeImpact)),
        total_impact: saturated(sum_of(rows, QueriesSortBy::TotalImpact)),
    }
}

proof fn lemma_sum_of_is_not_negative(rows: Seq<QueryLogView>, number: QueriesSortBy)
    ensures
        sum_of(rows, number) >= 0,
    decreases rows.len(),
{
    if rows.len() > 0 {
        lemma_sum_of_is_not_negative(rows.drop_last(), number);
    }
}

proof fn lemma_names_in_is_finite(rows: Seq<QueryLogView>, list: NameList)
    ensures
        names_in(rows, list).finite(),
    decreases rows.len(),
{
    broadcast use vstd::seq_lib::seq_to_set_is_finite;

    if rows.len() > 0 {
        lemma_names_in_is_finite(rows.drop_last(), list);
    }
}

/// The names of a record of rows after one more row was merged into it.
proof fn lemma_names_of_record_step(rows: Seq<QueryLogView>, list: NameList)
    requires
        rows.len() >= 2,
    ensures
        merged_names(sorted_names(names_in(rows.drop_last(), list)), rows.last().names(list))
            == sorted_names(names_in(rows, list)),
{
    lemma_names_in_is_finite(rows.drop_last(), list);
    lemma_sorted_names(names_in(rows.drop_last(), list));
}

/// The record of one row is the row as it is filed.
proof fn lemma_record_of_one(row: QueryLogView)
    ensures
        record_of(seq![row]) == filed_query(row),
{
    let rows = seq![row];
    assert(rows.drop_last() =~= Seq::<QueryLogView>::empty());
    assert(rows.last() == row);
    assert forall|number: QueriesSortBy| #[trigger] sum_of(rows, number) == row.score(number) by {
        assert(sum_of(rows.drop_last(), number) == 0);
    }
    assert forall|list: NameList| #[trigger] names_in(rows, list) == row.names(list).to_set() by {
        assert(names_in(rows.drop_last(), list) =~= Set::<Seq<char>>::empty());
        assert(names_in(rows, list) =~= row.names(list).to_set());
    }
    assert(names_in(rows, NameList::Users) == row.users.to_set());
    assert(names_in(rows, NameList::Databases) == row.databases.to_set());
    assert(names_in(rows, NameList::Tables) == row.tables.to_set());
}

/// The record of rows with one more row merged into it is the record of all
/// of these rows.
proof fn lemma_record_of_step(rows: Seq<QueryLogView>)
    requires
        rows.len() >= 2,
    ensures
        merged_query(record_of(rows.drop_last()), rows.last()) == record_of(rows),
{
    let shorter = rows.drop_last();
    assert(shorter[0] == rows[0]);
    assert forall|number: QueriesSortBy|
        saturated(saturated(sum_of(shorter, number)) + rows.last().score(number)) == saturated(
            #[trigger] sum_of(rows, number),
        ) by {
        lemma_sum_of_is_not_negative(shorter, number);
    }
    lemma_names_of_record_step(rows, NameList::Users);
    lemma_names_of_record_step(rows, NameList::Databases);
    lemma_names_of_record_step(rows, NameList::Tables);
    assert(sum_of(rows, QueriesSortBy::Duration) == sum_of(shorter, QueriesSortBy::Duration)
        + rows.last().score(QueriesSortBy::Duration));
    assert(sum_of(rows, QueriesSortBy::ReadRows) == sum_of(shorter, QueriesSortBy::ReadRows)
        + rows.last().score(QueriesSortBy::ReadRows));
    assert(sum_of(rows, QueriesSortBy::ReadBytes) == sum_of(shorter, QueriesSortBy::ReadBytes)
        + rows.last().score(QueriesSortBy::ReadBytes));
    assert(sum_of(rows, QueriesSortBy::MemoryUsage) == sum_of(shorter, QueriesSortBy::MemoryUsage)
        + rows.last().score(QueriesSortBy::MemoryUsage));
    assert(sum_of(rows, QueriesSortBy::UserTime) == sum_of(shorter, QueriesSortBy::UserTime)
        + rows.last().score(QueriesSortBy::UserTime));
    assert(sum_of(rows, QueriesSortBy::SystemTime) == sum_of(shorter, QueriesSortBy::SystemTime)
        + rows.last().score(QueriesSortBy::SystemTime));
    assert(sum_of(rows, QueriesSortBy::NetworkReceived) == sum_of(shorter, QueriesSortBy::NetworkReceived)
        + rows.last().score(QueriesSortBy::NetworkReceived));
    assert(sum_of(rows, QueriesSortBy::NetworkSent) == sum_of(shorter, QueriesSortBy::NetworkSent)
        + rows.last().score(QueriesSortBy::NetworkSent));
    assert(sum_of(rows, QueriesSortBy::IOImpact) == sum_of(shorter, QueriesSortBy::IOImpact)
        + rows.last().score(QueriesSortBy::IOImpact));
    assert(sum_of(rows, QueriesSortBy::NetworkImpact) == sum_of(shorter, QueriesSortBy::NetworkImpact)
        + rows.last().score(QueriesSortBy::NetworkImpact));
    assert(sum_of(rows, QueriesSortBy::CPUImpact) == sum_of(shorter, QueriesSortBy::CPUImpact)
        + rows.last().score(QueriesSortBy::CPUImpact));
    assert(sum_of(rows, QueriesSortBy::MemoryImpact) == sum_of(shorter, QueriesSortBy::MemoryImpact)
        + rows.last().score(QueriesSortBy::MemoryImpact));
    assert(sum_of(rows, QueriesSortBy::TimeImpact) == sum_of(shorter, QueriesSortBy::TimeImpact)
        + rows.last().score(QueriesSortBy::TimeImpact));
    assert(sum_of(rows, QueriesSortBy::TotalImpact) == sum_of(shorter, QueriesSortBy::TotalImpact)
        + rows.last().score(QueriesSortBy::TotalImpact));
}

/// What the merged records are, in closed form: a fingerprint has a record
/// exactly where a row carries it, and that record is the record of the rows
/// that carry it: sums that saturate, the latest and the earliest time, and
/// the names of all of them in order.
pub proof fn lemma_queries_after_closed_form(rows: Seq<QueryLogView>, hash: u64)
    ensures
        queries_after(rows).contains_key(hash) <==> rows_of(rows, hash).len() > 0,
        rows_of(rows, hash).len() > 0 ==> queries_after(rows)[hash] == record_of(
            rows_of(rows, hash),
        ),
    decreases rows.len(),
{
    if rows.len() > 0 {
        let shorter = rows.drop_last();
        let last = rows.last();
        lemma_queries_after_closed_form(shorter, hash);
        assert(queries_after(rows) == with_query(queries_after(shorter), last));
        if last.normalized_query_hash == hash {
            let chosen = rows_of(rows, hash);
            let before = rows_of(shorter, hash);
            assert(chosen.drop_last() =~= before);
            assert(chosen.last() == last);
            if before.len() == 0 {
                assert(chosen =~= seq![last]);
                lemma_record_of_one(last);
            } else {
                lemma_record_of_step(chosen);
            }
        }
    }
}

/// The closed form holds whatever the order in which the rows came in. This
/// is said of rows that carry the same query text wherever they have the same
/// fingerprint.
pub proof fn lemma_closed_form_any_order(
    rows: Seq<QueryLogView>,
    reordered: Seq<QueryLogView>,
    hash: u64,
)
    requires
        rows.to_multiset() == reordered.to_multiset(),
        forall|i: int, j: int|
            0 <= i < rows.len() && 0 <= j < rows.len() && (#[trigger] rows[i]).normalized_query_hash
                == (#[trigger] rows[j]).normalized_query_hash ==> rows[i].query == rows[j].query,
        rows_of(rows, hash).len() > 0,
    ensures
        queries_after(reordered).contains_key(hash),
        queries_after(reordered)[hash] == record_of(rows_of(rows, hash)),
{
    lemma_queries_after_any_order(rows, reordered);
    lemma_queries_after_closed_form(rows, hash);
}

/// A record of an error that takes in two rows is the same, whichever row
/// comes first.
pub proof fn lemma_merged_error_rows_swap(record: ErrorView, a: ErrorView, b: ErrorView)
    ensures
        merged_error(merged_error(record, a), b) == merged_error(merged_error(record, b), a),
{
}

/// Two rows of errors that come in one after the other leave the same records
/// behind, whichever of them comes first. Where the two are the first rows of
/// one code, this is said of rows with the same name and message, since
/// those of the first row are the ones that are kept.
pub proof fn lemma_with_error_rows_swap(errors: Map<i32, ErrorView>, a: ErrorView, b: ErrorView)
    requires
        a.code == b.code && !errors.contains_key(a.code) ==> a.name == b.name && a.error_message
            == b.error_message,
    ensures
        with_error(with_error(errors, a), b) == with_error(with_error(errors, b), a),
{
    assert(with_error(with_error(errors, a), b) =~= with_error(with_error(errors, b), a));
}

/// A record that takes in the same rows in two different orders is the same
/// in the end.
pub proof fn lemma_merged_query_any_order(
    record: QueryLogView,
    rows: Seq<QueryLogView>,
    reordered: Seq<QueryLogView>,
)
    requires
        rows.to_multiset() == reordered.to_multiset(),
    ensures
        rows.fold_left(record, |r: QueryLogView, row: QueryLogView| merged_query(r, row))
            == reordered.fold_left(
            record,
            |r: QueryLogView, row: QueryLogView| merged_query(r, row),
        ),
{
    let merge = |r: QueryLogView, row: QueryLogView| merged_query(r, row);
    assert forall|x: QueryLogView, y: QueryLogView, v: QueryLogView| #[trigger]
        merge(merge(v, x), y) == merge(merge(v, y), x) by {
        lemma_merged_query_rows_swap(v, x, y);
    }
    lemma_fold_left_permutation(rows, reordered, merge, record);
}

/// The running total of the same rows in two different orders is the same.
pub proof fn lemma_total_any_order(rows: Seq<QueryLogTotal>, reordered: Seq<QueryLogTotal>)
    requires
        rows.to_multiset() == reordered.to_multiset(),
    ensures
        total_after(rows) == total_after(reordered),
{
    let step = |total: QueryLogTotal, row: QueryLogTotal| added_total(total, row);
    assert forall|x: QueryLogTotal, y: QueryLogTotal, v: QueryLogTotal| #[trigger]
        step(step(v, x), y) == step(step(v, y), x) by {}
    lemma_fold_left_permutation(rows, reordered, step, QueryLogTotal::zero());
}

/// Adds `row` to the record `existing` of the same fingerprint.
fn absorb_query(existing: &mut QueryLog, row: &QueryLog)
    ensures
        final(existing)@ == merged_query(old(existing)@, row@),
{
    existing.total_query_duration_ms = existing.total_query_duration_ms.saturating_add(
        row.total_query_duration_ms,
    );
    existing.total_read_rows = existing.total_read_rows.saturating_add(row.total_read_rows);
    existing.total_read_bytes = existing.total_read_bytes.saturating_add(row.total_read_bytes);
    existing.total_memory_usage = existing.total_memory_usage.saturating_add(
        row.total_memory_usage,
    );
    existing.total_user_time_us = existing.total_user_time_us.saturating_add(
        row.total_user_time_us,
    );
    existing.total_system_time_us = existing.total_system_time_us.saturating_add(
        row.total_system_time_us,
    );
    existing.total_network_send_bytes = existing.total_network_send_bytes.saturating_add(
        row.total_network_send_bytes,
    );
    existing.total_network_receive_bytes = existing.total_network_receive_bytes.saturating_add(
        row.total_network_receive_bytes,
    );

    existing.max_event_time = existing.max_event_time.latest(row.max_event_time);
    existing.min_event_time = existing.min_event_time.earliest(row.min_event_time);

    merge_string_vecs(&mut existing.users, row.users.as_slice());
    merge_string_vecs(&mut existing.databases, row.databases.as_slice());
    merge_string_vecs(&mut existing.tables, row.tables.as_slice());

    existing.io_impact = existing.io_impact.saturating_add(row.io_impact);
    existing.cpu_impact = existing.cpu_impact.saturating_add(row.cpu_impact);
    existing.memory_impact = existing.memory_impact.saturating_add(row.memory_impact);
    existing.time_impact = existing.time_impact.saturating_add(row.time_impact);
    existing.network_impact = existing.network_impact.saturating_add(row.network_impact);
    existing.total_impact = existing.total_impact.saturating_add(row.total_impact);
}

/// Adds `row` to the record `existing` of the same code.
fn absorb_error(existing: &mut Error, row: &Error)
    ensures
        final(existing)@ == merged_error(old(existing)@, row@),
{
    existing.count = existing.count.saturating_add(row.count);
    if row.last_error_time.unix_nanos > existing.last_error_time.unix_nanos {
        existing.last_error_time = row.last_error_time;
    }
}

/// What is known once some rows were merged: the running total, and the
/// record of each fingerprint and of each error code.
pub struct Analyzer {
    total_queries: QueryLogTotal,
    queries: HashMap<u64, QueryLog>,
    errors: HashMap<i32, Error>,
}

/// What an [`Analyzer`] holds, as maps from key to record.
pub struct AnalyzerView {
    pub total_queries: QueryLogTotal,
    pub queries: Map<u64, QueryLogView>,
    pub errors: Map<i32, ErrorView>,
}

impl View for Analyzer {
    type V = AnalyzerView;

    closed spec fn view(&self) -> AnalyzerView {
        AnalyzerView {
            total_queries: self.total_queries,
            queries: self.queries@.map_values(|q: QueryLog| q@),
            errors: self.errors@.map_values(|e: Error| e@),
        }
    }
}

impl AnalyzerView {
    /// In the running total and in every record of a fingerprint, the total
    /// impact is the saturating sum of the five others.
    pub open spec fn impacts_add_up(self) -> bool {
        &&& self.total_queries.impacts_add_up()
        &&& forall|k: u64| #[trigger]
            self.queries.contains_key(k) ==> self.queries[k].impacts_add_up()
    }

    /// Nothing was merged yet.
    pub open spec fn empty() -> AnalyzerView {
        AnalyzerView {
            total_queries: QueryLogTotal::zero(),
            queries: Map::empty(),
            errors: Map::empty(),
        }
    }

    /// Each record is filed under its own fingerprint or code.
    pub open spec fn keyed(self) -> bool {
        &&& forall|k: u64| #[trigger]
            self.queries.contains_key(k) ==> self.queries[k].normalized_query_hash == k
        &&& forall|c: i32| #[trigger] self.errors.contains_key(c) ==> self.errors[c].code == c
    }
}

impl Analyzer {
    /// Each record is filed under its own fingerprint or code.
    #[verifier::type_invariant]
    spec fn filed(&self) -> bool {
        &&& forall|k: u64| #[trigger]
            self.queries@.contains_key(k) ==> self.queries@[k].normalized_query_hash == k
        &&& forall|c: i32| #[trigger] self.errors@.contains_key(c) ==> self.errors@[c].code == c
    }

    /// An analyzer that has seen no row.
    pub fn new() -> (analyzer: Analyzer)
        ensures
            analyzer@ == AnalyzerView::empty(),
    {
        let analyzer = Analyzer {
            total_queries: QueryLogTotal::default(),
            queries: HashMap::new(),
            errors: HashMap::new(),
        };
        assert(analyzer@.queries =~= Map::empty());
        assert(analyzer@.errors =~= Map::empty());
        analyzer
    }

    /// Adds a row of totals to the running total.
    pub fn merge_query_total(&mut self, log: QueryLogTotal)
        ensures
            final(self)@.total_queries == added_total(old(self)@.total_queries, log),
            final(self)@.queries == old(self)@.queries,
            final(self)@.errors == old(self)@.errors,
            old(self)@.impacts_add_up() && log.impacts_add_up() ==> final(self)@.impacts_add_up(),
    {
        proof {
            use_type_invariant(&*self);
        }
        let total = self.total_queries;
        self.total_queries = QueryLogTotal {
            queries_count: total.queries_count.saturating_add(log.queries_count),
            io_impact: total.io_impact.saturating_add(log.io_impact),
            network_impact: total.network_impact.saturating_add(log.network_impact),
            cpu_impact: total.cpu_impact.saturating_add(log.cpu_impact),
            memory_impact: total.memory_impact.saturating_add(log.memory_impact),
            time_impact: total.time_impact.saturating_add(log.time_impact),
            total_impact: total.total_impact.saturating_add(log.total_impact),
        };
        proof {
            if old(self)@.impacts_add_up() && log.impacts_add_up() {
                lemma_added_total_adds_up(old(self)@.total_queries, log);
                assert forall|k: u64| #[trigger] self@.queries.contains_key(k) implies self@.queries[k].impacts_add_up() by {
                    assert(old(self)@.queries.contains_key(k));
                }
            }
        }
    }

    /// Adds a row to the record of its fingerprint, or files it as the first
    /// record of that fingerprint.
    pub fn merge_query(&mut self, log: QueryLog)
        ensures
            final(self)@.queries == with_query(old(self)@.queries, log@),
            final(self)@.total_queries == old(self)@.total_queries,
            final(self)@.errors == old(self)@.errors,
            old(self)@.impacts_add_up() && log@.impacts_add_up() ==> final(self)@.impacts_add_up(),
    {
        proof {
            use_type_invariant(&*self);
        }
        let mut taken = Analyzer::new();
        std::mem::swap(self, &mut taken);
        proof {
            use_type_invariant(&taken);
        }
        let Analyzer { total_queries, queries, errors } = taken;
        let mut queries = queries;
        let ghost before = queries@;
        let key = log.normalized_query_hash;
        match queries.remove(&key) {
            Some(existing) => {
                let mut existing = existing;
                absorb_query(&mut existing, &log);
                queries.insert(key, existing);
                assert(queries@ =~= before.insert(key, existing));
            },
            None => {
                let ghost row = log@;
                let mut log = log;
                let nothing: Vec<String> = Vec::new();
                let none = nothing.as_slice();
                merge_string_vecs(&mut log.users, none);
                merge_string_vecs(&mut log.databases, none);
                merge_string_vecs(&mut log.tables, none);
                proof {
                    assert(none.deep_view() =~= Seq::<Seq<char>>::empty());
                    lemma_merged_names_of_sorted(row.users, row.users);
                    lemma_merged_names_of_sorted(row.databases, row.databases);
                    lemma_merged_names_of_sorted(row.tables, row.tables);
                    assert(log@ == filed_query(row));
                }
                queries.insert(key, log);
                assert(queries@ =~= before.insert(key, log));
            },
        }
        *self = Analyzer { total_queries, queries, errors };
        assert(self@.queries =~= with_query(old(self)@.queries, log@));
    }

    /// Adds a row to the record of its error code, or files it as the first
    /// record of that code.
    pub fn merge_error(&mut self, err: Error)
        ensures
            final(self)@.errors == with_error(old(self)@.errors, err@),
            final(self)@.total_queries == old(self)@.total_queries,
            final(self)@.queries == old(self)@.queries,
            old(self)@.impacts_add_up() ==> final(self)@.impacts_add_up(),
    {
        proof {
            use_type_invariant(&*self);
        }
        let mut taken = Analyzer::new();
        std::mem::swap(self, &mut taken);
        proof {
            use_type_invariant(&taken);
        }
        let Analyzer { total_queries, queries, errors } = taken;
        let mut errors = errors;
        let ghost before = errors@;
        let key = err.code;
        match errors.remove(&key) {
            Some(existing) => {
                let mut existing = existing;
                absorb_error(&mut existing, &err);
                errors.insert(key, existing);
                assert(errors@ =~= before.insert(key, existing));
            },
            None => {
                errors.insert(key, err);
                assert(errors@ =~= before.insert(key, err));
            },
        }
        *self = Analyzer { total_queries, queries, errors };
        assert(self@.errors =~= with_error(old(self)@.errors, err@));
        assert(self@.queries == old(self)@.queries);
        proof {
            if old(self)@.impacts_add_up() {
                assert forall|k: u64| #[trigger] self@.queries.contains_key(k) implies self@.queries[k].impacts_add_up() by {
                    assert(old(self)@.queries.contains_key(k));
                }
            }
        }
    }

    /// The `limit` records that rank first by `sort_by`, best first. Records
    /// with the same score are listed by ascending fingerprint.
    fn top_queries(&self, limit: usize, sort_by: QueriesSortBy) -> (top: Vec<QueryLog>)
        ensures
            is_top_queries(top.deep_view(), self@.queries, sort_by, limit as nat),
    {
        proof {
            use_type_invariant(self);
            assert(self@.keyed());
        }
        let mut top: Vec<QueryLog> = Vec::new();
        let rows = self.queries.iter();
        let ghost all = rows.remaining();
        let ghost mut seen: Set<u64> = Set::empty();
        for pair in it: rows
            invariant
                self@.keyed(),
                it.seq() == all,
                all.len() == self.queries@.dom().len(),
                all.no_duplicates(),
                forall|i: int|
                    0 <= i < all.len() ==> self.queries@.contains_key(*(#[trigger] all[i]).0)
                        && self.queries@[*all[i].0] == *all[i].1,
                forall|k: u64| #[trigger]
                    self.queries@.contains_key(k) ==> all.contains((&k, &self.queries@[k])),
                seen.finite(),
                seen.len() == it.index(),
                forall|k: u64|
                    seen.contains(k) <==> exists|i: int|
                        0 <= i < it.index() && *(#[trigger] all[i]).0 == k,
                is_top_queries_of(top.deep_view(), self@.queries, seen, sort_by, limit as nat),
                top.len() == if limit <= it.index() {
                    limit as int
                } else {
                    it.index()
                },
        {
            let ghost n = it.index();
            let (key, row) = pair;
            proof {
                assert((key, row) == all[n]);
                assert(self.queries@.contains_key(*key) && self.queries@[*key] == *row);
                assert(self@.queries.contains_key(*key) && self@.queries[*key] == row@);
                assert(*key == row.normalized_query_hash);
                if seen.contains(*key) {
                    let i = choose|i: int| 0 <= i < n && *(#[trigger] all[i]).0 == *key;
                    assert(all[i] == all[n]);
                }
            }
            place_query(&mut top, row, limit, sort_by, Ghost(self@.queries), Ghost(seen));
            proof {
                let grown = seen.insert(*key);
                assert forall|k: u64| grown.contains(k) <==> exists|i: int|
                    0 <= i < n + 1 && *(#[trigger] all[i]).0 == k by {
                    if k == *key {
                        assert(*all[n].0 == k);
                    }
                    if seen.contains(k) {
                        let i = choose|i: int| 0 <= i < n && *(#[trigger] all[i]).0 == k;
                        assert(0 <= i < n + 1 && *all[i].0 == k);
                    }
                }
                seen = grown;
            }
        }
        proof {
            assert forall|k: u64| self@.queries.dom().contains(k) implies seen.contains(k) by {
                assert(self.queries@.contains_key(k));
                let pair = (&k, &self.queries@[k]);
                assert(all.contains(pair));
                let i = choose|i: int| 0 <= i < all.len() && all[i] == pair;
                assert(*all[i].0 == k);
            }
            assert(seen =~= self@.queries.dom());
        }
        top
    }

    /// The `limit` records with the highest counts, highest first. Records
    /// with the same count are listed by ascending code.
    fn top_errors(&self, limit: usize) -> (top: Vec<Error>)
        ensures
            is_top_errors(top.deep_view(), self@.errors, limit as nat),
    {
        proof {
            use_type_invariant(self);
            assert(self@.keyed());
        }
        let mut top: Vec<Error> = Vec::new();
        let rows = self.errors.iter();
        let ghost all = rows.remaining();
        let ghost mut seen: Set<i32> = Set::empty();
        for pair in it: rows
            invariant
                self@.keyed(),
                it.seq() == all,
                all.len() == self.errors@.dom().len(),
                all.no_duplicates(),
                forall|i: int|
                    0 <= i < all.len() ==> self.errors@.contains_key(*(#[trigger] all[i]).0)
                        && self.errors@[*all[i].0] == *all[i].1,
                forall|k: i32| #[trigger]
                    self.errors@.contains_key(k) ==> all.contains((&k, &self.errors@[k])),
                seen.finite(),
                seen.len() == it.index(),
                forall|k: i32|
                    seen.contains(k) <==> exists|i: int|
                        0 <= i < it.index() && *(#[trigger] all[i]).0 == k,
                is_top_errors_of(top.deep_view(), self@.errors, seen, limit as nat),
                top.len() == if limit <= it.index() {
                    limit as int
                } else {
                    it.index()
                },
        {
            let ghost n = it.index();
            let (key, row) = pair;
            proof {
                assert((key, row) == all[n]);
                assert(self.errors@.contains_key(*key) && self.errors@[*key] == *row);
                assert(self@.errors.contains_key(*key) && self@.errors[*key] == row@);
                assert(*key == row.code);
                if seen.contains(*key) {
                    let i = choose|i: int| 0 <= i < n && *(#[trigger] all[i]).0 == *key;
                    assert(all[i] == all[n]);
                }
            }
            place_error(&mut top, row, limit, Ghost(self@.errors), Ghost(seen));
            proof {
                let grown = seen.insert(*key);
                assert forall|k: i32| grown.contains(k) <==> exists|i: int|
                    0 <= i < n + 1 && *(#[trigger] all[i]).0 == k by {
                    if k == *key {
                        assert(*all[n].0 == k);
                    }
                    if seen.contains(k) {
                        let i = choose|i: int| 0 <= i < n && *(#[trigger] all[i]).0 == k;
                        assert(0 <= i < n + 1 && *all[i].0 == k);
                    }
                }
                seen = grown;
            }
        }
        proof {
            assert forall|k: i32| self@.errors.dom().contains(k) implies seen.contains(k) by {
                assert(self.errors@.contains_key(k));
                let pair = (&k, &self.errors@[k]);
                assert(all.contains(pair));
                let i = choose|i: int| 0 <= i < all.len() && all[i] == pair;
                assert(*all[i].0 == k);
            }
            assert(seen =~= self@.errors.dom());
        }
        top
    }

    /// The running total.
    fn total_queries(&self) -> (total: QueryLogTotal)
        ensures
            total == self@.total_queries,
    {
        self.total_queries
    }

    /// Ends the taking in of rows. What was merged stays as it is, and from
    /// here on it is only read.
    pub fn finish(self) -> (done: Finalized)
        ensures
            done@ == self@,
    {
        Finalized { merged: self }
    }
}

/// What was merged once all rows are in. No row is taken in any more: a
/// ranking only reads what is there.
pub struct Finalized {
    merged: Analyzer,
}

impl View for Finalized {
    type V = AnalyzerView;

    closed spec fn view(&self) -> AnalyzerView {
        self.merged@
    }
}

impl Finalized {
    /// The `limit` records that rank first by `sort_by`, best first. Records
    /// with the same number are listed by ascending fingerprint.
    pub fn top_queries(&self, limit: usize, sort_by: QueriesSortBy) -> (top: Vec<QueryLog>)
        ensures
            is_top_queries(top.deep_view(), self@.queries, sort_by, limit as nat),
    {
        self.merged.top_queries(limit, sort_by)
    }

    /// The `limit` records with the highest counts, highest first. Records
    /// with the same count are listed by ascending code.
    pub fn top_errors(&self, limit: usize) -> (top: Vec<Error>)
        ensures
            is_top_errors(top.deep_view(), self@.errors, limit as nat),
    {
        self.merged.top_errors(limit)
    }

    /// The total of all rows of totals.
    pub fn total_queries(&self) -> (total: QueryLogTotal)
        ensures
            total == self@.total_queries,
    {
        self.merged.total_queries()
    }
}

/// Puts `name` at its place in an ascending list, unless the list holds it.
fn insert_name(names: &mut Vec<String>, name: String)
    requires
        strictly_ascending(old(names).deep_view()),
    ensures
        strictly_ascending(final(names).deep_view()),
        final(names).deep_view().to_set() == old(names).deep_view().to_set().insert(name@),
{
    let ghost before = names.deep_view();
    let mut at: usize = 0;
    while at < names.len() && text_precedes(names[at].as_str(), name.as_str())
        invariant
            at <= names.len(),
            names.deep_view() == before,
            forall|k: int| 0 <= k < at ==> text_le(#[trigger] before[k], name@) && before[k] != name@,
        decreases names.len() - at,
    {
        at = at + 1;
    }
    if at < names.len() && names[at] == name {
        assert(before[at as int] == name@);
        assert(before.to_set().insert(name@) =~= before.to_set());
    } else {
        proof {
            crate::names::lemma_text_order_is_total();
            assert forall|k: int| at <= k < before.len() implies text_le(
                name@,
                #[trigger] before[k],
            ) && before[k] != name@ by {
                let order = crate::names::text_order();
                assert(order(before[at as int], name@) || order(name@, before[at as int]));
                if at < k {
                    assert(order(before[at as int], before[k]));
                    assert(order(name@, before[at as int]) && order(before[at as int], before[k])
                        ==> order(name@, before[k]));
                    if before[k] == name@ {
                        assert(order(before[at as int], name@) && order(name@, before[at as int])
                            ==> before[at as int] == name@);
                    }
                }
            }
        }
        names.insert(at, name);
        proof {
            let after = names.deep_view();
            assert(after =~= before.insert(at as int, name@));
            assert forall|i: int, j: int| 0 <= i < j < after.len() implies text_le(
                #[trigger] after[i],
                #[trigger] after[j],
            ) && after[i] != after[j] by {
                if j < at {
                    assert(after[i] == before[i] && after[j] == before[j]);
                } else if j == at {
                    assert(after[i] == before[i]);
                } else if i < at {
                    assert(after[i] == before[i] && after[j] == before[j - 1]);
                } else if i == at {
                    assert(after[j] == before[j - 1]);
                } else {
                    assert(after[i] == before[i - 1] && after[j] == before[j - 1]);
                }
            }
            assert forall|x: Seq<char>| after.to_set().contains(x) == before.to_set().insert(
                name@,
            ).contains(x) by {
                if before.contains(x) {
                    let k = choose|k: int| 0 <= k < before.len() && before[k] == x;
                    if k < at {
                        assert(after[k] == x);
                    } else {
                        assert(after[k + 1] == x);
                    }
                }
                if x == name@ {
                    assert(after[at as int] == x);
                }
                if after.contains(x) {
                    let k = choose|k: int| 0 <= k < after.len() && after[k] == x;
                    if k < at {
                        assert(before[k] == x);
                    } else if k > at {
                        assert(before[k - 1] == x);
                    }
                }
            }
            assert(after.to_set() =~= before.to_set().insert(name@));
        }
    }
}

/// Adds the names of `source` to those of `target`. Afterwards `target` holds
/// each name of the two lists once, in ascending order.
pub fn merge_string_vecs(target: &mut Vec<String>, source: &[String])
    ensures
        final(target).deep_view() == merged_names(old(target).deep_view(), source.deep_view()),
{
    let ghost kept = target.deep_view();
    let ghost added = source.deep_view();
    let mut merged: Vec<String> = Vec::new();
    let mut i: usize = 0;
    assert(kept.take(0).to_set() =~= Set::<Seq<char>>::empty());
    assert(merged.deep_view().to_set() =~= Set::<Seq<char>>::empty());
    while i < target.len()
        invariant
            i <= target.len(),
            target.deep_view() == kept,
            strictly_ascending(merged.deep_view()),
            merged.deep_view().to_set() == kept.take(i as int).to_set(),
        decreases target.len() - i,
    {
        let name = target[i].clone();
        insert_name(&mut merged, name);
        proof {
            assert(kept.take(i + 1) =~= kept.take(i as int).push(kept[i as int]));
            lemma_push_to_set(kept.take(i as int), kept[i as int]);
        }
        i = i + 1;
    }
    assert(kept.take(kept.len() as int) =~= kept);
    let mut j: usize = 0;
    assert(added.take(0).to_set() =~= Set::<Seq<char>>::empty());
    assert(kept.to_set().union(Set::<Seq<char>>::empty()) =~= kept.to_set());
    while j < source.len()
        invariant
            j <= source.len(),
            source.deep_view() == added,
            strictly_ascending(merged.deep_view()),
            merged.deep_view().to_set() == kept.to_set().union(added.take(j as int).to_set()),
        decreases source.len() - j,
    {
        let name = source[j].clone();
        insert_name(&mut merged, name);
        proof {
            assert(added.take(j + 1) =~= added.take(j as int).push(added[j as int]));
            lemma_push_to_set(added.take(j as int), added[j as int]);
            assert(kept.to_set().union(added.take(j as int).to_set()).insert(added[j as int])
                =~= kept.to_set().union(added.take(j + 1).to_set()));
        }
        j = j + 1;
    }
    proof {
        assert(added.take(added.len() as int) =~= added);
        lemma_strictly_ascending_is_sorted(merged.deep_view());
    }
    *target = merged;
}

/// The names of a list with one more name at its end.
proof fn lemma_push_to_set(names: Seq<Seq<char>>, name: Seq<char>)
    ensures
        names.push(name).to_set() == names.to_set().insert(name),
{
    let longer = names.push(name);
    assert forall|x: Seq<char>| longer.to_set().contains(x) == names.to_set().insert(
        name,
    ).contains(x) by {
        if names.contains(x) {
            let k = choose|k: int| 0 <= k < names.len() && names[k] == x;
            assert(longer[k] == x);
        }
        if x == name {
            assert(longer[names.len() as int] == x);
        }
    }
    assert(longer.to_set() =~= names.to_set().insert(name));
}

} // verus!
