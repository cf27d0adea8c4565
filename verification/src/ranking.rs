//! The ranking of merged records.
//!
//! Grouped queries are ranked by a chosen score, highest first, and errors by
//! their count, highest first. Records that tie are listed by ascending
//! fingerprint or code, so that a ranking depends on the merged records
//! alone and not on the order in which their rows came in.

use crate::model::{Error, ErrorView, QueriesSortBy, QueryLog, QueryLogView};
use vstd::prelude::*;

verus! {

/// `a` is listed before `b`: it has the higher score, or the same score and
/// the lower fingerprint.
pub open spec fn query_ranks_before(
    a: QueryLogView,
    b: QueryLogView,
    sort_by: QueriesSortBy,
) -> bool {
    a.score(sort_by) > b.score(sort_by) || (a.score(sort_by) == b.score(sort_by)
        && a.normalized_query_hash < b.normalized_query_hash)
}

/// The list holds a record of the fingerprint `key`.
pub open spec fn lists_query(top: Seq<QueryLogView>, key: u64) -> bool {
    exists|i: int| 0 <= i < top.len() && (#[trigger] top[i]).normalized_query_hash == key
}

/// `top` is the head of the ranking of the records whose fingerprints are in
/// `seen`: at most `limit` of these records, in ranking order, none of those
/// left out ranked before one that is listed, and none left out while there
/// is room.
pub open spec fn is_top_queries_of(
    top: Seq<QueryLogView>,
    queries: Map<u64, QueryLogView>,
    seen: Set<u64>,
    sort_by: QueriesSortBy,
    limit: nat,
) -> bool {
    &&& top.len() <= limit
    &&& forall|i: int|
        0 <= i < top.len() ==> {
            let key = (#[trigger] top[i]).normalized_query_hash;
            seen.contains(key) && queries.contains_key(key) && queries[key] == top[i]
        }
    &&& forall|i: int, j: int|
        0 <= i < j < top.len() ==> query_ranks_before(#[trigger] top[i], #[trigger] top[j], sort_by)
    &&& forall|k: u64, i: int|
        #![trigger seen.contains(k), top[i]]
        seen.contains(k) && queries.contains_key(k) && !lists_query(top, k) && 0 <= i < top.len()
            ==> query_ranks_before(top[i], queries[k], sort_by)
    &&& top.len() < limit ==> forall|k: u64|
        #![trigger seen.contains(k)]
        seen.contains(k) && queries.contains_key(k) ==> lists_query(top, k)
}

/// `top` is the ranking of all records, cut off after `limit` of them.
pub open spec fn is_top_queries(
    top: Seq<QueryLogView>,
    queries: Map<u64, QueryLogView>,
    sort_by: QueriesSortBy,
    limit: nat,
) -> bool {
    &&& is_top_queries_of(top, queries, queries.dom(), sort_by, limit)
    &&& top.len() == if limit <= queries.dom().len() {
        limit
    } else {
        queries.dom().len()
    }
}

/// There is one ranking only: two lists that are both the ranking of the
/// same records, cut off after the same number, are the same list.
pub proof fn lemma_top_queries_is_unique(
    a: Seq<QueryLogView>,
    b: Seq<QueryLogView>,
    queries: Map<u64, QueryLogView>,
    sort_by: QueriesSortBy,
    limit: nat,
)
    requires
        is_top_queries(a, queries, sort_by, limit),
        is_top_queries(b, queries, sort_by, limit),
    ensures
        a == b,
{
    assert(a.len() == b.len());
    assert forall|i: int| 0 <= i < a.len() implies a[i] == b[i] by {
        lemma_rankings_agree(a, b, queries, sort_by, limit, i);
    }
    assert(a =~= b);
}

/// Two rankings of the same records agree at every place.
proof fn lemma_rankings_agree(
    a: Seq<QueryLogView>,
    b: Seq<QueryLogView>,
    queries: Map<u64, QueryLogView>,
    sort_by: QueriesSortBy,
    limit: nat,
    at: int,
)
    requires
        is_top_queries(a, queries, sort_by, limit),
        is_top_queries(b, queries, sort_by, limit),
        0 <= at < a.len(),
    ensures
        a[at] == b[at],
    decreases at,
{
    if at > 0 {
        lemma_rankings_agree(a, b, queries, sort_by, limit, at - 1);
    }
    assert forall|j: int| 0 <= j < at implies a[j] == b[j] by {
        lemma_rankings_agree(a, b, queries, sort_by, limit, j);
    }
    if a[at] != b[at] {
        let x = a[at];
        let y = b[at];
        assert(queries[x.normalized_query_hash] == x);
        assert(queries[y.normalized_query_hash] == y);
        assert(x.normalized_query_hash != y.normalized_query_hash);
        if query_ranks_before(x, y, sort_by) {
            lemma_not_later_in_ranking(b, a, queries, sort_by, limit, at);
        } else {
            assert(query_ranks_before(y, x, sort_by));
            lemma_not_later_in_ranking(a, b, queries, sort_by, limit, at);
        }
    }
}

/// Where two rankings agree before a place, the record that the second one
/// has at that place does not rank before the record that the first one has
/// there, unless the two are the same.
proof fn lemma_not_later_in_ranking(
    a: Seq<QueryLogView>,
    b: Seq<QueryLogView>,
    queries: Map<u64, QueryLogView>,
    sort_by: QueriesSortBy,
    limit: nat,
    at: int,
)
    requires
        is_top_queries(a, queries, sort_by, limit),
        is_top_queries(b, queries, sort_by, limit),
        0 <= at < a.len(),
        forall|j: int| 0 <= j < at ==> a[j] == b[j],
    ensures
        !query_ranks_before(b[at], a[at], sort_by),
{
    let x = b[at];
    let key = x.normalized_query_hash;
    assert(queries.contains_key(key) && queries[key] == x);
    assert(queries.dom().contains(key));
    if lists_query(a, key) {
        let j = choose|j: int| 0 <= j < a.len() && (#[trigger] a[j]).normalized_query_hash == key;
        assert(queries[a[j].normalized_query_hash] == a[j]);
        assert(a[j] == x);
        if j < at {
            assert(b[j] == x);
            assert(query_ranks_before(b[j], b[at], sort_by));
        } else if j > at {
            assert(query_ranks_before(a[at], a[j], sort_by));
        }
    } else {
        assert(query_ranks_before(a[at], queries[key], sort_by));
    }
}

/// A copy of a record.
pub(crate) fn duplicate_query(row: &QueryLog) -> (copy: QueryLog)
    ensures
        copy@ == row@,
{
    let copy = QueryLog {
        normalized_query_hash: row.normalized_query_hash,
        query: row.query.clone(),
        max_event_time: row.max_event_time,
        min_event_time: row.min_event_time,
        total_query_duration_ms: row.total_query_duration_ms,
        total_read_rows: row.total_read_rows,
        total_read_bytes: row.total_read_bytes,
        total_memory_usage: row.total_memory_usage,
        total_user_time_us: row.total_user_time_us,
        total_system_time_us: row.total_system_time_us,
        total_network_receive_bytes: row.total_network_receive_bytes,
        total_network_send_bytes: row.total_network_send_bytes,
        users: row.users.clone(),
        databases: row.databases.clone(),
        tables: row.tables.clone(),
        io_impact: row.io_impact,
        network_impact: row.network_impact,
        cpu_impact: row.cpu_impact,
        memory_impact: row.memory_impact,
        time_impact: row.time_impact,
        total_impact: row.total_impact,
    };
    assert(copy.users.deep_view() =~= row.users.deep_view());
    assert(copy.databases.deep_view() =~= row.databases.deep_view());
    assert(copy.tables.deep_view() =~= row.tables.deep_view());
    copy
}

/// The number of a record that `sort_by` selects.
fn score_of(row: &QueryLog, sort_by: QueriesSortBy) -> (score: u64)
    ensures
        score == row@.score(sort_by),
{
    match sort_by {
        QueriesSortBy::TotalImpact => row.total_impact,
        QueriesSortBy::IOImpact => row.io_impact,
        QueriesSortBy::CPUImpact => row.cpu_impact,
        QueriesSortBy::MemoryImpact => row.memory_impact,
        QueriesSortBy::TimeImpact => row.time_impact,
        QueriesSortBy::NetworkImpact => row.network_impact,
        QueriesSortBy::Duration => row.total_query_duration_ms,
        QueriesSortBy::ReadRows => row.total_read_rows,
        QueriesSortBy::ReadBytes => row.total_read_bytes,
        QueriesSortBy::MemoryUsage => row.total_memory_usage,
        QueriesSortBy::UserTime => row.total_user_time_us,
        QueriesSortBy::SystemTime => row.total_system_time_us,
        QueriesSortBy::NetworkReceived => row.total_network_receive_bytes,
        QueriesSortBy::NetworkSent => row.total_network_send_bytes,
    }
}

/// Whether `a` is listed before `b`.
fn ranks_before(a: &QueryLog, b: &QueryLog, sort_by: QueriesSortBy) -> (before: bool)
    ensures
        before == query_ranks_before(a@, b@, sort_by),
{
    let left = score_of(a, sort_by);
    let right = score_of(b, sort_by);
    left > right || (left == right && a.normalized_query_hash < b.normalized_query_hash)
}

/// Takes one more record into the head of a ranking.
pub(crate) fn place_query(
    top: &mut Vec<QueryLog>,
    row: &QueryLog,
    limit: usize,
    sort_by: QueriesSortBy,
    Ghost(queries): Ghost<Map<u64, QueryLogView>>,
    Ghost(seen): Ghost<Set<u64>>,
)
    requires
        is_top_queries_of(old(top).deep_view(), queries, seen, sort_by, limit as nat),
        !seen.contains(row.normalized_query_hash),
        queries.contains_key(row.normalized_query_hash),
        queries[row.normalized_query_hash] == row@,
    ensures
        is_top_queries_of(
            final(top).deep_view(),
            queries,
            seen.insert(row.normalized_query_hash),
            sort_by,
            limit as nat,
        ),
        final(top).len() == if old(top).len() < limit {
            old(top).len() + 1
        } else {
            old(top).len() as int
        },
{
    let ghost before = top.deep_view();
    let ghost key = row.normalized_query_hash;
    let mut at: usize = 0;
    while at < top.len() && ranks_before(&top[at], row, sort_by)
        invariant
            at <= top.len(),
            top.deep_view() == before,
            forall|i: int| 0 <= i < at ==> query_ranks_before(#[trigger] before[i], row@, sort_by),
        decreases top.len() - at,
    {
        at = at + 1;
    }
    assert forall|i: int| at <= i < before.len() implies query_ranks_before(
        row@,
        #[trigger] before[i],
        sort_by,
    ) by {
        assert(before[i].normalized_query_hash != key);
        assert(before[at as int].normalized_query_hash != key);
        if at < i {
            assert(query_ranks_before(before[at as int], before[i], sort_by));
        }
    }
    if at < limit {
        let copy = duplicate_query(row);
        top.insert(at, copy);
        let ghost longer = top.deep_view();
        assert(longer =~= before.insert(at as int, row@));
        if top.len() > limit {
            top.truncate(limit);
        }
        let ghost after = top.deep_view();
        assert(after =~= longer.take(after.len() as int));
        proof {
            assert(lists_query(after, key)) by {
                assert(after[at as int].normalized_query_hash == key);
            }
            assert forall|i: int| 0 <= i < after.len() implies {
                let k = (#[trigger] after[i]).normalized_query_hash;
                seen.insert(key).contains(k) && queries.contains_key(k) && queries[k] == after[i]
            } by {
                if i < at {
                    assert(after[i] == before[i]);
                } else if i > at {
                    assert(after[i] == before[i - 1]);
                }
            }
            assert forall|i: int, j: int| 0 <= i < j < after.len() implies query_ranks_before(
                #[trigger] after[i],
                #[trigger] after[j],
                sort_by,
            ) by {
                if j < at {
                    assert(after[i] == before[i] && after[j] == before[j]);
                } else if j == at {
                    assert(after[i] == before[i]);
                } else if i < at {
                    assert(after[i] == before[i] && after[j] == before[j - 1]);
                } else if i == at {
                    assert(after[j] == before[j - 1]);
                } else {
                    assert(after[i] == before[i - 1] && after[j] == before[j - 1]);
                }
            }
            assert forall|k: u64, i: int|
                #![trigger seen.insert(key).contains(k), after[i]]
                seen.insert(key).contains(k) && queries.contains_key(k) && !lists_query(after, k)
                    && 0 <= i < after.len() implies query_ranks_before(
                after[i],
                queries[k],
                sort_by,
            ) by {
                assert(k != key);
                assert(seen.contains(k));
                if lists_query(before, k) {
                    let w = choose|w: int|
                        0 <= w < before.len() && (#[trigger] before[w]).normalized_query_hash == k;
                    let moved = if w < at {
                        w
                    } else {
                        w + 1
                    };
                    assert(longer[moved] == before[w]);
                    if moved < after.len() {
                        assert(after[moved].normalized_query_hash == k);
                    }
                    assert(moved >= after.len());
                    assert(moved == limit);
                    assert(w == before.len() - 1);
                    assert(queries[k] == before[w]);
                    if i < at {
                        assert(after[i] == before[i]);
                    } else if i > at {
                        assert(after[i] == before[i - 1]);
                    }
                } else {
                    assert(before.len() == limit);
                    if i < at {
                        assert(after[i] == before[i]);
                        assert(query_ranks_before(before[i], queries[k], sort_by));
                    } else if i > at {
                        assert(after[i] == before[i - 1]);
                        assert(query_ranks_before(before[i - 1], queries[k], sort_by));
                    } else {
                        assert(query_ranks_before(row@, before[at as int], sort_by));
                        assert(query_ranks_before(before[at as int], queries[k], sort_by));
                    }
                }
            }
            if after.len() < limit {
                assert forall|k: u64|
                    #![trigger seen.insert(key).contains(k)]
                    seen.insert(key).contains(k) && queries.contains_key(k) implies lists_query(
                    after,
                    k,
                ) by {
                    if k != key {
                        assert(seen.contains(k));
                        assert(lists_query(before, k));
                        let w = choose|w: int|
                            0 <= w < before.len() && (#[trigger] before[w]).normalized_query_hash
                                == k;
                        let moved = if w < at {
                            w
                        } else {
                            w + 1
                        };
                        assert(after[moved] == before[w]);
                    }
                }
            }
        }
    } else {
        proof {
            assert(at == before.len() && before.len() == limit);
            assert forall|k: u64, i: int|
                #![trigger seen.insert(key).contains(k), before[i]]
                seen.insert(key).contains(k) && queries.contains_key(k) && !lists_query(before, k)
                    && 0 <= i < before.len() implies query_ranks_before(
                before[i],
                queries[k],
                sort_by,
            ) by {
                if k != key {
                    assert(seen.contains(k));
                }
            }
        }
    }
}

/// `a` is listed before `b`: it has the higher count, or the same count and
/// the lower code.
pub open spec fn error_ranks_before(a: ErrorView, b: ErrorView) -> bool {
    a.count > b.count || (a.count == b.count && a.code < b.code)
}

/// The list holds a record of the code `key`.
pub open spec fn lists_error(top: Seq<ErrorView>, key: i32) -> bool {
    exists|i: int| 0 <= i < top.len() && (#[trigger] top[i]).code == key
}

/// `top` is the head of the ranking of the records whose codes are in
/// `seen`: at most `limit` of these records, in ranking order, none of those
/// left out ranked before one that is listed, and none left out while there
/// is room.
pub open spec fn is_top_errors_of(
    top: Seq<ErrorView>,
    errors: Map<i32, ErrorView>,
    seen: Set<i32>,
    limit: nat,
) -> bool {
    &&& top.len() <= limit
    &&& forall|i: int|
        0 <= i < top.len() ==> {
            let key = (#[trigger] top[i]).code;
            seen.contains(key) && errors.contains_key(key) && errors[key] == top[i]
        }
    &&& forall|i: int, j: int|
        0 <= i < j < top.len() ==> error_ranks_before(#[trigger] top[i], #[trigger] top[j])
    &&& forall|k: i32, i: int|
        #![trigger seen.contains(k), top[i]]
        seen.contains(k) && errors.contains_key(k) && !lists_error(top, k) && 0 <= i < top.len()
            ==> error_ranks_before(top[i], errors[k])
    &&& top.len() < limit ==> forall|k: i32|
        #![trigger seen.contains(k)]
        seen.contains(k) && errors.contains_key(k) ==> lists_error(top, k)
}

/// `top` is the ranking of all records, cut off after `limit` of them.
pub open spec fn is_top_errors(
    top: Seq<ErrorView>,
    errors: Map<i32, ErrorView>,
    limit: nat,
) -> bool {
    &&& is_top_errors_of(top, errors, errors.dom(), limit)
    &&& top.len() == if limit <= errors.dom().len() {
        limit
    } else {
        errors.dom().len()
    }
}

/// There is one ranking only: two lists that are both the ranking of the
/// same records, cut off after the same number, are the same list.
pub proof fn lemma_top_errors_is_unique(
    a: Seq<ErrorView>,
    b: Seq<ErrorView>,
    errors: Map<i32, ErrorView>,
    limit: nat,
)
    requires
        is_top_errors(a, errors, limit),
        is_top_errors(b, errors, limit),
    ensures
        a == b,
{
    assert(a.len() == b.len());
    assert forall|i: int| 0 <= i < a.len() implies a[i] == b[i] by {
        lemma_error_rankings_agree(a, b, errors, limit, i);
    }
    assert(a =~= b);
}

/// Two rankings of the same records agree at every place.
proof fn lemma_error_rankings_agree(
    a: Seq<ErrorView>,
    b: Seq<ErrorView>,
    errors: Map<i32, ErrorView>,
    limit: nat,
    at: int,
)
    requires
        is_top_errors(a, errors, limit),
        is_top_errors(b, errors, limit),
        0 <= at < a.len(),
    ensures
        a[at] == b[at],
    decreases at,
{
    if at > 0 {
        lemma_error_rankings_agree(a, b, errors, limit, at - 1);
    }
    assert forall|j: int| 0 <= j < at implies a[j] == b[j] by {
        lemma_error_rankings_agree(a, b, errors, limit, j);
    }
    if a[at] != b[at] {
        let x = a[at];
        let y = b[at];
        assert(errors[x.code] == x);
        assert(errors[y.code] == y);
        assert(x.code != y.code);
        if error_ranks_before(x, y) {
            lemma_not_later_in_error_ranking(b, a, errors, limit, at);
        } else {
            assert(error_ranks_before(y, x));
            lemma_not_later_in_error_ranking(a, b, errors, limit, at);
        }
    }
}

/// Where two rankings agree before a place, the record that the second one
/// has at that place does not rank before the record that the first one has
/// there, unless the two are the same.
proof fn lemma_not_later_in_error_ranking(
    a: Seq<ErrorView>,
    b: Seq<ErrorView>,
    errors: Map<i32, ErrorView>,
    limit: nat,
    at: int,
)
    requires
        is_top_errors(a, errors, limit),
        is_top_errors(b, errors, limit),
        0 <= at < a.len(),
        forall|j: int| 0 <= j < at ==> a[j] == b[j],
    ensures
        !error_ranks_before(b[at], a[at]),
{
    let x = b[at];
    let key = x.code;
    assert(errors.contains_key(key) && errors[key] == x);
    assert(errors.dom().contains(key));
    if lists_error(a, key) {
        let j = choose|j: int| 0 <= j < a.len() && (#[trigger] a[j]).code == key;
        assert(errors[a[j].code] == a[j]);
        assert(a[j] == x);
        if j < at {
            assert(b[j] == x);
            assert(error_ranks_before(b[j], b[at]));
        } else if j > at {
            assert(error_ranks_before(a[at], a[j]));
        }
    } else {
        assert(error_ranks_before(a[at], errors[key]));
    }
}

/// A copy of a record.
pub(crate) fn duplicate_error(row: &Error) -> (copy: Error)
    ensures
        copy@ == row@,
{
    Error {
        code: row.code,
        name: row.name.clone(),
        count: row.count,
        last_error_time: row.last_error_time,
        error_message: row.error_message.clone(),
    }
}

/// Whether `a` is listed before `b`.
fn error_precedes(a: &Error, b: &Error) -> (before: bool)
    ensures
        before == error_ranks_before(a@, b@),
{
    a.count > b.count || (a.count == b.count && a.code < b.code)
}

/// Takes one more record into the head of a ranking.
pub(crate) fn place_error(
    top: &mut Vec<Error>,
    row: &Error,
    limit: usize,
    Ghost(errors): Ghost<Map<i32, ErrorView>>,
    Ghost(seen): Ghost<Set<i32>>,
)
    requires
        is_top_errors_of(old(top).deep_view(), errors, seen, limit as nat),
        !seen.contains(row.code),
        errors.contains_key(row.code),
        errors[row.code] == row@,
    ensures
        is_top_errors_of(
            final(top).deep_view(),
            errors,
            seen.insert(row.code),
            limit as nat,
        ),
        final(top).len() == if old(top).len() < limit {
            old(top).len() + 1
        } else {
            old(top).len() as int
        },
{
    let ghost before = top.deep_view();
    let ghost key = row.code;
    let mut at: usize = 0;
    while at < top.len() && error_precedes(&top[at], row)
        invariant
            at <= top.len(),
            top.deep_view() == before,
            forall|i: int| 0 <= i < at ==> error_ranks_before(#[trigger] before[i], row@),
        decreases top.len() - at,
    {
        at = at + 1;
    }
    assert forall|i: int| at <= i < before.len() implies error_ranks_before(
        row@,
        #[trigger] before[i],
    ) by {
        assert(before[i].code != key);
        assert(before[at as int].code != key);
        if at < i {
            assert(error_ranks_before(before[at as int], before[i]));
        }
    }
    if at < limit {
        let copy = duplicate_error(row);
        top.insert(at, copy);
        let ghost longer = top.deep_view();
        assert(longer =~= before.insert(at as int, row@));
        if top.len() > limit {
            top.truncate(limit);
        }
        let ghost after = top.deep_view();
        assert(after =~= longer.take(after.len() as int));
        proof {
            assert(lists_error(after, key)) by {
                assert(after[at as int].code == key);
            }
            assert forall|i: int| 0 <= i < after.len() implies {
                let k = (#[trigger] after[i]).code;
                seen.insert(key).contains(k) && errors.contains_key(k) && errors[k] == after[i]
            } by {
                if i < at {
                    assert(after[i] == before[i]);
                } else if i > at {
                    assert(after[i] == before[i - 1]);
                }
            }
            assert forall|i: int, j: int| 0 <= i < j < after.len() implies error_ranks_before(
                #[trigger] after[i],
                #[trigger] after[j],
            ) by {
                if j < at {
                    assert(after[i] == before[i] && after[j] == before[j]);
                } else if j == at {
                    assert(after[i] == before[i]);
                } else if i < at {
                    assert(after[i] == before[i] && after[j] == before[j - 1]);
                } else if i == at {
                    assert(after[j] == before[j - 1]);
                } else {
                    assert(after[i] == before[i - 1] && after[j] == before[j - 1]);
                }
            }
            assert forall|k: i32, i: int|
                #![trigger seen.insert(key).contains(k), after[i]]
                seen.insert(key).contains(k) && errors.contains_key(k) && !lists_error(after, k)
                    && 0 <= i < after.len() implies error_ranks_before(
                after[i],
                errors[k],
            ) by {
                assert(k != key);
                assert(seen.contains(k));
                if lists_error(before, k) {
                    let w = choose|w: int|
                        0 <= w < before.len() && (#[trigger] before[w]).code == k;
                    let moved = if w < at {
                        w
                    } else {
                        w + 1
                    };
                    assert(longer[moved] == before[w]);
                    if moved < after.len() {
                        assert(after[moved].code == k);
                    }
                    assert(moved >= after.len());
                    assert(moved == limit);
                    assert(w == before.len() - 1);
                    assert(errors[k] == before[w]);
                    if i < at {
                        assert(after[i] == before[i]);
                    } else if i > at {
                        assert(after[i] == before[i - 1]);
                    }
                } else {
                    assert(before.len() == limit);
                    if i < at {
                        assert(after[i] == before[i]);
                        assert(error_ranks_before(before[i], errors[k]));
                    } else if i > at {
                        assert(after[i] == before[i - 1]);
                        assert(error_ranks_before(before[i - 1], errors[k]));
                    } else {
                        assert(error_ranks_before(row@, before[at as int]));
                        assert(error_ranks_before(before[at as int], errors[k]));
                    }
                }
            }
            if after.len() < limit {
                assert forall|k: i32|
                    #![trigger seen.insert(key).contains(k)]
                    seen.insert(key).contains(k) && errors.contains_key(k) implies lists_error(
                    after,
                    k,
                ) by {
                    if k != key {
                        assert(seen.contains(k));
                        assert(lists_error(before, k));
                        let w = choose|w: int|
                            0 <= w < before.len() && (#[trigger] before[w]).code
                                == k;
                        let moved = if w < at {
                            w
                        } else {
                            w + 1
                        };
                        assert(after[moved] == before[w]);
                    }
                }
            }
        }
    } else {
        proof {
            assert(at == before.len() && before.len() == limit);
            assert forall|k: i32, i: int|
                #![trigger seen.insert(key).contains(k), before[i]]
                seen.insert(key).contains(k) && errors.contains_key(k) && !lists_error(before, k)
                    && 0 <= i < before.len() implies error_ranks_before(
                before[i],
                errors[k],
            ) by {
                if k != key {
                    assert(seen.contains(k));
                }
            }
        }
    }
}

} // verus!
