//! The order of texts and the lists of names that are kept in it.
//!
//! Texts are ordered as `str` orders them: character by character, a proper
//! prefix before the longer text. A list of names that was merged holds each
//! name once, in ascending order.

use vstd::prelude::*;
use vstd::relations::{sorted_by, total_ordering};
use vstd::seq_lib::lemma_sorted_unique;
use vstd::std_specs::iter::IteratorSpec;

verus! {

/// `a` comes before `b` in the order of texts, or equals it.
pub open spec fn text_le(a: Seq<char>, b: Seq<char>) -> bool
    decreases a.len(),
{
    if a.len() == 0 {
        true
    } else if b.len() == 0 {
        false
    } else if a[0] != b[0] {
        (a[0] as int) < (b[0] as int)
    } else {
        text_le(a.drop_first(), b.drop_first())
    }
}

/// The order of texts as a relation.
pub open spec fn text_order() -> spec_fn(Seq<char>, Seq<char>) -> bool {
    |a: Seq<char>, b: Seq<char>| text_le(a, b)
}

/// Each name comes strictly before the next one.
pub open spec fn strictly_ascending(names: Seq<Seq<char>>) -> bool {
    forall|i: int, j: int|
        0 <= i < j < names.len() ==> text_le(#[trigger] names[i], #[trigger] names[j]) && names[i]
            != names[j]
}

/// The names of a set, each once, in ascending order.
pub open spec fn sorted_names(names: Set<Seq<char>>) -> Seq<Seq<char>> {
    names.to_sorted_seq(text_order())
}

/// The names of two lists, each once, in ascending order.
pub open spec fn merged_names(a: Seq<Seq<char>>, b: Seq<Seq<char>>) -> Seq<Seq<char>> {
    sorted_names(a.to_set().union(b.to_set()))
}

proof fn lemma_text_le_reflexive(a: Seq<char>)
    ensures
        text_le(a, a),
    decreases a.len(),
{
    if a.len() > 0 {
        lemma_text_le_reflexive(a.drop_first());
    }
}

proof fn lemma_text_le_antisymmetric(a: Seq<char>, b: Seq<char>)
    requires
        text_le(a, b),
        text_le(b, a),
    ensures
        a == b,
    decreases a.len(),
{
    if a.len() == 0 || b.len() == 0 {
        assert(a =~= b);
    } else {
        lemma_text_le_antisymmetric(a.drop_first(), b.drop_first());
        assert(a =~= seq![a[0]] + a.drop_first());
        assert(b =~= seq![b[0]] + b.drop_first());
    }
}

proof fn lemma_text_le_transitive(a: Seq<char>, b: Seq<char>, c: Seq<char>)
    requires
        text_le(a, b),
        text_le(b, c),
    ensures
        text_le(a, c),
    decreases a.len(),
{
    if a.len() > 0 && a[0] == b[0] && b[0] == c[0] {
        lemma_text_le_transitive(a.drop_first(), b.drop_first(), c.drop_first());
    }
}

proof fn lemma_text_le_connected(a: Seq<char>, b: Seq<char>)
    ensures
        text_le(a, b) || text_le(b, a),
    decreases a.len(),
{
    if a.len() > 0 && b.len() > 0 {
        if a[0] == b[0] {
            lemma_text_le_connected(a.drop_first(), b.drop_first());
        }
    }
}

/// The order of texts is a total order.
pub proof fn lemma_text_order_is_total()
    ensures
        total_ordering(text_order()),
{
    let r = text_order();
    assert forall|x: Seq<char>| #[trigger] r(x, x) by {
        lemma_text_le_reflexive(x);
    }
    assert forall|x: Seq<char>, y: Seq<char>| #[trigger] r(x, y) && #[trigger] r(y, x) implies x
        == y by {
        lemma_text_le_antisymmetric(x, y);
    }
    assert forall|x: Seq<char>, y: Seq<char>, z: Seq<char>| #[trigger]
        r(x, y) && #[trigger] r(y, z) implies r(x, z) by {
        lemma_text_le_transitive(x, y, z);
    }
    assert forall|x: Seq<char>, y: Seq<char>| #[trigger] r(x, y) || #[trigger] r(y, x) by {
        lemma_text_le_connected(x, y);
    }
}

proof fn lemma_to_seq_no_duplicates(names: Set<Seq<char>>)
    requires
        names.finite(),
    ensures
        names.to_seq().no_duplicates(),
    decreases names.len(),
{
    broadcast use vstd::set::group_set_axioms;
    broadcast use vstd::seq_lib::group_seq_properties;

    if names.len() != 0 {
        let x = names.choose();
        let rest = names.remove(x).to_seq();
        lemma_to_seq_no_duplicates(names.remove(x));
        names.remove(x).lemma_to_seq_to_set_id();
        assert(!rest.to_set().contains(x));
        assert(!rest.contains(x));
        assert(names.to_seq() =~= Seq::<Seq<char>>::empty().push(x) + rest);
    }
}

proof fn lemma_same_names_same_multiset(a: Seq<Seq<char>>, b: Seq<Seq<char>>)
    requires
        a.no_duplicates(),
        b.no_duplicates(),
        a.to_set() == b.to_set(),
    ensures
        a.to_multiset() == b.to_multiset(),
{
    broadcast use vstd::seq_lib::group_to_multiset_ensures;
    broadcast use vstd::multiset::group_multiset_axioms;

    a.lemma_multiset_has_no_duplicates();
    b.lemma_multiset_has_no_duplicates();
    assert forall|x: Seq<char>| a.to_multiset().count(x) == b.to_multiset().count(x) by {
        assert(a.contains(x) <==> a.to_set().contains(x));
        assert(b.contains(x) <==> b.to_set().contains(x));
    }
    assert(a.to_multiset() =~= b.to_multiset());
}

/// The sorted names of a finite set are strictly ascending and are the
/// names of the set.
pub proof fn lemma_sorted_names(names: Set<Seq<char>>)
    requires
        names.finite(),
    ensures
        strictly_ascending(sorted_names(names)),
        sorted_names(names).to_set() == names,
{
    broadcast use vstd::seq_lib::group_to_multiset_ensures;
    broadcast use vstd::multiset::group_multiset_axioms;

    let listed = names.to_seq();
    let sorted = sorted_names(names);
    lemma_text_order_is_total();
    lemma_to_seq_no_duplicates(names);
    names.lemma_to_seq_to_set_id();
    listed.lemma_sort_by_ensures(text_order());
    listed.lemma_multiset_has_no_duplicates();
    sorted.lemma_multiset_has_no_duplicates_conv();
    assert forall|x: Seq<char>| sorted.to_set().contains(x) == names.contains(x) by {
        assert(sorted.contains(x) <==> sorted.to_multiset().count(x) > 0);
        assert(listed.contains(x) <==> listed.to_multiset().count(x) > 0);
        assert(listed.to_set().contains(x) <==> listed.contains(x));
    }
    assert(sorted.to_set() =~= names);
    assert forall|i: int, j: int| 0 <= i < j < sorted.len() implies text_le(
        #[trigger] sorted[i],
        #[trigger] sorted[j],
    ) && sorted[i] != sorted[j] by {
        assert(text_order()(sorted[i], sorted[j]));
    }
}

/// A strictly ascending list is the sorted list of its own names: no other
/// list holds the same names in ascending order.
pub proof fn lemma_strictly_ascending_is_sorted(names: Seq<Seq<char>>)
    requires
        strictly_ascending(names),
    ensures
        names == sorted_names(names.to_set()),
{
    broadcast use vstd::seq_lib::seq_to_set_is_finite;

    let sorted = sorted_names(names.to_set());
    lemma_text_order_is_total();
    lemma_sorted_names(names.to_set());
    assert(names.no_duplicates());
    assert(sorted.no_duplicates());
    lemma_same_names_same_multiset(names, sorted);
    assert(sorted_by(names, text_order())) by {
        assert forall|i: int, j: int| 0 <= i < j < names.len() implies #[trigger] text_order()(
            names[i],
            names[j],
        ) by {}
    }
    assert(sorted_by(sorted, text_order())) by {
        assert forall|i: int, j: int| 0 <= i < j < sorted.len() implies #[trigger] text_order()(
            sorted[i],
            sorted[j],
        ) by {}
    }
    lemma_sorted_unique(names, sorted, text_order());
}

/// The merged list holds exactly the names of the two lists, in strictly
/// ascending order.
pub proof fn lemma_merged_names(a: Seq<Seq<char>>, b: Seq<Seq<char>>)
    ensures
        strictly_ascending(merged_names(a, b)),
        merged_names(a, b).to_set() == a.to_set().union(b.to_set()),
{
    broadcast use vstd::seq_lib::seq_to_set_is_finite;

    lemma_sorted_names(a.to_set().union(b.to_set()));
}

/// A list that was put in order adds the same names to a merge as the list
/// it was made of.
pub proof fn lemma_merged_names_of_sorted(a: Seq<Seq<char>>, b: Seq<Seq<char>>)
    ensures
        merged_names(sorted_names(a.to_set()), b) == merged_names(a, b),
        merged_names(a, Seq::<Seq<char>>::empty()) == sorted_names(a.to_set()),
{
    broadcast use vstd::seq_lib::seq_to_set_is_finite;

    lemma_sorted_names(a.to_set());
    assert(a.to_set().union(Seq::<Seq<char>>::empty().to_set()) =~= a.to_set());
}

/// Merging lists of names does not depend on which list comes first.
pub proof fn lemma_merged_names_commute(a: Seq<Seq<char>>, b: Seq<Seq<char>>)
    ensures
        merged_names(a, b) == merged_names(b, a),
{
    assert(a.to_set().union(b.to_set()) =~= b.to_set().union(a.to_set()));
}

/// Merging three lists of names does not depend on which two are merged
/// first.
pub proof fn lemma_merged_names_associate(
    a: Seq<Seq<char>>,
    b: Seq<Seq<char>>,
    c: Seq<Seq<char>>,
)
    ensures
        merged_names(merged_names(a, b), c) == merged_names(a, merged_names(b, c)),
{
    lemma_merged_names(a, b);
    lemma_merged_names(b, c);
    assert(a.to_set().union(b.to_set()).union(c.to_set()) =~= a.to_set().union(
        b.to_set().union(c.to_set()),
    ));
}

/// Texts that agree on their first `n` characters are ordered as what
/// follows those characters is.
proof fn lemma_text_le_after_common_prefix(a: Seq<char>, b: Seq<char>, n: int)
    requires
        0 <= n <= a.len(),
        n <= b.len(),
        a.take(n) == b.take(n),
    ensures
        text_le(a, b) == text_le(a.skip(n), b.skip(n)),
        (a == b) == (a.skip(n) == b.skip(n)),
    decreases n,
{
    if n == 0 {
        assert(a.skip(0) =~= a);
        assert(b.skip(0) =~= b);
    } else {
        assert(a[0] == a.take(n)[0]);
        assert(b[0] == b.take(n)[0]);
        assert(a.drop_first().take(n - 1) =~= a.take(n).drop_first());
        assert(b.drop_first().take(n - 1) =~= b.take(n).drop_first());
        lemma_text_le_after_common_prefix(a.drop_first(), b.drop_first(), n - 1);
        assert(a.drop_first().skip(n - 1) =~= a.skip(n));
        assert(b.drop_first().skip(n - 1) =~= b.skip(n));
        assert(a =~= seq![a[0]] + a.drop_first());
        assert(b =~= seq![b[0]] + b.drop_first());
    }
}

/// Where one text stands to another in the order of texts.
#[derive(Clone, Copy, Debug, PartialEq, Eq, Structural)]
pub enum Standing {
    Before,
    Same,
    After,
}

/// Where `a` stands to `b` in the order of texts.
pub open spec fn standing(a: Seq<char>, b: Seq<char>) -> Standing {
    if a == b {
        Standing::Same
    } else if text_le(a, b) {
        Standing::Before
    } else {
        Standing::After
    }
}

/// Finds where `a` stands to `b` in the order of texts.
pub fn compare_texts(a: &str, b: &str) -> (found: Standing)
    ensures
        found == standing(a@, b@),
{
    let mut left = a.chars();
    let mut right = b.chars();
    let ghost mut n: int = 0;
    assert(a@.skip(0) =~= a@);
    assert(b@.skip(0) =~= b@);
    assert(a@.take(0) =~= b@.take(0));
    loop
        invariant
            0 <= n <= a@.len(),
            n <= b@.len(),
            left.remaining() == a@.skip(n),
            right.remaining() == b@.skip(n),
            a@.take(n) == b@.take(n),
        decreases a@.len() - n,
    {
        proof {
            lemma_text_le_after_common_prefix(a@, b@, n);
        }
        let x = left.next();
        let y = right.next();
        match (x, y) {
            (None, None) => {
                assert(a@.skip(n) =~= b@.skip(n));
                return Standing::Same;
            },
            (None, Some(_)) => {
                return Standing::Before;
            },
            (Some(_), None) => {
                return Standing::After;
            },
            (Some(c), Some(d)) => {
                if c != d {
                    return if c < d {
                        Standing::Before
                    } else {
                        Standing::After
                    };
                }
                proof {
                    assert(a@.take(n + 1) =~= a@.take(n).push(a@[n]));
                    assert(b@.take(n + 1) =~= b@.take(n).push(b@[n]));
                    assert(a@.skip(n).drop_first() =~= a@.skip(n + 1));
                    assert(b@.skip(n).drop_first() =~= b@.skip(n + 1));
                    n = n + 1;
                }
            },
        }
    }
}

/// Whether `a` comes strictly before `b` in the order of texts.
pub fn text_precedes(a: &str, b: &str) -> (before: bool)
    ensures
        before == (text_le(a@, b@) && a@ != b@),
{
    match compare_texts(a, b) {
        Standing::Before => true,
        _ => false,
    }
}

/// Whether two texts are the same.
pub fn same_text(a: &str, b: &str) -> (same: bool)
    ensures
        same == (a@ == b@),
{
    match compare_texts(a, b) {
        Standing::Same => true,
        _ => false,
    }
}

} // verus!
