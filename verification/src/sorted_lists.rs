//! Sorted lists and sorted sets of texts, held by `starlark_map`.

use starlark_map::sorted_set::SortedSet;
use starlark_map::sorted_vec::SortedVec;
use vstd::prelude::*;
use vstd::string::*;
use crate::ordered::{
    dedup, law_dedup, law_sorted_set_of, lemma_text_lt_irreflexive, lemma_text_lt_total,
    lemma_text_lt_transitive, sorted_set, sorted_set_of, text_lt,
};
use crate::text::Text;

verus! {

/// The sorted list of `starlark_map`.
#[verifier::external_type_specification]
#[verifier::external_body]
#[verifier::reject_recursive_types(T)]
pub struct ExSortedVec<T>(SortedVec<T>);

/// The sorted set of `starlark_map`.
#[verifier::external_type_specification]
#[verifier::external_body]
#[verifier::reject_recursive_types(T)]
pub struct ExSortedSet<T: Eq + std::hash::Hash>(SortedSet<T>);

/// The items of a sorted list, in order.
pub uninterp spec fn sorted_vec_items(v: SortedVec<String>) -> Seq<Seq<char>>;

/// The items of a sorted set, in order.
pub uninterp spec fn sorted_set_items(s: SortedSet<String>) -> Seq<Seq<char>>;

/// No text comes before one that is smaller.
pub open spec fn in_order(items: Seq<Text>) -> bool {
    forall|i: int, j: int| 0 <= i < j < items.len() ==> !text_lt(#[trigger] items[j], #[trigger] items[i])
}

/// `SortedVec::from`: the same texts, in order.
#[verifier::external_body]
pub(crate) fn sorted_vec_from(items: Vec<String>) -> (r: SortedVec<String>)
    ensures
        in_order(sorted_vec_items(r)),
        sorted_vec_items(r).to_multiset() == items.deep_view().to_multiset(),
{
    SortedVec::from(items)
}

/// `SortedVec::iter`: the items in order.
#[verifier::external_body]
pub(crate) fn sorted_vec_entries<'a>(v: &'a SortedVec<String>) -> (r: Vec<&'a String>)
    ensures
        r.deep_view() == sorted_vec_items(*v),
{
    v.iter().collect()
}

/// `SortedSet::from` on a sorted list: the texts in the order of the list,
/// without those that stand earlier there.
#[verifier::external_body]
pub(crate) fn sorted_set_from(v: SortedVec<String>) -> (r: SortedSet<String>)
    ensures
        sorted_set_items(r) == dedup(sorted_vec_items(v)),
{
    SortedSet::from(v)
}

/// `SortedSet::iter`: the items in order.
#[verifier::external_body]
pub(crate) fn sorted_set_entries<'a>(s: &'a SortedSet<String>) -> (r: Vec<&'a String>)
    ensures
        r.deep_view() == sorted_set_items(*s),
{
    s.iter().collect()
}

/// `SortedSet::contains`: whether the text is among the items.
#[verifier::external_body]
pub(crate) fn sorted_set_contains(s: &SortedSet<String>, item: &str) -> (r: bool)
    ensures
        r == sorted_set_items(*s).contains(item@),
{
    s.contains(item)
}

/// What a list in order is without repetitions is the sorted set of its items.
pub proof fn law_sorted_list_set(list: Seq<Text>, items: Seq<Text>)
    requires
        in_order(list),
        list.to_multiset() == items.to_multiset(),
    ensures
        dedup(list) == sorted_set_of::<String>(items),
{
    law_dedup(list);
    law_sorted_set_of::<String>(items);
    lemma_dedup_in_order(list);
    broadcast use vstd::seq_lib::group_to_multiset_ensures;

    assert forall|x: Text| dedup(list).contains(x) == sorted_set_of::<String>(items).contains(
        x,
    ) by {
        assert(list.contains(x) <==> list.to_multiset().count(x) > 0);
        assert(items.contains(x) <==> items.to_multiset().count(x) > 0);
        assert(dedup(list).contains(x) <==> list.contains(x));
        assert(sorted_set_of::<String>(items).contains(x) <==> items.contains(x));
    }
    lemma_sorted_sets_equal(dedup(list), sorted_set_of::<String>(items));
}

proof fn lemma_dedup_in_order(list: Seq<Text>)
    requires
        in_order(list),
    ensures
        sorted_set::<String>(dedup(list)),
    decreases list.len(),
{
    if list.len() > 0 {
        let rest = list.drop_last();
        let last = list.last();
        let inner = dedup(rest);
        let out = dedup(list);
        assert(in_order(rest)) by {
            assert forall|i: int, j: int| 0 <= i < j < rest.len() implies !text_lt(
                #[trigger] rest[j],
                #[trigger] rest[i],
            ) by {
                assert(rest[i] == list[i] && rest[j] == list[j]);
            }
        }
        lemma_dedup_in_order(rest);
        law_dedup(rest);
        if !rest.contains(last) {
            assert forall|i: int, j: int|
                #![trigger out[i], out[j]]
                0 <= i < j < out.len() implies text_lt(out[i], out[j]) by {
                assert(out[i] == inner[i]);
                if j < inner.len() {
                    assert(out[j] == inner[j]);
                } else {
                    assert(inner.contains(inner[i]));
                    assert(rest.contains(inner[i]));
                    let k = choose|k: int| 0 <= k < rest.len() && rest[k] == inner[i];
                    assert(list[k] == inner[i] && list[list.len() - 1] == last);
                    assert(!text_lt(list[list.len() - 1], list[k]));
                    lemma_text_lt_total(inner[i], last);
                }
            }
        }
    }
}

/// Sets in increasing order that hold the same texts are the same.
pub proof fn lemma_sorted_sets_equal(a: Seq<Text>, b: Seq<Text>)
    requires
        sorted_set::<String>(a),
        sorted_set::<String>(b),
        forall|x: Text| a.contains(x) == b.contains(x),
    ensures
        a == b,
    decreases a.len(),
{
    if a.len() == 0 {
        if b.len() > 0 {
            assert(b.contains(b[0]));
            assert(a.contains(b[0]));
        }
        assert(a =~= b);
    } else {
        assert(a.contains(a[0]));
        assert(b.contains(a[0]));
        let i = choose|i: int| 0 <= i < b.len() && b[i] == a[0];
        assert(b.contains(b[0]));
        assert(a.contains(b[0]));
        let j = choose|j: int| 0 <= j < a.len() && a[j] == b[0];
        if i > 0 {
            assert(text_lt(b[0], b[i]));
            if j > 0 {
                assert(text_lt(a[0], a[j]));
                lemma_text_lt_transitive(a[0], b[0], a[0]);
            }
            lemma_text_lt_irreflexive(a[0]);
        }
        assert(a[0] == b[0]);
        let x = a.skip(1);
        let y = b.skip(1);
        assert(sorted_set::<String>(x)) by {
            assert forall|i: int, j: int|
                #![trigger x[i], x[j]]
                0 <= i < j < x.len() implies text_lt(x[i], x[j]) by {
                assert(x[i] == a[i + 1] && x[j] == a[j + 1]);
            }
        }
        assert(sorted_set::<String>(y)) by {
            assert forall|i: int, j: int|
                #![trigger y[i], y[j]]
                0 <= i < j < y.len() implies text_lt(y[i], y[j]) by {
                assert(y[i] == b[i + 1] && y[j] == b[j + 1]);
            }
        }
        assert forall|t: Text| x.contains(t) == y.contains(t) by {
            lemma_skip_contains(a, t);
            lemma_skip_contains(b, t);
            assert(a.contains(t) == b.contains(t));
        }
        lemma_sorted_sets_equal(x, y);
        assert(a =~= seq![a[0]] + x);
        assert(b =~= seq![b[0]] + y);
    }
}

proof fn lemma_skip_contains(a: Seq<Text>, t: Text)
    requires
        sorted_set::<String>(a),
        a.len() > 0,
    ensures
        a.skip(1).contains(t) == (a.contains(t) && t != a[0]),
{
    let x = a.skip(1);
    if x.contains(t) {
        let i = choose|i: int| 0 <= i < x.len() && x[i] == t;
        assert(a[i + 1] == t);
        assert(text_lt(a[0], a[i + 1]));
        lemma_text_lt_irreflexive(t);
    }
    if a.contains(t) && t != a[0] {
        let i = choose|i: int| 0 <= i < a.len() && a[i] == t;
        assert(x[i - 1] == t);
    }
}

} // verus!
