//! Maps and sets kept in the order of their keys.
//!
//! The model of a map is the sequence of its entries in key order; lookups and
//! insertions are spec functions on that sequence.

use vstd::prelude::*;
use crate::text::{Text, chars_of, same};

verus! {

/// Copies a value: the copy has the same model.
pub trait Duplicate: DeepView + Sized {
    fn duplicate(&self) -> (r: Self)
        ensures
            r.deep_view() == self.deep_view(),
    ;
}

impl Duplicate for String {
    fn duplicate(&self) -> (r: Self) {
        self.clone()
    }
}

impl Duplicate for bool {
    fn duplicate(&self) -> (r: Self) {
        *self
    }
}

impl Duplicate for u32 {
    fn duplicate(&self) -> (r: Self) {
        *self
    }
}

impl Duplicate for u128 {
    fn duplicate(&self) -> (r: Self) {
        *self
    }
}

impl Duplicate for usize {
    fn duplicate(&self) -> (r: Self) {
        *self
    }
}

impl<T: Duplicate> Duplicate for Option<T> {
    fn duplicate(&self) -> (r: Self) {
        match self {
            Some(v) => Some(v.duplicate()),
            None => None,
        }
    }
}

impl<A: Duplicate, B: Duplicate> Duplicate for (A, B) {
    fn duplicate(&self) -> (r: Self) {
        (self.0.duplicate(), self.1.duplicate())
    }
}

impl<A: Duplicate, B: Duplicate, C: Duplicate> Duplicate for (A, B, C) {
    fn duplicate(&self) -> (r: Self) {
        (self.0.duplicate(), self.1.duplicate(), self.2.duplicate())
    }
}

impl<T: Duplicate> Duplicate for Vec<T> {
    fn duplicate(&self) -> (r: Self) {
        let mut out: Vec<T> = Vec::new();
        let mut i: usize = 0;
        while i < self.len()
            invariant
                0 <= i <= self@.len(),
                out.deep_view() =~= self.deep_view().take(i as int),
            decreases self.len() - i,
        {
            let ghost before = out.deep_view();
            out.push(self[i].duplicate());
            assert(out.deep_view() =~= before.push(self.deep_view()[i as int]));
            i += 1;
        }
        assert(self.deep_view().take(i as int) =~= self.deep_view());
        out
    }
}

/// `a` comes before `b` in dictionary order, characters by code point.
pub open spec fn text_lt(a: Text, b: Text) -> bool
    decreases a.len(),
{
    if b.len() == 0 {
        false
    } else if a.len() == 0 {
        true
    } else if a[0] == b[0] {
        text_lt(a.skip(1), b.skip(1))
    } else {
        a[0] < b[0]
    }
}

pub proof fn lemma_text_lt_irreflexive(a: Text)
    ensures
        !text_lt(a, a),
    decreases a.len(),
{
    if a.len() > 0 {
        lemma_text_lt_irreflexive(a.skip(1));
    }
}

pub proof fn lemma_text_lt_transitive(a: Text, b: Text, c: Text)
    requires
        text_lt(a, b),
        text_lt(b, c),
    ensures
        text_lt(a, c),
    decreases a.len(),
{
    if a.len() > 0 && a[0] == b[0] && b[0] == c[0] {
        lemma_text_lt_transitive(a.skip(1), b.skip(1), c.skip(1));
    }
}

pub proof fn lemma_text_lt_total(a: Text, b: Text)
    ensures
        a == b || text_lt(a, b) || text_lt(b, a),
    decreases a.len(),
{
    if a.len() > 0 && b.len() > 0 && a[0] == b[0] {
        lemma_text_lt_total(a.skip(1), b.skip(1));
        if a.skip(1) == b.skip(1) {
            assert(a =~= seq![a[0]] + a.skip(1));
            assert(b =~= seq![b[0]] + b.skip(1));
        }
    } else if a.len() == 0 && b.len() == 0 {
        assert(a =~= b);
    }
}

/// Whether `a` comes before `b` in dictionary order.
pub fn text_less(a: &str, b: &str) -> (r: bool)
    ensures
        r == text_lt(a@, b@),
{
    let v = chars_of(a);
    let w = chars_of(b);
    let mut i: usize = 0;
    assert(a@.skip(0) =~= a@ && b@.skip(0) =~= b@);
    while i < v.len() && i < w.len()
        invariant
            v@ == a@,
            w@ == b@,
            0 <= i <= v@.len(),
            i <= w@.len(),
            text_lt(a@, b@) == text_lt(a@.skip(i as int), b@.skip(i as int)),
        decreases v.len() - i,
    {
        if v[i] != w[i] {
            return v[i] < w[i];
        }
        assert(a@.skip(i as int).skip(1) =~= a@.skip(i + 1));
        assert(b@.skip(i as int).skip(1) =~= b@.skip(i + 1));
        i += 1;
    }
    i < w.len()
}

/// A key with a strict total order on its model.
pub trait OrderedKey: Duplicate {
    spec fn key_lt(a: Self::V, b: Self::V) -> bool;

    proof fn key_lt_irreflexive(a: Self::V)
        ensures
            !Self::key_lt(a, a),
    ;

    proof fn key_lt_transitive(a: Self::V, b: Self::V, c: Self::V)
        requires
            Self::key_lt(a, b),
            Self::key_lt(b, c) || b == c,
        ensures
            Self::key_lt(a, c),
    ;

    proof fn key_lt_total(a: Self::V, b: Self::V)
        ensures
            a == b || Self::key_lt(a, b) || Self::key_lt(b, a),
    ;

    fn precedes(&self, other: &Self) -> (r: bool)
        ensures
            r == Self::key_lt(self.deep_view(), other.deep_view()),
    ;

    fn same_key(&self, other: &Self) -> (r: bool)
        ensures
            r == (self.deep_view() == other.deep_view()),
    ;
}

impl OrderedKey for String {
    open spec fn key_lt(a: Text, b: Text) -> bool {
        text_lt(a, b)
    }

    proof fn key_lt_irreflexive(a: Text) {
        lemma_text_lt_irreflexive(a);
    }

    proof fn key_lt_transitive(a: Text, b: Text, c: Text) {
        if b != c {
            lemma_text_lt_transitive(a, b, c);
        }
    }

    proof fn key_lt_total(a: Text, b: Text) {
        lemma_text_lt_total(a, b);
    }

    fn precedes(&self, other: &Self) -> (r: bool) {
        text_less(self.as_str(), other.as_str())
    }

    fn same_key(&self, other: &Self) -> (r: bool) {
        same(self.as_str(), other.as_str())
    }
}

impl OrderedKey for u128 {
    open spec fn key_lt(a: u128, b: u128) -> bool {
        a < b
    }

    proof fn key_lt_irreflexive(a: u128) {
    }

    proof fn key_lt_transitive(a: u128, b: u128, c: u128) {
    }

    proof fn key_lt_total(a: u128, b: u128) {
    }

    fn precedes(&self, other: &Self) -> (r: bool) {
        *self < *other
    }

    fn same_key(&self, other: &Self) -> (r: bool) {
        *self == *other
    }
}

impl OrderedKey for bool {
    open spec fn key_lt(a: bool, b: bool) -> bool {
        !a && b
    }

    proof fn key_lt_irreflexive(a: bool) {
    }

    proof fn key_lt_transitive(a: bool, b: bool, c: bool) {
    }

    proof fn key_lt_total(a: bool, b: bool) {
    }

    fn precedes(&self, other: &Self) -> (r: bool) {
        !*self && *other
    }

    fn same_key(&self, other: &Self) -> (r: bool) {
        *self == *other
    }
}

impl<A: OrderedKey, B: OrderedKey> OrderedKey for (A, B) {
    open spec fn key_lt(a: (A::V, B::V), b: (A::V, B::V)) -> bool {
        A::key_lt(a.0, b.0) || (a.0 == b.0 && B::key_lt(a.1, b.1))
    }

    proof fn key_lt_irreflexive(a: (A::V, B::V)) {
        A::key_lt_irreflexive(a.0);
        B::key_lt_irreflexive(a.1);
    }

    proof fn key_lt_transitive(a: (A::V, B::V), b: (A::V, B::V), c: (A::V, B::V)) {
        if A::key_lt(a.0, b.0) && A::key_lt(b.0, c.0) {
            A::key_lt_transitive(a.0, b.0, c.0);
        }
        if B::key_lt(a.1, b.1) && B::key_lt(b.1, c.1) {
            B::key_lt_transitive(a.1, b.1, c.1);
        }
    }

    proof fn key_lt_total(a: (A::V, B::V), b: (A::V, B::V)) {
        A::key_lt_total(a.0, b.0);
        B::key_lt_total(a.1, b.1);
    }

    fn precedes(&self, other: &Self) -> (r: bool) {
        if self.0.precedes(&other.0) {
            true
        } else {
            self.0.same_key(&other.0) && self.1.precedes(&other.1)
        }
    }

    fn same_key(&self, other: &Self) -> (r: bool) {
        self.0.same_key(&other.0) && self.1.same_key(&other.1)
    }
}

/// `a` comes before `b` in dictionary order of their items.
pub open spec fn seq_lt<T: OrderedKey>(a: Seq<T::V>, b: Seq<T::V>) -> bool
    decreases a.len(),
{
    if b.len() == 0 {
        false
    } else if a.len() == 0 {
        true
    } else if a[0] == b[0] {
        seq_lt::<T>(a.skip(1), b.skip(1))
    } else {
        T::key_lt(a[0], b[0])
    }
}

impl<T: OrderedKey> OrderedKey for Vec<T> {
    open spec fn key_lt(a: Seq<T::V>, b: Seq<T::V>) -> bool {
        seq_lt::<T>(a, b)
    }

    proof fn key_lt_irreflexive(a: Seq<T::V>)
        decreases a.len(),
    {
        if a.len() > 0 {
            Self::key_lt_irreflexive(a.skip(1));
        }
    }

    proof fn key_lt_transitive(a: Seq<T::V>, b: Seq<T::V>, c: Seq<T::V>)
        decreases a.len(),
    {
        if a.len() > 0 && b != c {
            if a[0] == b[0] && b[0] == c[0] {
                Self::key_lt_transitive(a.skip(1), b.skip(1), c.skip(1));
            } else if a[0] != b[0] && b[0] != c[0] {
                T::key_lt_transitive(a[0], b[0], c[0]);
                if a[0] == c[0] {
                    T::key_lt_irreflexive(a[0]);
                }
            }
        }
    }

    proof fn key_lt_total(a: Seq<T::V>, b: Seq<T::V>)
        decreases a.len(),
    {
        if a.len() > 0 && b.len() > 0 {
            if a[0] == b[0] {
                Self::key_lt_total(a.skip(1), b.skip(1));
                if a.skip(1) == b.skip(1) {
                    assert(a =~= seq![a[0]] + a.skip(1));
                    assert(b =~= seq![b[0]] + b.skip(1));
                }
            } else {
                T::key_lt_total(a[0], b[0]);
            }
        } else if a.len() == 0 && b.len() == 0 {
            assert(a =~= b);
        }
    }

    fn precedes(&self, other: &Self) -> (r: bool) {
        let ghost a = self.deep_view();
        let ghost b = other.deep_view();
        let mut i: usize = 0;
        assert(a.skip(0) =~= a && b.skip(0) =~= b);
        while i < self.len() && i < other.len()
            invariant
                a == self.deep_view(),
                b == other.deep_view(),
                0 <= i <= self@.len(),
                i <= other@.len(),
                seq_lt::<T>(a, b) == seq_lt::<T>(a.skip(i as int), b.skip(i as int)),
            decreases self.len() - i,
        {
            assert(a.skip(i as int)[0] == self@[i as int].deep_view());
            assert(b.skip(i as int)[0] == other@[i as int].deep_view());
            if !self[i].same_key(&other[i]) {
                return self[i].precedes(&other[i]);
            }
            assert(a.skip(i as int).skip(1) =~= a.skip(i + 1));
            assert(b.skip(i as int).skip(1) =~= b.skip(i + 1));
            i += 1;
        }
        i < other.len()
    }

    fn same_key(&self, other: &Self) -> (r: bool) {
        let ghost a = self.deep_view();
        let ghost b = other.deep_view();
        if self.len() != other.len() {
            assert(a.len() != b.len());
            return false;
        }
        let mut i: usize = 0;
        while i < self.len()
            invariant
                a == self.deep_view(),
                b == other.deep_view(),
                self@.len() == other@.len(),
                0 <= i <= self@.len(),
                forall|j: int| 0 <= j < i ==> a[j] == b[j],
            decreases self.len() - i,
        {
            assert(a[i as int] == self@[i as int].deep_view());
            assert(b[i as int] == other@[i as int].deep_view());
            if !self[i].same_key(&other[i]) {
                return false;
            }
            i += 1;
        }
        assert(a =~= b);
        true
    }
}

/// The value under key `k`.
pub open spec fn lookup<K, V>(items: Seq<(K, V)>, k: K) -> Option<V>
    decreases items.len(),
{
    if items.len() == 0 {
        None
    } else if items[0].0 == k {
        Some(items[0].1)
    } else {
        lookup(items.skip(1), k)
    }
}

/// The entries with `v` under key `k`: in place of the entry with that key, or
/// before the first greater key.
pub open spec fn put<K: OrderedKey, V>(items: Seq<(K::V, V)>, k: K::V, v: V) -> Seq<(K::V, V)>
    decreases items.len(),
{
    if items.len() == 0 {
        seq![(k, v)]
    } else if items[0].0 == k {
        seq![(k, v)] + items.skip(1)
    } else if K::key_lt(k, items[0].0) {
        seq![(k, v)] + items
    } else {
        seq![items[0]] + put::<K, V>(items.skip(1), k, v)
    }
}

/// The items with `k` among them: before the first greater one where it is new.
pub open spec fn set_put<K: OrderedKey>(items: Seq<K::V>, k: K::V) -> Seq<K::V>
    decreases items.len(),
{
    if items.len() == 0 {
        seq![k]
    } else if items[0] == k {
        items
    } else if K::key_lt(k, items[0]) {
        seq![k] + items
    } else {
        seq![items[0]] + set_put::<K>(items.skip(1), k)
    }
}

/// The keys stand in increasing order, so none stands twice.
pub open spec fn sorted_items<K: OrderedKey, V>(items: Seq<(K::V, V)>) -> bool {
    forall|i: int, j: int|
        #![trigger items[i], items[j]]
        0 <= i < j < items.len() ==> K::key_lt(items[i].0, items[j].0)
}

/// The items stand in increasing order, so none stands twice.
pub open spec fn sorted_set<K: OrderedKey>(items: Seq<K::V>) -> bool {
    forall|i: int, j: int|
        #![trigger items[i], items[j]]
        0 <= i < j < items.len() ==> K::key_lt(items[i], items[j])
}

/// What a lookup gives after an insertion: the new value under its key, the
/// former value under any other.
pub proof fn law_lookup_after_put<K: OrderedKey, V>(items: Seq<(K::V, V)>, k: K::V, v: V, q: K::V)
    requires
        sorted_items::<K, V>(items),
    ensures
        lookup(put::<K, V>(items, k, v), q) == (if q == k {
            Some(v)
        } else {
            lookup(items, q)
        }),
    decreases items.len(),
{
    let out = put::<K, V>(items, k, v);
    if items.len() == 0 {
        assert(out.skip(1) =~= items);
    } else if items[0].0 == k {
        assert(out.skip(1) =~= items.skip(1));
        if q == k {
        } else {
            assert(lookup(items, q) == lookup(items.skip(1), q));
        }
    } else if K::key_lt(k, items[0].0) {
        assert(out.skip(1) =~= items);
    } else {
        assert(out.skip(1) =~= put::<K, V>(items.skip(1), k, v));
        law_lookup_after_put::<K, V>(items.skip(1), k, v, q);
    }
}

/// Insertion keeps the keys in increasing order.
pub proof fn law_put_sorted<K: OrderedKey, V>(items: Seq<(K::V, V)>, k: K::V, v: V)
    requires
        sorted_items::<K, V>(items),
    ensures
        sorted_items::<K, V>(put::<K, V>(items, k, v)),
        forall|i: int|
            #![trigger put::<K, V>(items, k, v)[i]]
            0 <= i < put::<K, V>(items, k, v).len() ==> put::<K, V>(items, k, v)[i].0 == k || exists|
                j: int,
            |
                0 <= j < items.len() && items[j].0 == put::<K, V>(items, k, v)[i].0,
    decreases items.len(),
{
    let out = put::<K, V>(items, k, v);
    if items.len() == 0 {
    } else if items[0].0 == k {
        assert forall|i: int, j: int|
            #![trigger out[i], out[j]]
            0 <= i < j < out.len() implies K::key_lt(out[i].0, out[j].0) by {
            assert(items[i].0 == out[i].0 && items[j].0 == out[j].0);
        }
        assert forall|i: int| 0 <= i < out.len() implies (#[trigger] out[i]).0 == k || exists|j: int|
            0 <= j < items.len() && items[j].0 == out[i].0 by {
            assert(items[i].0 == out[i].0);
        }
    } else if K::key_lt(k, items[0].0) {
        assert forall|i: int, j: int|
            #![trigger out[i], out[j]]
            0 <= i < j < out.len() implies K::key_lt(out[i].0, out[j].0) by {
            assert(out[j] == items[j - 1]);
            if i == 0 {
                if j > 1 {
                    assert(K::key_lt(items[0].0, items[j - 1].0));
                    K::key_lt_transitive(k, items[0].0, items[j - 1].0);
                }
            } else {
                assert(out[i] == items[i - 1]);
            }
        }
        assert forall|i: int| 0 <= i < out.len() implies (#[trigger] out[i]).0 == k || exists|j: int|
            0 <= j < items.len() && items[j].0 == out[i].0 by {
            if i > 0 {
                assert(items[i - 1].0 == out[i].0);
            }
        }
    } else {
        K::key_lt_total(k, items[0].0);
        let rest = items.skip(1);
        let tail = put::<K, V>(rest, k, v);
        law_put_sorted::<K, V>(rest, k, v);
        assert forall|i: int| 0 <= i < out.len() implies (#[trigger] out[i]).0 == k || exists|j: int|
            0 <= j < items.len() && items[j].0 == out[i].0 by {
            if i == 0 {
                assert(items[0].0 == out[i].0);
            } else {
                assert(out[i] == tail[i - 1]);
                if tail[i - 1].0 != k {
                    let j = choose|j: int| 0 <= j < rest.len() && rest[j].0 == tail[i - 1].0;
                    assert(items[j + 1].0 == out[i].0);
                }
            }
        }
        assert forall|i: int, j: int|
            #![trigger out[i], out[j]]
            0 <= i < j < out.len() implies K::key_lt(out[i].0, out[j].0) by {
            assert(out[j] == tail[j - 1]);
            if i == 0 {
                if tail[j - 1].0 != k {
                    let m = choose|m: int| 0 <= m < rest.len() && rest[m].0 == tail[j - 1].0;
                    assert(items[m + 1] == rest[m]);
                    assert(K::key_lt(items[0].0, items[m + 1].0));
                }
            } else {
                assert(out[i] == tail[i - 1]);
            }
        }
    }
}

/// A set after an insertion holds the new item and what it held before.
pub proof fn law_set_put_contains<K: OrderedKey>(items: Seq<K::V>, k: K::V, q: K::V)
    ensures
        set_put::<K>(items, k).contains(q) == (q == k || items.contains(q)),
    decreases items.len(),
{
    let out = set_put::<K>(items, k);
    if items.len() == 0 {
        if q == k {
            assert(out[0] == q);
        }
    } else if items[0] == k {
        if q == k {
            assert(items[0] == q);
        }
    } else if K::key_lt(k, items[0]) {
        if q == k {
            assert(out[0] == q);
        }
        if items.contains(q) {
            let i = choose|i: int| 0 <= i < items.len() && items[i] == q;
            assert(out[i + 1] == q);
        }
        if out.contains(q) && q != k {
            let i = choose|i: int| 0 <= i < out.len() && out[i] == q;
            assert(items[i - 1] == q);
        }
    } else {
        let rest = items.skip(1);
        let tail = set_put::<K>(rest, k);
        law_set_put_contains::<K>(rest, k, q);
        if items.contains(q) {
            let i = choose|i: int| 0 <= i < items.len() && items[i] == q;
            if i == 0 {
                assert(out[0] == q);
            } else {
                assert(rest[i - 1] == q);
            }
        }
        if tail.contains(q) {
            let i = choose|i: int| 0 <= i < tail.len() && tail[i] == q;
            assert(out[i + 1] == q);
        }
        if out.contains(q) {
            let i = choose|i: int| 0 <= i < out.len() && out[i] == q;
            if i == 0 {
                assert(items[0] == q);
            } else {
                assert(tail[i - 1] == q);
                if rest.contains(q) {
                    let j = choose|j: int| 0 <= j < rest.len() && rest[j] == q;
                    assert(items[j + 1] == q);
                }
            }
        }
    }
}

/// Insertion keeps a set's items in increasing order.
pub proof fn law_set_put_sorted<K: OrderedKey>(items: Seq<K::V>, k: K::V)
    requires
        sorted_set::<K>(items),
    ensures
        sorted_set::<K>(set_put::<K>(items, k)),
    decreases items.len(),
{
    let out = set_put::<K>(items, k);
    if items.len() == 0 || items[0] == k {
    } else if K::key_lt(k, items[0]) {
        assert forall|i: int, j: int|
            #![trigger out[i], out[j]]
            0 <= i < j < out.len() implies K::key_lt(out[i], out[j]) by {
            assert(out[j] == items[j - 1]);
            if i == 0 {
                if j > 1 {
                    assert(K::key_lt(items[0], items[j - 1]));
                    K::key_lt_transitive(k, items[0], items[j - 1]);
                }
            } else {
                assert(out[i] == items[i - 1]);
            }
        }
    } else {
        K::key_lt_total(k, items[0]);
        let rest = items.skip(1);
        let tail = set_put::<K>(rest, k);
        law_set_put_sorted::<K>(rest, k);
        assert forall|i: int, j: int|
            #![trigger out[i], out[j]]
            0 <= i < j < out.len() implies K::key_lt(out[i], out[j]) by {
            assert(out[j] == tail[j - 1]);
            if i == 0 {
                law_set_put_contains::<K>(rest, k, tail[j - 1]);
                assert(tail.contains(tail[j - 1]));
                if tail[j - 1] != k {
                    let m = choose|m: int| 0 <= m < rest.len() && rest[m] == tail[j - 1];
                    assert(items[m + 1] == rest[m]);
                    assert(K::key_lt(items[0], items[m + 1]));
                }
            } else {
                assert(out[i] == tail[i - 1]);
            }
        }
    }
}

/// The entry behind those with the same or a smaller key.
pub open spec fn insert_stable<K: OrderedKey, V>(items: Seq<(K::V, V)>, e: (K::V, V)) -> Seq<
    (K::V, V),
>
    decreases items.len(),
{
    if items.len() > 0 && K::key_lt(e.0, items.last().0) {
        insert_stable::<K, V>(items.drop_last(), e).push(items.last())
    } else {
        items.push(e)
    }
}

/// The entries in the order of their keys; those with the same key keep their
/// order.
pub open spec fn stable_sort<K: OrderedKey, V>(items: Seq<(K::V, V)>) -> Seq<(K::V, V)>
    decreases items.len(),
{
    if items.len() == 0 {
        items
    } else {
        insert_stable::<K, V>(stable_sort::<K, V>(items.drop_last()), items.last())
    }
}

/// No entry stands before one with a smaller key.
pub open spec fn in_key_order<K: OrderedKey, V>(items: Seq<(K::V, V)>) -> bool {
    forall|i: int, j: int|
        #![trigger items[i], items[j]]
        0 <= i < j < items.len() ==> !K::key_lt(items[j].0, items[i].0)
}

proof fn lemma_insert_stable<K: OrderedKey, V>(items: Seq<(K::V, V)>, e: (K::V, V))
    requires
        in_key_order::<K, V>(items),
    ensures
        in_key_order::<K, V>(insert_stable::<K, V>(items, e)),
        insert_stable::<K, V>(items, e).to_multiset() =~= items.to_multiset().insert(e),
        insert_stable::<K, V>(items, e).len() == items.len() + 1,
        forall|i: int|
            #![trigger insert_stable::<K, V>(items, e)[i]]
            0 <= i <= items.len() ==> insert_stable::<K, V>(items, e)[i] == e || exists|j: int|
                0 <= j < items.len() && items[j] == insert_stable::<K, V>(items, e)[i],
    decreases items.len(),
{
    broadcast use vstd::seq_lib::group_to_multiset_ensures;

    let out = insert_stable::<K, V>(items, e);
    if items.len() > 0 && K::key_lt(e.0, items.last().0) {
        let rest = items.drop_last();
        let inner = insert_stable::<K, V>(rest, e);
        lemma_insert_stable::<K, V>(rest, e);
        assert(rest.push(items.last()) =~= items);
        assert(out.to_multiset() =~= inner.to_multiset().insert(items.last()));
        assert forall|i: int| 0 <= i <= items.len() implies #[trigger] out[i] == e || exists|j: int|
            0 <= j < items.len() && items[j] == out[i] by {
            if i < inner.len() {
                assert(out[i] == inner[i]);
                if inner[i] != e {
                    let j = choose|j: int| 0 <= j < rest.len() && rest[j] == inner[i];
                    assert(items[j] == out[i]);
                }
            } else {
                assert(items[items.len() - 1] == out[i]);
            }
        }
        assert forall|i: int, j: int|
            #![trigger out[i], out[j]]
            0 <= i < j < out.len() implies !K::key_lt(out[j].0, out[i].0) by {
            assert(out[i] == inner[i]);
            if j < inner.len() {
                assert(out[j] == inner[j]);
            } else if K::key_lt(out[j].0, out[i].0) {
                if inner[i] == e {
                    K::key_lt_transitive(e.0, items.last().0, e.0);
                    K::key_lt_irreflexive(e.0);
                } else {
                    let k = choose|k: int| 0 <= k < rest.len() && rest[k] == inner[i];
                    assert(items[k] == inner[i]);
                    assert(items[items.len() - 1] == out[j]);
                }
            }
        }
    } else {
        assert(out =~= items.push(e));
        assert forall|i: int, j: int|
            #![trigger out[i], out[j]]
            0 <= i < j < out.len() implies !K::key_lt(out[j].0, out[i].0) by {
            assert(out[i] == items[i]);
            if j == items.len() && K::key_lt(e.0, items[i].0) && i < items.len() - 1 {
                assert(!K::key_lt(items[items.len() - 1].0, items[i].0));
                K::key_lt_total(items[i].0, items[items.len() - 1].0);
                if K::key_lt(items[i].0, items[items.len() - 1].0) {
                    K::key_lt_transitive(e.0, items[i].0, items[items.len() - 1].0);
                }
            }
        }
        assert forall|i: int| 0 <= i <= items.len() implies #[trigger] out[i] == e || exists|j: int|
            0 <= j < items.len() && items[j] == out[i] by {
            if i < items.len() {
                assert(items[i] == out[i]);
            }
        }
    }
}

/// Sorting yields the same entries, in the order of their keys.
pub proof fn law_stable_sort<K: OrderedKey, V>(items: Seq<(K::V, V)>)
    ensures
        in_key_order::<K, V>(stable_sort::<K, V>(items)),
        stable_sort::<K, V>(items).to_multiset() =~= items.to_multiset(),
    decreases items.len(),
{
    broadcast use vstd::seq_lib::group_to_multiset_ensures;

    if items.len() > 0 {
        law_stable_sort::<K, V>(items.drop_last());
        lemma_insert_stable::<K, V>(stable_sort::<K, V>(items.drop_last()), items.last());
        assert(items.drop_last().push(items.last()) =~= items);
    }
}

/// The entries in the order of their keys; those with the same key keep their
/// order.
pub fn sort_stable<K: OrderedKey, V: DeepView>(items: Vec<(K, V)>) -> (r: Vec<(K, V)>)
    ensures
        r.deep_view() == stable_sort::<K, V::V>(items.deep_view()),
{
    let ghost model = items.deep_view();
    let ghost total = items@.len();
    let mut rest = items;
    let mut reversed: Vec<(K, V)> = Vec::new();
    while rest.len() > 0
        invariant
            rest@.len() + reversed@.len() == total,
            model.len() == total,
            rest.deep_view() =~= model.take(rest@.len() as int),
            forall|i: int|
                0 <= i < reversed@.len() ==> (#[trigger] reversed@[i]).deep_view() == model[total - 1
                    - i],
        decreases rest.len(),
    {
        let ghost before = rest.deep_view();
        match rest.pop() {
            Some(e) => {
                assert(e.deep_view() == before.last());
                reversed.push(e);
            },
            None => {},
        }
    }
    let mut out: Vec<(K, V)> = Vec::new();
    assert(model.take(0) =~= out.deep_view());
    while reversed.len() > 0
        invariant
            model.len() == total,
            reversed@.len() <= total,
            forall|i: int|
                0 <= i < reversed@.len() ==> (#[trigger] reversed@[i]).deep_view() == model[total - 1
                    - i],
            out.deep_view() =~= stable_sort::<K, V::V>(model.take(total - reversed@.len())),
        decreases reversed.len(),
    {
        let ghost done = total - reversed@.len();
        match reversed.pop() {
            Some(e) => {
                let ghost sorted = out.deep_view();
                let ghost item = e.deep_view();
                assert(item == model[done]);
                let mut p: usize = out.len();
                assert(sorted.take(p as int) =~= sorted);
                assert(insert_stable::<K, V::V>(sorted, item) =~= insert_stable::<K, V::V>(
                    sorted,
                    item,
                ) + sorted.skip(p as int));
                while p > 0 && e.0.precedes(&out[p - 1].0)
                    invariant
                        sorted == out.deep_view(),
                        item == e.deep_view(),
                        0 <= p <= out@.len(),
                        insert_stable::<K, V::V>(sorted, item) =~= insert_stable::<K, V::V>(
                            sorted.take(p as int),
                            item,
                        ) + sorted.skip(p as int),
                    decreases p,
                {
                    proof {
                        let t = sorted.take(p as int);
                        assert(t.last() == out@[p - 1].deep_view());
                        assert(t.drop_last() =~= sorted.take(p - 1));
                    }
                    p -= 1;
                }
                proof {
                    let t = sorted.take(p as int);
                    if p > 0 {
                        assert(t.last() == out@[p - 1].deep_view());
                    }
                    assert(insert_stable::<K, V::V>(t, item) == t.push(item));
                }
                out.insert(p, e);
                proof {
                    assert(out.deep_view() =~= sorted.take(p as int).push(item) + sorted.skip(
                        p as int,
                    ));
                    let t = model.take(done + 1);
                    assert(t.drop_last() =~= model.take(done));
                    assert(t.last() == item);
                }
            },
            None => {},
        }
    }
    assert(model.take(total as int) =~= model);
    out
}

/// The items without those that stand earlier.
pub open spec fn dedup<T>(items: Seq<T>) -> Seq<T>
    decreases items.len(),
{
    if items.len() == 0 {
        items
    } else if items.drop_last().contains(items.last()) {
        dedup(items.drop_last())
    } else {
        dedup(items.drop_last()).push(items.last())
    }
}

/// What is left after `dedup` is what was there, and nothing twice.
pub proof fn law_dedup<T>(items: Seq<T>)
    ensures
        dedup(items).no_duplicates(),
        forall|x: T| dedup(items).contains(x) <==> items.contains(x),
    decreases items.len(),
{
    if items.len() > 0 {
        let rest = items.drop_last();
        law_dedup(rest);
        let last = items.last();
        assert(rest.push(last) =~= items);
        assert forall|x: T| dedup(items).contains(x) <==> items.contains(x) by {
            assert(dedup(rest).contains(x) <==> rest.contains(x));
            lemma_push_contains(rest, last, x);
            lemma_push_contains(dedup(rest), last, x);
        }
        assert(dedup(rest).contains(last) <==> rest.contains(last));
    }
}

pub proof fn lemma_push_contains<T>(items: Seq<T>, e: T, x: T)
    ensures
        items.push(e).contains(x) <==> items.contains(x) || x == e,
{
    if items.contains(x) {
        let i = choose|i: int| 0 <= i < items.len() && items[i] == x;
        assert(items.push(e)[i] == x);
    }
    if x == e {
        assert(items.push(e)[items.len() as int] == x);
    }
    if items.push(e).contains(x) && x != e {
        let i = choose|i: int| 0 <= i < items.push(e).len() && items.push(e)[i] == x;
        assert(items[i] == x);
    }
}

/// Removes the items that stand earlier, and keeps the order of the others.
pub fn dedup_preserve_order<T: OrderedKey>(values: &mut Vec<T>)
    ensures
        final(values).deep_view() == dedup(old(values).deep_view()),
{
    let ghost model = values.deep_view();
    let n: usize = values.len();
    let mut out: Vec<T> = Vec::new();
    let mut i: usize = 0;
    while i < n
        invariant
            n == values@.len(),
            model == values.deep_view(),
            0 <= i <= n,
            out.deep_view() =~= dedup(model.take(i as int)),
        decreases n - i,
    {
        let mut earlier = false;
        let mut j: usize = 0;
        while j < i && !earlier
            invariant
                model == values.deep_view(),
                0 <= j <= i < values@.len(),
                earlier == (exists|k: int| 0 <= k < j && model[k] == model[i as int]),
            decreases i - j,
        {
            assert(model[j as int] == values@[j as int].deep_view());
            if values[j].same_key(&values[i]) {
                earlier = true;
            }
            j += 1;
        }
        let ghost before = out.deep_view();
        proof {
            let t = model.take(i + 1);
            assert(t.drop_last() =~= model.take(i as int));
            assert(t.last() == model[i as int]);
            if earlier {
                let k = choose|k: int| 0 <= k < j && model[k] == model[i as int];
                assert(model.take(i as int)[k] == model[i as int]);
            } else if model.take(i as int).contains(model[i as int]) {
                let k = choose|k: int|
                    0 <= k < i && model.take(i as int)[k] == model[i as int];
                assert(model[k] == model[i as int]);
            }
        }
        if !earlier {
            out.push(values[i].duplicate());
            assert(out.deep_view() =~= before.push(model[i as int]));
        }
        i += 1;
    }
    assert(model.take(i as int) =~= model);
    *values = out;
}

/// The items without `k`.
pub open spec fn set_remove<T>(items: Seq<T>, k: T) -> Seq<T>
    decreases items.len(),
{
    if items.len() == 0 {
        items
    } else if items.last() == k {
        set_remove(items.drop_last(), k)
    } else {
        set_remove(items.drop_last(), k).push(items.last())
    }
}

/// The items with those of `more` from `i` on among them.
pub open spec fn set_put_all<K: OrderedKey>(items: Seq<K::V>, more: Seq<K::V>, i: int) -> Seq<K::V>
    decreases more.len() - i,
{
    if i < 0 || i >= more.len() {
        items
    } else {
        set_put_all::<K>(set_put::<K>(items, more[i]), more, i + 1)
    }
}

/// The items in increasing order, each once.
pub open spec fn sorted_set_of<K: OrderedKey>(items: Seq<K::V>) -> Seq<K::V>
    decreases items.len(),
{
    if items.len() == 0 {
        items
    } else {
        set_put::<K>(sorted_set_of::<K>(items.drop_last()), items.last())
    }
}

/// A sorted set holds what it was made of, in increasing order.
pub proof fn law_sorted_set_of<K: OrderedKey>(items: Seq<K::V>)
    ensures
        sorted_set::<K>(sorted_set_of::<K>(items)),
        forall|q: K::V| sorted_set_of::<K>(items).contains(q) <==> items.contains(q),
    decreases items.len(),
{
    if items.len() > 0 {
        let rest = items.drop_last();
        law_sorted_set_of::<K>(rest);
        law_set_put_sorted::<K>(sorted_set_of::<K>(rest), items.last());
        assert(rest.push(items.last()) =~= items);
        assert forall|q: K::V| sorted_set_of::<K>(items).contains(q) <==> items.contains(q) by {
            assert(sorted_set_of::<K>(rest).contains(q) <==> rest.contains(q));
            law_set_put_contains::<K>(sorted_set_of::<K>(rest), items.last(), q);
            lemma_push_contains(rest, items.last(), q);
        }
    }
}

/// The items in increasing order, each once.
pub fn sort_and_dedup<K: OrderedKey>(items: &Vec<K>) -> (r: Vec<K>)
    ensures
        r.deep_view() == sorted_set_of::<K>(items.deep_view()),
{
    let mut set: KeySet<K> = KeySet::new();
    let mut i: usize = 0;
    while i < items.len()
        invariant
            0 <= i <= items@.len(),
            set.deep_view() =~= sorted_set_of::<K>(items.deep_view().take(i as int)),
        decreases items.len() - i,
    {
        set.insert(items[i].duplicate());
        proof {
            let t = items.deep_view().take(i + 1);
            assert(t.drop_last() =~= items.deep_view().take(i as int));
            assert(t.last() == items@[i as int].deep_view());
        }
        i += 1;
    }
    assert(items.deep_view().take(i as int) =~= items.deep_view());
    set.items
}

/// The outcome of an operation, success and error by their models.
pub open spec fn result_view<T: DeepView, E: DeepView>(r: Result<T, E>) -> Result<T::V, E::V> {
    match r {
        Ok(v) => Ok(v.deep_view()),
        Err(e) => Err(e.deep_view()),
    }
}

/// A map in the order of its keys.
#[derive(Debug, PartialEq, Eq)]
pub struct KeyMap<K, V> {
    pub entries: Vec<(K, V)>,
}

impl<K: DeepView, V: DeepView> DeepView for KeyMap<K, V> {
    type V = Seq<(K::V, V::V)>;

    open spec fn deep_view(&self) -> Self::V {
        self.entries.deep_view()
    }
}

impl<K: OrderedKey, V: Duplicate> Duplicate for KeyMap<K, V> {
    fn duplicate(&self) -> (r: Self) {
        KeyMap { entries: self.entries.duplicate() }
    }
}

impl<K: OrderedKey, V: DeepView> KeyMap<K, V> {
    /// A map without entries.
    pub fn new() -> (r: Self)
        ensures
            r.deep_view() == Seq::<(K::V, V::V)>::empty(),
            sorted_items::<K, V::V>(r.deep_view()),
    {
        let r = KeyMap { entries: Vec::new() };
        assert(r.deep_view() =~= Seq::<(K::V, V::V)>::empty());
        r
    }

    /// The value under `k`.
    pub fn get(&self, k: &K) -> (r: Option<&V>)
        ensures
            match lookup(self.deep_view(), k.deep_view()) {
                Some(v) => r matches Some(x) && x.deep_view() == v,
                None => r is None,
            },
    {
        let mut i: usize = 0;
        assert(self.deep_view().skip(0) =~= self.deep_view());
        while i < self.entries.len()
            invariant
                0 <= i <= self.entries@.len(),
                lookup(self.deep_view(), k.deep_view()) == lookup(
                    self.deep_view().skip(i as int),
                    k.deep_view(),
                ),
            decreases self.entries.len() - i,
        {
            if self.entries[i].0.same_key(k) {
                assert(self.deep_view().skip(i as int)[0] == self.entries@[i as int].deep_view());
                return Some(&self.entries[i].1);
            }
            assert(self.deep_view().skip(i as int)[0] == self.entries@[i as int].deep_view());
            assert(self.deep_view().skip(i as int).skip(1) =~= self.deep_view().skip(i + 1));
            i += 1;
        }
        None
    }

    /// Whether there is an entry under `k`.
    pub fn contains_key(&self, k: &K) -> (r: bool)
        ensures
            r == (lookup(self.deep_view(), k.deep_view()) is Some),
    {
        self.get(k).is_some()
    }

    /// Puts `v` under `k`, in place of what stood there.
    pub fn insert(&mut self, k: K, v: V)
        ensures
            final(self).deep_view() == put::<K, V::V>(
                old(self).deep_view(),
                k.deep_view(),
                v.deep_view(),
            ),
            sorted_items::<K, V::V>(old(self).deep_view()) ==> sorted_items::<K, V::V>(
                final(self).deep_view(),
            ),
    {
        let ghost items = self.deep_view();
        proof {
            if sorted_items::<K, V::V>(items) {
                law_put_sorted::<K, V::V>(items, k.deep_view(), v.deep_view());
            }
        }
        let mut i: usize = 0;
        assert(items.skip(0) =~= items);
        assert(items.take(0) + put::<K, V::V>(items, k.deep_view(), v.deep_view()) =~= put::<
            K,
            V::V,
        >(items, k.deep_view(), v.deep_view()));
        while i < self.entries.len()
            invariant
                items == self.deep_view(),
                *self == *old(self),
                0 <= i <= self.entries@.len(),
                put::<K, V::V>(items, k.deep_view(), v.deep_view()) =~= items.take(i as int) + put::<
                    K,
                    V::V,
                >(items.skip(i as int), k.deep_view(), v.deep_view()),
                sorted_items::<K, V::V>(items) ==> sorted_items::<K, V::V>(
                    put::<K, V::V>(items, k.deep_view(), v.deep_view()),
                ),
            decreases self.entries.len() - i,
        {
            let ghost rest = items.skip(i as int);
            assert(rest[0] == items[i as int]);
            assert(items[i as int] == self.entries@[i as int].deep_view());
            if self.entries[i].0.same_key(&k) {
                assert(rest.skip(1) =~= items.skip(i + 1));
                self.entries.remove(i);
                let ghost out = items.take(i as int) + (seq![(k.deep_view(), v.deep_view())]
                    + items.skip(i + 1));
                self.entries.insert(i, (k, v));
                assert(self.deep_view() =~= out);
                return;
            }
            if k.precedes(&self.entries[i].0) {
                let ghost out = items.take(i as int) + (seq![(k.deep_view(), v.deep_view())]
                    + items.skip(i as int));
                self.entries.insert(i, (k, v));
                assert(self.deep_view() =~= out);
                return;
            }
            assert(rest.skip(1) =~= items.skip(i + 1));
            assert(items.take(i as int) + (seq![rest[0]] + put::<K, V::V>(
                items.skip(i + 1),
                k.deep_view(),
                v.deep_view(),
            )) =~= items.take(i + 1) + put::<K, V::V>(
                items.skip(i + 1),
                k.deep_view(),
                v.deep_view(),
            ));
            i += 1;
        }
        let ghost out = items.take(i as int) + seq![(k.deep_view(), v.deep_view())];
        self.entries.push((k, v));
        assert(self.deep_view() =~= out);
    }
}

/// A set in the order of its items.
#[derive(Debug, PartialEq, Eq)]
pub struct KeySet<K> {
    pub items: Vec<K>,
}

impl<K: DeepView> DeepView for KeySet<K> {
    type V = Seq<K::V>;

    open spec fn deep_view(&self) -> Self::V {
        self.items.deep_view()
    }
}

impl<K: OrderedKey> Duplicate for KeySet<K> {
    fn duplicate(&self) -> (r: Self) {
        KeySet { items: self.items.duplicate() }
    }
}

impl<K: OrderedKey> KeySet<K> {
    /// A set without items.
    pub fn new() -> (r: Self)
        ensures
            r.deep_view() == Seq::<K::V>::empty(),
            sorted_set::<K>(r.deep_view()),
    {
        let r = KeySet { items: Vec::new() };
        assert(r.deep_view() =~= Seq::<K::V>::empty());
        r
    }

    /// Whether `k` is in the set.
    pub fn contains(&self, k: &K) -> (r: bool)
        ensures
            r == self.deep_view().contains(k.deep_view()),
    {
        let mut i: usize = 0;
        while i < self.items.len()
            invariant
                0 <= i <= self.items@.len(),
                forall|j: int| 0 <= j < i ==> self.deep_view()[j] != k.deep_view(),
            decreases self.items.len() - i,
        {
            if self.items[i].same_key(k) {
                assert(self.deep_view()[i as int] == k.deep_view());
                return true;
            }
            i += 1;
        }
        false
    }

    /// Puts `k` into the set; returns whether it is new there.
    pub fn insert(&mut self, k: K) -> (r: bool)
        ensures
            final(self).deep_view() == set_put::<K>(old(self).deep_view(), k.deep_view()),
            sorted_set::<K>(old(self).deep_view()) ==> sorted_set::<K>(final(self).deep_view()),
            sorted_set::<K>(old(self).deep_view()) ==> r == !old(self).deep_view().contains(
                k.deep_view(),
            ),
    {
        let ghost items = self.deep_view();
        proof {
            if sorted_set::<K>(items) {
                law_set_put_sorted::<K>(items, k.deep_view());
            }
        }
        let mut i: usize = 0;
        assert(items.skip(0) =~= items);
        assert(items.take(0) + set_put::<K>(items, k.deep_view()) =~= set_put::<K>(
            items,
            k.deep_view(),
        ));
        while i < self.items.len()
            invariant
                items == self.deep_view(),
                *self == *old(self),
                0 <= i <= self.items@.len(),
                set_put::<K>(items, k.deep_view()) =~= items.take(i as int) + set_put::<K>(
                    items.skip(i as int),
                    k.deep_view(),
                ),
                sorted_set::<K>(items) ==> sorted_set::<K>(set_put::<K>(items, k.deep_view())),
                forall|j: int| 0 <= j < i ==> items[j] != k.deep_view(),
            decreases self.items.len() - i,
        {
            let ghost rest = items.skip(i as int);
            assert(rest[0] == items[i as int]);
            assert(items[i as int] == self.items@[i as int].deep_view());
            if self.items[i].same_key(&k) {
                assert(items.take(i as int) + rest =~= items);
                assert(items.contains(k.deep_view()));
                return false;
            }
            if k.precedes(&self.items[i]) {
                proof {
                    if sorted_set::<K>(items) && items.contains(k.deep_view()) {
                        let j = choose|j: int| 0 <= j < items.len() && items[j] == k.deep_view();
                        assert(K::key_lt(items[i as int], items[j]));
                        K::key_lt_transitive(k.deep_view(), items[i as int], items[j]);
                        K::key_lt_irreflexive(k.deep_view());
                    }
                }
                let ghost out = items.take(i as int) + (seq![k.deep_view()] + items.skip(i as int));
                self.items.insert(i, k);
                assert(self.deep_view() =~= out);
                return true;
            }
            assert(rest.skip(1) =~= items.skip(i + 1));
            assert(items.take(i as int) + (seq![rest[0]] + set_put::<K>(
                items.skip(i + 1),
                k.deep_view(),
            )) =~= items.take(i + 1) + set_put::<K>(items.skip(i + 1), k.deep_view()));
            i += 1;
        }
        let ghost out = items.take(i as int) + seq![k.deep_view()];
        self.items.push(k);
        assert(self.deep_view() =~= out);
        true
    }

    /// Takes `k` out of the set.
    pub fn remove(&mut self, k: &K)
        ensures
            final(self).deep_view() == set_remove(old(self).deep_view(), k.deep_view()),
    {
        let ghost model = self.deep_view();
        let mut out: Vec<K> = Vec::new();
        let mut i: usize = 0;
        while i < self.items.len()
            invariant
                model == self.deep_view(),
                0 <= i <= self.items@.len(),
                out.deep_view() =~= set_remove(model.take(i as int), k.deep_view()),
            decreases self.items.len() - i,
        {
            let ghost before = out.deep_view();
            proof {
                let t = model.take(i + 1);
                assert(t.drop_last() =~= model.take(i as int));
                assert(t.last() == self.items@[i as int].deep_view());
            }
            if !self.items[i].same_key(k) {
                out.push(self.items[i].duplicate());
                assert(out.deep_view() =~= before.push(model[i as int]));
            }
            i += 1;
        }
        assert(model.take(i as int) =~= model);
        self.items = out;
    }

    /// Puts the items into the set.
    pub fn insert_all(&mut self, more: &Vec<K>)
        ensures
            final(self).deep_view() == set_put_all::<K>(
                old(self).deep_view(),
                more.deep_view(),
                0,
            ),
    {
        let ghost first = self.deep_view();
        let ghost model = more.deep_view();
        let mut i: usize = 0;
        while i < more.len()
            invariant
                model == more.deep_view(),
                0 <= i <= more@.len(),
                set_put_all::<K>(first, model, 0) == set_put_all::<K>(
                    self.deep_view(),
                    model,
                    i as int,
                ),
            decreases more.len() - i,
        {
            assert(model[i as int] == more@[i as int].deep_view());
            self.insert(more[i].duplicate());
            i += 1;
        }
    }
}

/// How many of the texts are not in the set.
pub open spec fn missing(all: Seq<Text>, active: Seq<Text>) -> nat
    decreases all.len(),
{
    if all.len() == 0 {
        0
    } else {
        missing(all.drop_last(), active) + (if active.contains(all.last()) {
            0nat
        } else {
            1
        })
    }
}

/// Every item of the first is one of the second.
pub open spec fn within(a: Seq<Text>, b: Seq<Text>) -> bool {
    forall|x: Text| #[trigger] a.contains(x) ==> b.contains(x)
}

/// A set that grows by one of the texts leaves fewer of them out.
pub proof fn lemma_missing(all: Seq<Text>, active: Seq<Text>, next: Seq<Text>)
    requires
        within(active, next),
    ensures
        missing(all, next) <= missing(all, active),
        forall|x: Text| #[trigger]
            all.contains(x) && !active.contains(x) && next.contains(x) ==> missing(all, next)
                < missing(all, active),
    decreases all.len(),
{
    if all.len() > 0 {
        lemma_missing(all.drop_last(), active, next);
        assert forall|x: Text| #[trigger]
            all.contains(x) && !active.contains(x) && next.contains(x) implies missing(all, next)
            < missing(all, active) by {
            let i = choose|i: int| 0 <= i < all.len() && all[i] == x;
            if i < all.len() - 1 {
                assert(all.drop_last()[i] == x);
                assert(all.drop_last().contains(x));
            }
        }
    }
}

} // verus!
