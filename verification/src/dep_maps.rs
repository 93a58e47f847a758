//! Maps and sets in the order of insertion, held by `starlark_map`.

use starlark_map::ordered_map::OrderedMap;
use starlark_map::small_map::SmallMap;
use starlark_map::small_set::SmallSet;
use vstd::prelude::*;
use vstd::string::*;
use crate::ordered::{Duplicate, lookup};
use crate::text::Text;
use crate::visibility::{Check, CheckVisibility};

verus! {

/// The map of `starlark_map` that keeps the order of insertion.
#[verifier::external_type_specification]
#[verifier::external_body]
#[verifier::reject_recursive_types(K)]
#[verifier::reject_recursive_types(V)]
pub struct ExSmallMap<K, V>(SmallMap<K, V>);

/// The map of `starlark_map` whose order counts.
#[verifier::external_type_specification]
#[verifier::external_body]
#[verifier::reject_recursive_types(K)]
#[verifier::reject_recursive_types(V)]
pub struct ExOrderedMap<K, V>(OrderedMap<K, V>);

/// The set of `starlark_map` that keeps the order of insertion.
#[verifier::external_type_specification]
#[verifier::external_body]
#[verifier::reject_recursive_types(T)]
pub struct ExSmallSet<T>(SmallSet<T>);

/// How a dependency is used: the kinds of plugins that it is asked for, each
/// with whether they are passed on, and how its visibility is checked.
#[derive(Debug, PartialEq, Eq)]
pub struct DepUse {
    pub plugin_kinds: Vec<Vec<(String, bool)>>,
    pub check: CheckVisibility,
}

/// The model of [`DepUse`].
pub struct DepUseModel {
    pub plugin_kinds: Seq<Seq<(Text, bool)>>,
    pub check: Check,
}

impl DeepView for DepUse {
    type V = DepUseModel;

    open spec fn deep_view(&self) -> DepUseModel {
        DepUseModel {
            plugin_kinds: self.plugin_kinds.deep_view(),
            check: self.check.deep_view(),
        }
    }
}

impl Duplicate for DepUse {
    fn duplicate(&self) -> (r: Self) {
        DepUse {
            plugin_kinds: self.plugin_kinds.duplicate(),
            check: self.check.duplicate(),
        }
    }
}

/// The entries with a value under a key: in the place of the one that was there,
/// or at the end.
pub open spec fn placed<V>(items: Seq<(Text, V)>, k: Text, v: V) -> Seq<(Text, V)>
    decreases items.len(),
{
    if items.len() == 0 {
        seq![(k, v)]
    } else if items[0].0 == k {
        items.update(0, (k, v))
    } else {
        seq![items[0]] + placed(items.skip(1), k, v)
    }
}

/// The items with one at the end, unless it is there.
pub open spec fn added(items: Seq<Text>, k: Text) -> Seq<Text> {
    if items.contains(k) {
        items
    } else {
        items.push(k)
    }
}

/// What a lookup gives after a value was put in its place: the new value under
/// its key, the former value under any other.
pub proof fn law_lookup_placed<V>(items: Seq<(Text, V)>, k: Text, v: V, q: Text)
    ensures
        lookup(placed(items, k, v), q) == (if q == k {
            Some(v)
        } else {
            lookup(items, q)
        }),
    decreases items.len(),
{
    let out = placed(items, k, v);
    if items.len() == 0 {
        assert(out.skip(1) =~= items);
    } else if items[0].0 == k {
        assert(out.skip(1) =~= items.skip(1));
    } else {
        assert(out.skip(1) =~= placed(items.skip(1), k, v));
        law_lookup_placed(items.skip(1), k, v, q);
    }
}

/// A value that is put in its place keeps the order of the keys, with a new one
/// at the end.
pub proof fn law_placed_keys<V>(items: Seq<(Text, V)>, k: Text, v: V)
    ensures
        placed(items, k, v).map_values(|e: (Text, V)| e.0) == added(
            items.map_values(|e: (Text, V)| e.0),
            k,
        ),
    decreases items.len(),
{
    let keys = items.map_values(|e: (Text, V)| e.0);
    let out = placed(items, k, v).map_values(|e: (Text, V)| e.0);
    if items.len() == 0 {
        assert(out =~= added(keys, k));
    } else if items[0].0 == k {
        assert(keys[0] == k);
        assert(out =~= keys);
    } else {
        let rest = items.skip(1);
        let tail = rest.map_values(|e: (Text, V)| e.0);
        law_placed_keys(rest, k, v);
        assert(keys =~= seq![items[0].0] + tail);
        assert(out =~= seq![items[0].0] + added(tail, k));
        if tail.contains(k) {
            let i = choose|i: int| 0 <= i < tail.len() && tail[i] == k;
            assert(keys[i + 1] == k);
        } else {
            assert forall|i: int| 0 <= i < keys.len() implies keys[i] != k by {
                if i > 0 {
                    assert(keys[i] == tail[i - 1]);
                }
            }
        }
        assert(out =~= added(keys, k));
    }
}

/// The dependencies and their uses, in order.
pub uninterp spec fn dep_items(m: OrderedMap<String, DepUse>) -> Seq<(Seq<char>, DepUseModel)>;

/// The dependencies and their checks, in order.
pub uninterp spec fn check_items(m: SmallMap<String, CheckVisibility>) -> Seq<(Seq<char>, Check)>;

/// The toolchain types, in order, each with its resolved name and whether it is
/// mandatory.
pub uninterp spec fn toolchain_items(m: SmallMap<String, (String, bool)>) -> Seq<
    (Seq<char>, (Seq<char>, bool)),
>;

/// The texts and what each stands for, in order.
pub uninterp spec fn text_items(m: OrderedMap<String, String>) -> Seq<(Seq<char>, Seq<char>)>;

/// The labels of a set, in order.
pub uninterp spec fn label_items(s: SmallSet<String>) -> Seq<Seq<char>>;

/// `OrderedMap::new`: a map without entries.
#[verifier::external_body]
pub(crate) fn new_dep_map() -> (r: OrderedMap<String, DepUse>)
    ensures
        dep_items(r) == Seq::<(Seq<char>, DepUseModel)>::empty(),
{
    OrderedMap::new()
}

/// `OrderedMap::get`: the value under a key.
#[verifier::external_body]
pub(crate) fn dep_get<'a>(m: &'a OrderedMap<String, DepUse>, key: &str) -> (r: Option<&'a DepUse>)
    ensures
        r is Some <==> lookup(dep_items(*m), key@) is Some,
        r is Some ==> Some(r->0.deep_view()) == lookup(dep_items(*m), key@),
{
    m.get(key)
}

/// `OrderedMap::insert`: the value takes the place of the one under the key, or
/// comes at the end.
#[verifier::external_body]
pub(crate) fn dep_insert(m: &mut OrderedMap<String, DepUse>, key: String, value: DepUse)
    ensures
        dep_items(*final(m)) == placed(dep_items(*old(m)), key@, value.deep_view()),
{
    m.insert(key, value);
}

/// `OrderedMap::iter`: the entries in order.
#[verifier::external_body]
pub(crate) fn dep_entries<'a>(m: &'a OrderedMap<String, DepUse>) -> (r: Vec<
    (&'a String, &'a DepUse),
>)
    ensures
        r.deep_view() == dep_items(*m),
{
    m.iter().collect()
}

/// `SmallMap::new`: a map without entries.
#[verifier::external_body]
pub(crate) fn new_check_map() -> (r: SmallMap<String, CheckVisibility>)
    ensures
        check_items(r) == Seq::<(Seq<char>, Check)>::empty(),
{
    SmallMap::new()
}

/// `SmallMap::get`: the value under a key.
#[verifier::external_body]
pub(crate) fn check_get<'a>(m: &'a SmallMap<String, CheckVisibility>, key: &str) -> (r: Option<
    &'a CheckVisibility,
>)
    ensures
        r is Some <==> lookup(check_items(*m), key@) is Some,
        r is Some ==> Some(r->0.deep_view()) == lookup(check_items(*m), key@),
{
    m.get(key)
}

/// `SmallMap::insert`: the value takes the place of the one under the key, or
/// comes at the end.
#[verifier::external_body]
pub(crate) fn check_insert(
    m: &mut SmallMap<String, CheckVisibility>,
    key: String,
    value: CheckVisibility,
)
    ensures
        check_items(*final(m)) == placed(check_items(*old(m)), key@, value.deep_view()),
{
    m.insert(key, value);
}

/// `SmallMap::iter`: the entries in order.
#[verifier::external_body]
pub(crate) fn check_entries<'a>(m: &'a SmallMap<String, CheckVisibility>) -> (r: Vec<
    (&'a String, &'a CheckVisibility),
>)
    ensures
        r.deep_view() == check_items(*m),
{
    m.iter().collect()
}

/// `SmallMap::new`: a map without entries.
#[verifier::external_body]
pub(crate) fn new_toolchain_map() -> (r: SmallMap<String, (String, bool)>)
    ensures
        toolchain_items(r) == Seq::<(Seq<char>, (Seq<char>, bool))>::empty(),
{
    SmallMap::new()
}

/// `SmallMap::get`: the value under a key.
#[verifier::external_body]
pub(crate) fn toolchain_get<'a>(m: &'a SmallMap<String, (String, bool)>, key: &str) -> (r: Option<
    &'a (String, bool),
>)
    ensures
        r is Some <==> lookup(toolchain_items(*m), key@) is Some,
        r is Some ==> Some(r->0.deep_view()) == lookup(toolchain_items(*m), key@),
{
    m.get(key)
}

/// `SmallMap::insert`: the value takes the place of the one under the key, or
/// comes at the end.
#[verifier::external_body]
pub(crate) fn toolchain_insert(
    m: &mut SmallMap<String, (String, bool)>,
    key: String,
    value: (String, bool),
)
    ensures
        toolchain_items(*final(m)) == placed(toolchain_items(*old(m)), key@, value.deep_view()),
{
    m.insert(key, value);
}

/// `SmallMap::iter`: the entries in order.
#[verifier::external_body]
pub(crate) fn toolchain_entries<'a>(m: &'a SmallMap<String, (String, bool)>) -> (r: Vec<
    (&'a String, &'a (String, bool)),
>)
    ensures
        r.deep_view() == toolchain_items(*m),
{
    m.iter().collect()
}

/// `OrderedMap::new`: a map without entries.
#[verifier::external_body]
pub(crate) fn new_text_map() -> (r: OrderedMap<String, String>)
    ensures
        text_items(r) == Seq::<(Seq<char>, Seq<char>)>::empty(),
{
    OrderedMap::new()
}

/// `OrderedMap::get`: the value under a key.
#[verifier::external_body]
pub(crate) fn text_get<'a>(m: &'a OrderedMap<String, String>, key: &str) -> (r: Option<&'a String>)
    ensures
        r is Some <==> lookup(text_items(*m), key@) is Some,
        r is Some ==> Some(r->0@) == lookup(text_items(*m), key@),
{
    m.get(key)
}

/// `OrderedMap::insert`: the value takes the place of the one under the key, or
/// comes at the end.
#[verifier::external_body]
pub(crate) fn text_insert(m: &mut OrderedMap<String, String>, key: String, value: String)
    ensures
        text_items(*final(m)) == placed(text_items(*old(m)), key@, value@),
{
    m.insert(key, value);
}

/// `OrderedMap::iter`: the entries in order.
#[verifier::external_body]
pub(crate) fn text_entries<'a>(m: &'a OrderedMap<String, String>) -> (r: Vec<
    (&'a String, &'a String),
>)
    ensures
        r.deep_view() == text_items(*m),
{
    m.iter().collect()
}

/// `SmallSet::new`: a set without items.
#[verifier::external_body]
pub(crate) fn new_label_set() -> (r: SmallSet<String>)
    ensures
        label_items(r) == Seq::<Seq<char>>::empty(),
{
    SmallSet::new()
}

/// `SmallSet::insert`: the item comes at the end, unless it is there.
#[verifier::external_body]
pub(crate) fn label_insert(s: &mut SmallSet<String>, label: String)
    ensures
        label_items(*final(s)) == added(label_items(*old(s)), label@),
{
    s.insert(label);
}

/// `SmallSet::iter`: the items in order.
#[verifier::external_body]
pub(crate) fn label_entries<'a>(s: &'a SmallSet<String>) -> (r: Vec<&'a String>)
    ensures
        r.deep_view() == label_items(*s),
{
    s.iter().collect()
}

} // verus!
