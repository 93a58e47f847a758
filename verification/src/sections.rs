//! Configurations as sorted maps of sections, held by `starlark_map`.

use starlark_map::sorted_map::SortedMap;
use vstd::prelude::*;
use vstd::string::*;
use crate::config::{ConfigValue, ConfigValueModel, LegacyBuckConfigValue};
use crate::ordered::{
    lemma_text_lt_irreflexive, lemma_text_lt_transitive, lookup, put, sorted_items, text_lt,
};
use crate::text::Text;

verus! {

/// The sorted map of `starlark_map`.
#[verifier::external_type_specification]
#[verifier::external_body]
#[verifier::reject_recursive_types(K)]
#[verifier::reject_recursive_types(V)]
pub struct ExSortedMap<K, V>(SortedMap<K, V>);

/// A section by its keys, in order.
pub type SectionItems = Seq<(Text, ConfigValueModel)>;

/// A configuration by its sections, in order.
pub type ConfigItems = Seq<(Text, SectionItems)>;

/// The entries of a section, in key order.
pub uninterp spec fn section_items(m: SortedMap<String, ConfigValue>) -> Seq<
    (Seq<char>, ConfigValueModel),
>;

/// The sections of a configuration, in key order.
pub uninterp spec fn config_items(m: SortedMap<String, LegacyBuckConfigSection>) -> Seq<
    (Seq<char>, Seq<(Seq<char>, ConfigValueModel)>),
>;

/// The keys are in increasing order.
pub open spec fn section_sorted(items: SectionItems) -> bool {
    sorted_items::<String, ConfigValueModel>(items)
}

/// The names are in increasing order.
pub open spec fn config_sorted(items: ConfigItems) -> bool {
    sorted_items::<String, SectionItems>(items)
}

/// The entries put into a map one after another.
pub open spec fn put_entries<V>(entries: Seq<(Text, V)>) -> Seq<(Text, V)>
    decreases entries.len(),
{
    if entries.len() == 0 {
        seq![]
    } else {
        put::<String, V>(put_entries(entries.drop_last()), entries.last().0, entries.last().1)
    }
}

/// `SortedMap::from_iter` on the entries of a section: of entries with the same
/// key the last counts, and the map has them in key order.
#[verifier::external_body]
fn section_from(entries: Vec<(String, ConfigValue)>) -> (r: SortedMap<String, ConfigValue>)
    ensures
        section_items(r) == put_entries(entries.deep_view()),
{
    SortedMap::from_iter(entries)
}

/// `SortedMap::iter` on a section: its entries in key order, which is increasing.
#[verifier::external_body]
fn section_entries<'a>(m: &'a SortedMap<String, ConfigValue>) -> (r: Vec<
    (&'a String, &'a ConfigValue),
>)
    ensures
        r.deep_view() == section_items(*m),
        section_sorted(r.deep_view()),
{
    m.iter().collect()
}

/// `SortedMap::get` on a section: the value under the key.
#[verifier::external_body]
fn section_get<'a>(m: &'a SortedMap<String, ConfigValue>, key: &str) -> (r: Option<
    &'a ConfigValue,
>)
    ensures
        r is Some <==> lookup(section_items(*m), key@) is Some,
        r is Some ==> Some(r->0.deep_view()) == lookup(section_items(*m), key@),
{
    m.get(key)
}

/// `SortedMap::from_iter` on sections: of sections with the same name the last
/// counts, and the map has them in order of their names.
#[verifier::external_body]
fn config_from(entries: Vec<(String, LegacyBuckConfigSection)>) -> (r: SortedMap<
    String,
    LegacyBuckConfigSection,
>)
    ensures
        config_items(r) == put_entries(entries.deep_view()),
{
    SortedMap::from_iter(entries)
}

/// `SortedMap::iter` on sections: the sections in the order of their names, which
/// is increasing.
#[verifier::external_body]
fn config_entries<'a>(m: &'a SortedMap<String, LegacyBuckConfigSection>) -> (r: Vec<
    (&'a String, &'a LegacyBuckConfigSection),
>)
    ensures
        r.deep_view() == config_items(*m),
        config_sorted(r.deep_view()),
{
    m.iter().collect()
}

/// `SortedMap::get` on sections: the section of the name.
#[verifier::external_body]
fn config_get<'a>(m: &'a SortedMap<String, LegacyBuckConfigSection>, key: &str) -> (r: Option<
    &'a LegacyBuckConfigSection,
>)
    ensures
        r is Some <==> lookup(config_items(*m), key@) is Some,
        r is Some ==> Some(r->0.deep_view()) == lookup(config_items(*m), key@),
{
    m.get(key)
}

/// A section of a configuration.
#[derive(Debug)]
pub struct LegacyBuckConfigSection {
    pub values: SortedMap<String, ConfigValue>,
}

impl DeepView for LegacyBuckConfigSection {
    type V = SectionItems;

    open spec fn deep_view(&self) -> SectionItems {
        section_items(self.values)
    }
}

/// A configuration.
#[derive(Debug)]
pub struct LegacyBuckConfig {
    pub values: SortedMap<String, LegacyBuckConfigSection>,
}

impl DeepView for LegacyBuckConfig {
    type V = ConfigItems;

    open spec fn deep_view(&self) -> ConfigItems {
        config_items(self.values)
    }
}

/// Every value of the section has been resolved.
pub open spec fn section_resolved(section: SectionItems) -> bool {
    forall|i: int| 0 <= i < section.len() ==> (#[trigger] section[i]).1.is_resolved()
}

/// Every value of the configuration has been resolved.
pub open spec fn config_resolved(config: ConfigItems) -> bool {
    forall|i: int| 0 <= i < config.len() ==> section_resolved((#[trigger] config[i]).1)
}

pub proof fn lemma_lookup_resolved(section: SectionItems, key: Text)
    requires
        section_resolved(section),
    ensures
        lookup(section, key) matches Some(v) ==> v.is_resolved(),
    decreases section.len(),
{
    if section.len() > 0 && section[0].0 != key {
        let rest = section.skip(1);
        assert forall|i: int| 0 <= i < rest.len() implies (#[trigger] rest[i]).1.is_resolved() by {
            assert(rest[i] == section[i + 1]);
        }
        lemma_lookup_resolved(rest, key);
    }
}

pub proof fn lemma_section_resolved(config: ConfigItems, name: Text)
    requires
        config_resolved(config),
    ensures
        lookup(config, name) matches Some(s) ==> section_resolved(s),
    decreases config.len(),
{
    if config.len() > 0 && config[0].0 != name {
        let rest = config.skip(1);
        assert forall|i: int| 0 <= i < rest.len() implies section_resolved(
            (#[trigger] rest[i]).1,
        ) by {
            assert(rest[i] == config[i + 1]);
        }
        lemma_section_resolved(rest, name);
    }
}

/// The value that counts under a section and a key.
pub open spec fn config_value(config: ConfigItems, section: Text, key: Text) -> Option<Text> {
    match lookup(config, section) {
        Some(s) => match lookup(s, key) {
            Some(v) => Some(v.text()),
            None => None,
        },
        None => None,
    }
}

impl LegacyBuckConfigSection {
    /// The value under a key.
    pub fn get<'a>(&'a self, key: &str) -> (r: Option<LegacyBuckConfigValue<'a>>)
        ensures
            match lookup(self.deep_view(), key@) {
                Some(v) => r matches Some(x) && x.value.deep_view() == v,
                None => r is None,
            },
    {
        match section_get(&self.values, key) {
            Some(value) => Some(LegacyBuckConfigValue { value }),
            None => None,
        }
    }

    /// The entries, in key order.
    pub fn entries<'a>(&'a self) -> (r: Vec<(&'a String, &'a ConfigValue)>)
        ensures
            r.deep_view() == self.deep_view(),
            section_sorted(r.deep_view()),
    {
        section_entries(&self.values)
    }

    /// The section of these entries.
    pub fn from_entries(entries: Vec<(String, ConfigValue)>) -> (r: Self)
        ensures
            r.deep_view() == put_entries(entries.deep_view()),
    {
        LegacyBuckConfigSection { values: section_from(entries) }
    }
}

impl LegacyBuckConfig {
    /// A configuration without sections.
    pub fn empty() -> (r: Self)
        ensures
            r.deep_view() == Seq::<(Text, SectionItems)>::empty(),
    {
        let none: Vec<(String, LegacyBuckConfigSection)> = Vec::new();
        let ghost g = none.deep_view();
        let r = LegacyBuckConfig { values: config_from(none) };
        assert(g =~= seq![]);
        assert(r.deep_view() =~= Seq::<(Text, SectionItems)>::empty());
        r
    }

    /// The section of a name.
    pub fn get_section<'a>(&'a self, section: &str) -> (r: Option<&'a LegacyBuckConfigSection>)
        ensures
            match lookup(self.deep_view(), section@) {
                Some(s) => r matches Some(x) && x.deep_view() == s,
                None => r is None,
            },
    {
        config_get(&self.values, section)
    }

    /// The value that counts under a section and a key.
    pub fn get<'a>(&'a self, section: &str, property: &str) -> (r: Option<&'a str>)
        requires
            config_resolved(self.deep_view()),
        ensures
            r.deep_view() == config_value(self.deep_view(), section@, property@),
    {
        match self.get_section(section) {
            Some(s) => {
                proof {
                    lemma_section_resolved(self.deep_view(), section@);
                    lemma_lookup_resolved(s.deep_view(), property@);
                }
                match section_get(&s.values, property) {
                    Some(value) => Some(value.as_str()),
                    None => None,
                }
            },
            None => None,
        }
    }

    /// The sections, in the order of their names.
    pub fn sections<'a>(&'a self) -> (r: Vec<(&'a String, &'a LegacyBuckConfigSection)>)
        ensures
            r.deep_view() == self.deep_view(),
            config_sorted(r.deep_view()),
    {
        config_entries(&self.values)
    }

    /// The configuration of these sections.
    pub fn from_sections(entries: Vec<(String, LegacyBuckConfigSection)>) -> (r: Self)
        ensures
            r.deep_view() == put_entries(entries.deep_view()),
    {
        LegacyBuckConfig { values: config_from(entries) }
    }
}

/// Putting entries that are in key order into a map changes nothing.
pub proof fn law_put_entries_sorted<V>(entries: Seq<(Text, V)>)
    requires
        sorted_items::<String, V>(entries),
    ensures
        put_entries(entries) == entries,
    decreases entries.len(),
{
    if entries.len() > 0 {
        let rest = entries.drop_last();
        assert(sorted_items::<String, V>(rest)) by {
            assert forall|i: int, j: int|
                #![trigger rest[i], rest[j]]
                0 <= i < j < rest.len() implies text_lt(rest[i].0, rest[j].0) by {
                assert(rest[i] == entries[i] && rest[j] == entries[j]);
            }
        }
        law_put_entries_sorted(rest);
        lemma_put_last(rest, entries.last().0, entries.last().1);
        assert(rest.push(entries.last()) =~= entries);
    } else {
        assert(put_entries(entries) =~= entries);
    }
}

pub proof fn lemma_put_last<V>(items: Seq<(Text, V)>, k: Text, v: V)
    requires
        sorted_items::<String, V>(items.push((k, v))),
    ensures
        put::<String, V>(items, k, v) == items.push((k, v)),
    decreases items.len(),
{
    let all = items.push((k, v));
    if items.len() > 0 {
        assert(all[0] == items[0] && all[items.len() as int] == (k, v));
        assert(text_lt(items[0].0, k));
        if text_lt(k, items[0].0) {
            lemma_text_lt_transitive(k, items[0].0, k);
        }
        lemma_text_lt_irreflexive(k);
        let rest = items.skip(1);
        assert(rest.push((k, v)) =~= all.skip(1));
        assert(sorted_items::<String, V>(rest.push((k, v)))) by {
            let t = rest.push((k, v));
            assert forall|i: int, j: int|
                #![trigger t[i], t[j]]
                0 <= i < j < t.len() implies text_lt(t[i].0, t[j].0) by {
                assert(t[i] == all[i + 1] && t[j] == all[j + 1]);
            }
        }
        lemma_put_last(rest, k, v);
        assert(seq![items[0]] + rest.push((k, v)) =~= all);
    } else {
        assert(put::<String, V>(items, k, v) =~= all);
    }
}

} // verus!
