//! Configurations with only the values that a filter keeps.

use vstd::prelude::*;
use vstd::string::*;
use crate::compat::{config_in_order, section_or_empty};
use crate::config::ConfigValue;
use crate::ordered::{Duplicate, lemma_text_lt_irreflexive, lookup, sorted_items, text_lt};
use crate::sections::{
    ConfigItems, LegacyBuckConfig, LegacyBuckConfigSection, SectionItems, law_put_entries_sorted,
    section_sorted,
};
use crate::text::Text;

verus! {

/// A value's section and its name there.
pub struct BuckconfigKeyRef<'a> {
    pub section: &'a str,
    pub property: &'a str,
}

/// The answer is one that the filter gives for the value of that name.
pub open spec fn answers<F: Fn(&BuckconfigKeyRef<'_>) -> bool>(
    filter: F,
    section: Text,
    property: Text,
    answer: bool,
) -> bool {
    exists|k: BuckconfigKeyRef<'_>|
        k.section@ == section && k.property@ == property && #[trigger] filter.ensures(
            (&k,),
            answer,
        )
}

/// Each answer is one that the filter gives for the value in its place.
pub open spec fn section_answers<F: Fn(&BuckconfigKeyRef<'_>) -> bool>(
    filter: F,
    section: Text,
    items: SectionItems,
    kept: Seq<bool>,
) -> bool {
    &&& kept.len() == items.len()
    &&& forall|i: int|
        0 <= i < items.len() ==> answers(filter, section, items[i].0, #[trigger] kept[i])
}

/// Each answer is one that the filter gives for the value in its place.
pub open spec fn config_answers<F: Fn(&BuckconfigKeyRef<'_>) -> bool>(
    filter: F,
    config: ConfigItems,
    kept: Seq<Seq<bool>>,
) -> bool {
    &&& kept.len() == config.len()
    &&& forall|i: int|
        0 <= i < config.len() ==> section_answers(
            filter,
            config[i].0,
            config[i].1,
            #[trigger] kept[i],
        )
}

/// The items that are kept.
pub open spec fn kept_entries<T>(items: Seq<T>, kept: Seq<bool>) -> Seq<T>
    decreases items.len(),
{
    if items.len() == 0 || kept.len() != items.len() {
        seq![]
    } else if kept.last() {
        kept_entries(items.drop_last(), kept.drop_last()).push(items.last())
    } else {
        kept_entries(items.drop_last(), kept.drop_last())
    }
}

/// The sections with the values that are kept, those of them that have any.
pub open spec fn kept_sections(config: ConfigItems, kept: Seq<Seq<bool>>) -> ConfigItems
    decreases config.len(),
{
    if config.len() == 0 || kept.len() != config.len() {
        seq![]
    } else {
        let before = kept_sections(config.drop_last(), kept.drop_last());
        let section = kept_entries(config.last().1, kept.last());
        if section.len() == 0 {
            before
        } else {
            before.push((config.last().0, section))
        }
    }
}

/// The configuration is one that the filter leaves of another.
pub open spec fn filtered<F: Fn(&BuckconfigKeyRef<'_>) -> bool>(
    filter: F,
    config: ConfigItems,
    out: ConfigItems,
) -> bool {
    exists|kept: Seq<Seq<bool>>| #[trigger]
        config_answers(filter, config, kept) && out == kept_sections(config, kept)
}

proof fn lemma_sorted_prefix<V>(items: Seq<(Text, V)>)
    requires
        sorted_items::<String, V>(items),
        items.len() > 0,
    ensures
        sorted_items::<String, V>(items.drop_last()),
{
    let rest = items.drop_last();
    assert forall|i: int, j: int|
        #![trigger rest[i], rest[j]]
        0 <= i < j < rest.len() implies text_lt(rest[i].0, rest[j].0) by {
        assert(rest[i] == items[i] && rest[j] == items[j]);
    }
}

/// What is kept of sorted entries is sorted, and comes from among them.
pub proof fn law_kept_entries<V>(items: Seq<(Text, V)>, kept: Seq<bool>)
    requires
        sorted_items::<String, V>(items),
    ensures
        sorted_items::<String, V>(kept_entries(items, kept)),
        forall|e: (Text, V)| #[trigger]
            kept_entries(items, kept).contains(e) ==> items.contains(e),
    decreases items.len(),
{
    if items.len() > 0 && kept.len() == items.len() {
        let rest = items.drop_last();
        let inner = kept_entries(rest, kept.drop_last());
        let out = kept_entries(items, kept);
        lemma_sorted_prefix(items);
        law_kept_entries(rest, kept.drop_last());
        assert forall|e: (Text, V)| #[trigger] rest.contains(e) implies items.contains(e) by {
            let i = choose|i: int| 0 <= i < rest.len() && rest[i] == e;
            assert(items[i] == e);
        }
        if kept.last() {
            assert forall|e: (Text, V)| #[trigger] out.contains(e) implies items.contains(e) by {
                let i = choose|i: int| 0 <= i < out.len() && out[i] == e;
                if i < inner.len() {
                    assert(inner[i] == e);
                    assert(inner.contains(e));
                } else {
                    assert(items[items.len() - 1] == e);
                }
            }
            assert forall|i: int, j: int|
                #![trigger out[i], out[j]]
                0 <= i < j < out.len() implies text_lt(out[i].0, out[j].0) by {
                assert(out[i] == inner[i]);
                if j < inner.len() {
                    assert(out[j] == inner[j]);
                } else {
                    assert(inner.contains(inner[i]));
                    let k = choose|k: int| 0 <= k < rest.len() && rest[k] == inner[i];
                    assert(items[k] == inner[i]);
                    assert(items[items.len() - 1] == out[j]);
                }
            }
        }
    }
}

/// What is kept of a configuration in order is in order, and its names come from
/// there.
pub proof fn law_kept_sections(config: ConfigItems, kept: Seq<Seq<bool>>)
    requires
        config_in_order(config),
    ensures
        config_in_order(kept_sections(config, kept)),
        forall|i: int|
            #![trigger kept_sections(config, kept)[i]]
            0 <= i < kept_sections(config, kept).len() ==> exists|k: int|
                0 <= k < config.len() && (#[trigger] config[k]).0 == kept_sections(
                    config,
                    kept,
                )[i].0,
    decreases config.len(),
{
    if config.len() > 0 && kept.len() == config.len() {
        let rest = config.drop_last();
        let inner = kept_sections(rest, kept.drop_last());
        let out = kept_sections(config, kept);
        lemma_sorted_prefix(config);
        assert forall|i: int| 0 <= i < rest.len() implies section_sorted((#[trigger] rest[i]).1) by {
            assert(rest[i] == config[i]);
        }
        law_kept_sections(rest, kept.drop_last());
        let last = config[config.len() - 1];
        law_kept_entries(last.1, kept.last());
        assert forall|i: int| 0 <= i < out.len() implies exists|k: int|
            0 <= k < config.len() && (#[trigger] config[k]).0 == (#[trigger] out[i]).0 by {
            if i < inner.len() {
                assert(out[i] == inner[i]);
                let k = choose|k: int| 0 <= k < rest.len() && (#[trigger] rest[k]).0 == inner[i].0;
                assert(config[k] == rest[k]);
            } else {
                assert(config[config.len() - 1].0 == out[i].0);
            }
        }
        assert forall|i: int| 0 <= i < out.len() implies section_sorted((#[trigger] out[i]).1) by {
            if i < inner.len() {
                assert(out[i] == inner[i]);
            }
        }
        assert forall|i: int, j: int|
            #![trigger out[i], out[j]]
            0 <= i < j < out.len() implies text_lt(out[i].0, out[j].0) by {
            assert(out[i] == inner[i]);
            if j < inner.len() {
                assert(out[j] == inner[j]);
            } else {
                let k = choose|k: int| 0 <= k < rest.len() && (#[trigger] rest[k]).0 == inner[i].0;
                assert(config[k] == rest[k]);
                assert(config[config.len() - 1].0 == out[j].0);
            }
        }
    }
}

proof fn lemma_lookup_at<V>(items: Seq<(Text, V)>, i: int)
    requires
        sorted_items::<String, V>(items),
        0 <= i < items.len(),
    ensures
        lookup(items, items[i].0) == Some(items[i].1),
    decreases i,
{
    if i > 0 {
        let rest = items.skip(1);
        assert(text_lt(items[0].0, items[i].0));
        lemma_text_lt_irreflexive(items[i].0);
        assert(rest[i - 1] == items[i]);
        lemma_lookup_at(rest, i - 1);
    }
}

proof fn lemma_lookup_found<V>(items: Seq<(Text, V)>, k: Text) -> (i: int)
    requires
        lookup(items, k) is Some,
    ensures
        0 <= i < items.len(),
        items[i].0 == k,
        lookup(items, k) == Some(items[i].1),
    decreases items.len(),
{
    if items[0].0 == k {
        0
    } else {
        lemma_lookup_found(items.skip(1), k) + 1
    }
}

/// The place among what is kept of an entry that is kept.
proof fn lemma_kept_at<V>(items: Seq<(Text, V)>, kept: Seq<bool>, i: int) -> (j: int)
    requires
        kept.len() == items.len(),
        0 <= i < items.len(),
        kept[i],
    ensures
        0 <= j < kept_entries(items, kept).len(),
        kept_entries(items, kept)[j] == items[i],
    decreases items.len(),
{
    if i == items.len() - 1 {
        kept_entries(items, kept).len() - 1
    } else {
        lemma_kept_at(items.drop_last(), kept.drop_last(), i)
    }
}

/// The place before the filter of an entry that is kept.
proof fn lemma_kept_from<V>(items: Seq<(Text, V)>, kept: Seq<bool>, j: int) -> (i: int)
    requires
        0 <= j < kept_entries(items, kept).len(),
    ensures
        kept.len() == items.len(),
        0 <= i < items.len(),
        kept[i],
        kept_entries(items, kept)[j] == items[i],
    decreases items.len(),
{
    let inner = kept_entries(items.drop_last(), kept.drop_last());
    if j < inner.len() {
        lemma_kept_from(items.drop_last(), kept.drop_last(), j)
    } else {
        items.len() - 1
    }
}

/// The place among what is kept of a section that has something left.
proof fn lemma_section_kept_at(config: ConfigItems, kept: Seq<Seq<bool>>, i: int) -> (j: int)
    requires
        kept.len() == config.len(),
        0 <= i < config.len(),
        kept_entries(config[i].1, kept[i]).len() > 0,
    ensures
        0 <= j < kept_sections(config, kept).len(),
        kept_sections(config, kept)[j] == (config[i].0, kept_entries(config[i].1, kept[i])),
    decreases config.len(),
{
    if i == config.len() - 1 {
        kept_sections(config, kept).len() - 1
    } else {
        lemma_section_kept_at(config.drop_last(), kept.drop_last(), i)
    }
}

/// The place before the filter of a section that has something left.
proof fn lemma_section_kept_from(config: ConfigItems, kept: Seq<Seq<bool>>, j: int) -> (i: int)
    requires
        0 <= j < kept_sections(config, kept).len(),
    ensures
        kept.len() == config.len(),
        0 <= i < config.len(),
        kept_sections(config, kept)[j] == (config[i].0, kept_entries(config[i].1, kept[i])),
    decreases config.len(),
{
    let inner = kept_sections(config.drop_last(), kept.drop_last());
    if j < inner.len() {
        lemma_section_kept_from(config.drop_last(), kept.drop_last(), j)
    } else {
        config.len() - 1
    }
}

/// A value is under its section and name in a filtered configuration exactly
/// where it was there before and the filter keeps it.
pub proof fn law_filter<F: Fn(&BuckconfigKeyRef<'_>) -> bool>(
    filter: F,
    config: ConfigItems,
    out: ConfigItems,
    section: Text,
    key: Text,
)
    requires
        config_in_order(config),
        filtered(filter, config, out),
    ensures
        config_in_order(out),
        match lookup(section_or_empty(config, section), key) {
            Some(value) => exists|keep: bool| #[trigger]
                answers(filter, section, key, keep) && lookup(section_or_empty(out, section), key)
                    == (if keep {
                    Some(value)
                } else {
                    None
                }),
            None => lookup(section_or_empty(out, section), key) is None,
        },
{
    let kept = choose|kept: Seq<Seq<bool>>| #[trigger]
        config_answers(filter, config, kept) && out == kept_sections(config, kept);
    law_kept_sections(config, kept);
    if lookup(config, section) is Some {
        let s = lemma_lookup_found(config, section);
        let items = config[s].1;
        let left = kept_entries(items, kept[s]);
        lemma_lookup_at(config, s);
        assert(section_sorted(items));
        law_kept_entries(items, kept[s]);
        assert(section_answers(filter, section, items, kept[s]));
        if left.len() > 0 {
            let t = lemma_section_kept_at(config, kept, s);
            lemma_lookup_at(out, t);
        } else if lookup(out, section) is Some {
            let t = lemma_lookup_found(out, section);
            let u = lemma_section_kept_from(config, kept, t);
            lemma_lookup_at(config, u);
        }
        assert(section_or_empty(out, section) == left || left.len() == 0);
        if lookup(items, key) is Some {
            let i = lemma_lookup_found(items, key);
            assert(answers(filter, section, key, kept[s][i]));
            if kept[s][i] {
                let j = lemma_kept_at(items, kept[s], i);
                lemma_lookup_at(left, j);
            } else if lookup(left, key) is Some {
                let j = lemma_lookup_found(left, key);
                let k = lemma_kept_from(items, kept[s], j);
                if k < i {
                    assert(text_lt(items[k].0, items[i].0));
                } else {
                    assert(text_lt(items[i].0, items[k].0));
                }
                lemma_text_lt_irreflexive(key);
            }
        } else if lookup(left, key) is Some {
            let j = lemma_lookup_found(left, key);
            let k = lemma_kept_from(items, kept[s], j);
            lemma_lookup_at(items, k);
        }
        if left.len() == 0 && lookup(out, section) is Some {
            let t = lemma_lookup_found(out, section);
            let u = lemma_section_kept_from(config, kept, t);
            if u < s {
                assert(text_lt(config[u].0, config[s].0));
            } else if s < u {
                assert(text_lt(config[s].0, config[u].0));
            }
            lemma_text_lt_irreflexive(section);
        }
    } else if lookup(out, section) is Some {
        let t = lemma_lookup_found(out, section);
        let u = lemma_section_kept_from(config, kept, t);
        lemma_lookup_at(config, u);
    }
}

/// The entries of a section that the filter keeps.
fn filter_section<F: Fn(&BuckconfigKeyRef<'_>) -> bool>(
    filter: &F,
    name: &str,
    section: &LegacyBuckConfigSection,
) -> (r: (Vec<(String, ConfigValue)>, Ghost<Seq<bool>>))
    requires
        forall|k: &BuckconfigKeyRef<'_>| #[trigger] filter.requires((k,)),
    ensures
        section_answers(*filter, name@, section.deep_view(), r.1@),
        r.0.deep_view() == kept_entries(section.deep_view(), r.1@),
        section_sorted(section.deep_view()),
{
    let entries = section.entries();
    let ghost model = entries.deep_view();
    let mut out: Vec<(String, ConfigValue)> = Vec::new();
    let ghost mut kept: Seq<bool> = seq![];
    let mut i: usize = 0;
    assert(out.deep_view() =~= seq![]);
    while i < entries.len()
        invariant
            model == entries.deep_view(),
            0 <= i <= entries@.len(),
            forall|k: &BuckconfigKeyRef<'_>| #[trigger] filter.requires((k,)),
            section_answers(*filter, name@, model.take(i as int), kept),
            out.deep_view() == kept_entries(model.take(i as int), kept),
        decreases entries.len() - i,
    {
        let ghost before = out.deep_view();
        let key = BuckconfigKeyRef { section: name, property: entries[i].0.as_str() };
        let keep = filter(&key);
        assert(model[i as int] == (entries@[i as int].0@, entries@[i as int].1.deep_view()));
        assert(answers(*filter, name@, model[i as int].0, keep));
        proof {
            let t = model.take(i + 1);
            let was = kept;
            kept = kept.push(keep);
            assert(t.drop_last() =~= model.take(i as int));
            assert(t.last() == model[i as int]);
            assert(kept.drop_last() =~= was);
            assert forall|j: int| 0 <= j < t.len() implies answers(
                *filter,
                name@,
                t[j].0,
                #[trigger] kept[j],
            ) by {
                if j < i {
                    assert(kept[j] == was[j]);
                    assert(t[j] == model.take(i as int)[j]);
                }
            }
        }
        if keep {
            out.push((entries[i].0.clone(), entries[i].1.duplicate()));
            assert(out.deep_view() =~= before.push(model[i as int]));
        }
        i += 1;
    }
    assert(model.take(i as int) =~= model);
    (out, Ghost(kept))
}

/// The configuration with the values that the filter keeps, without the sections
/// that have none left.
pub fn filter_config<F: Fn(&BuckconfigKeyRef<'_>) -> bool>(
    config: &LegacyBuckConfig,
    filter: &F,
) -> (r: LegacyBuckConfig)
    requires
        forall|k: &BuckconfigKeyRef<'_>| #[trigger] filter.requires((k,)),
    ensures
        filtered(*filter, config.deep_view(), r.deep_view()),
{
    let sections = config.sections();
    let ghost model = sections.deep_view();
    let mut out: Vec<(String, LegacyBuckConfigSection)> = Vec::new();
    let ghost mut kept: Seq<Seq<bool>> = seq![];
    let mut i: usize = 0;
    assert(out.deep_view() =~= seq![]);
    while i < sections.len()
        invariant
            model == sections.deep_view(),
            0 <= i <= sections@.len(),
            forall|k: &BuckconfigKeyRef<'_>| #[trigger] filter.requires((k,)),
            config_answers(*filter, model.take(i as int), kept),
            out.deep_view() == kept_sections(model.take(i as int), kept),
            forall|j: int| 0 <= j < i ==> section_sorted((#[trigger] model[j]).1),
        decreases sections.len() - i,
    {
        let ghost before = out.deep_view();
        let (entries, answers) = filter_section(filter, sections[i].0.as_str(), sections[i].1);
        assert(model[i as int] == (
            sections@[i as int].0@,
            sections@[i as int].1.deep_view(),
        ));
        proof {
            let t = model.take(i + 1);
            let was = kept;
            kept = kept.push(answers@);
            assert(t.drop_last() =~= model.take(i as int));
            assert(t.last() == model[i as int]);
            assert(kept.drop_last() =~= was);
            assert forall|j: int| 0 <= j < t.len() implies section_answers(
                *filter,
                t[j].0,
                t[j].1,
                #[trigger] kept[j],
            ) by {
                if j < i {
                    assert(kept[j] == was[j]);
                    assert(t[j] == model.take(i as int)[j]);
                }
            }
            law_kept_entries(model[i as int].1, answers@);
            law_put_entries_sorted(entries.deep_view());
            assert(entries.deep_view().len() == entries@.len());
        }
        if entries.len() > 0 {
            let section = LegacyBuckConfigSection::from_entries(entries);
            let ghost pair = (model[i as int].0, section.deep_view());
            out.push((sections[i].0.clone(), section));
            assert(out.deep_view() =~= before.push(pair));
        }
        i += 1;
    }
    assert(model.take(i as int) =~= model);
    proof {
        law_kept_sections(model, kept);
        law_put_entries_sorted(out.deep_view());
    }
    LegacyBuckConfig::from_sections(out)
}

impl LegacyBuckConfig {
    /// The configuration with the values that the filter keeps, without the
    /// sections that have none left.
    pub fn filter_values<F: Fn(&BuckconfigKeyRef<'_>) -> bool>(&self, filter: F) -> (r: Self)
        requires
            forall|k: &BuckconfigKeyRef<'_>| #[trigger] filter.requires((k,)),
        ensures
            filtered(filter, self.deep_view(), r.deep_view()),
    {
        filter_config(self, &filter)
    }
}

} // verus!
