//! The parts that a configuration is reported in.

use vstd::prelude::*;
use vstd::string::*;
use crate::external_data::{ExternalBuckconfigData, ExternalPathModel};
use crate::paths::{below, join_below};
use crate::text::Text;

verus! {

/// The name of a cell's file of local settings.
pub const DOT_BUCKCONFIG_LOCAL: &'static str = ".buckconfig.local";

/// A configuration file with the values that were read from it.
#[derive(Debug)]
pub struct GlobalExternalConfig<V> {
    pub values: Vec<V>,
    pub origin_path: String,
}

/// A part of a configuration: a file, or an argument of the command line.
#[derive(Debug)]
pub enum BuckconfigComponent<V, A> {
    GlobalExternalConfigFile(GlobalExternalConfig<V>),
    Argument(A),
}

/// The model of [`BuckconfigComponent`].
pub enum ComponentModel<V, A> {
    GlobalExternalConfigFile { values: Seq<V>, origin_path: Text },
    Argument(A),
}

impl<V, A> View for BuckconfigComponent<V, A> {
    type V = ComponentModel<V, A>;

    open spec fn view(&self) -> ComponentModel<V, A> {
        match *self {
            BuckconfigComponent::GlobalExternalConfigFile(
                file,
            ) => ComponentModel::GlobalExternalConfigFile {
                values: file.values@,
                origin_path: file.origin_path@,
            },
            BuckconfigComponent::Argument(arg) => ComponentModel::Argument(arg),
        }
    }
}

/// The components of a list, by model.
pub open spec fn components<V, A>(list: Seq<BuckconfigComponent<V, A>>) -> Seq<
    ComponentModel<V, A>,
> {
    list.map_values(|c: BuckconfigComponent<V, A>| c@)
}

/// The components of the files outside the project, in order, with the values of
/// each in the place of its file.
pub open spec fn external_components<V, A>(
    files: Seq<ExternalPathModel>,
    values: Seq<Seq<V>>,
) -> Seq<ComponentModel<V, A>> {
    Seq::new(
        files.len(),
        |i: int|
            ComponentModel::GlobalExternalConfigFile {
                values: values[i],
                origin_path: files[i].origin_path.text(),
            },
    )
}

/// The components of the cells' files of local settings, for the cells in order.
/// A cell is its path and the values of its file, where the file could be read:
/// one without any values has no component.
pub open spec fn local_components<V, A>(cells: Seq<(Text, Option<Seq<V>>)>) -> Seq<
    ComponentModel<V, A>,
>
    decreases cells.len(),
{
    if cells.len() == 0 {
        Seq::empty()
    } else {
        let before = local_components(cells.drop_last());
        match cells.last().1 {
            Some(values) => if values.len() == 0 {
                before
            } else {
                before.push(
                    ComponentModel::GlobalExternalConfigFile {
                        values,
                        origin_path: below(cells.last().0, DOT_BUCKCONFIG_LOCAL@),
                    },
                )
            },
            None => before,
        }
    }
}

/// The cells of a list with the values of their files, by model.
pub open spec fn cell_values<V>(cells: Seq<(String, Option<Vec<V>>)>) -> Seq<
    (Text, Option<Seq<V>>),
> {
    cells.map_values(
        |c: (String, Option<Vec<V>>)|
            (
                c.0@,
                match c.1 {
                    Some(values) => Some(values@),
                    None => None,
                },
            ),
    )
}

/// The components of the cells' files of local settings.
pub fn get_local_config_components<V, A>(cells: Vec<(String, Option<Vec<V>>)>) -> (r: Vec<
    BuckconfigComponent<V, A>,
>)
    ensures
        components(r@) == local_components::<V, A>(cell_values(cells@)),
{
    let ghost all = cell_values(cells@);
    let mut out: Vec<BuckconfigComponent<V, A>> = Vec::new();
    assert(components(out@) =~= local_components::<V, A>(all.take(0)));
    for cell in it: cells
        invariant
            all == cell_values(it.seq()),
            components(out@) == local_components::<V, A>(all.take(it.index())),
    {
        let ghost i = it.index();
        assert(all[i] == cell_values(it.seq())[i]);
        assert(all.take(i + 1).drop_last() =~= all.take(i));
        let (path, values) = cell;
        if let Some(values) = values {
            if values.len() > 0 {
                let ghost before = out@;
                let component = BuckconfigComponent::GlobalExternalConfigFile(
                    GlobalExternalConfig {
                        values,
                        origin_path: join_below(path.as_str(), DOT_BUCKCONFIG_LOCAL),
                    },
                );
                out.push(component);
                assert(components(out@) =~= components(before).push(component@));
            }
        }
    }
    assert(all.take(all.len() as int) =~= all);
    out
}

impl ExternalBuckconfigData {
    /// The parts of a configuration: the files outside the project with `values`,
    /// what was read of each, then the cells' files of local settings, then the
    /// arguments.
    pub fn get_buckconfig_components<V, A>(
        &self,
        values: Vec<Vec<V>>,
        cells: Vec<(String, Option<Vec<V>>)>,
        args: Vec<A>,
    ) -> (r: Vec<BuckconfigComponent<V, A>>)
        requires
            values@.len() == self.external_path_configs@.len(),
        ensures
            components(r@) == external_components::<V, A>(
                self.deep_view().external_path_configs,
                values@.map_values(|v: Vec<V>| v@),
            ) + local_components::<V, A>(cell_values(cells@)) + args@.map_values(
                |a: A| ComponentModel::<V, A>::Argument(a),
            ),
    {
        let ghost files = self.deep_view().external_path_configs;
        let ghost read = values@.map_values(|v: Vec<V>| v@);
        let ghost external = external_components::<V, A>(files, read);
        let mut out: Vec<BuckconfigComponent<V, A>> = Vec::new();
        assert(components(out@) =~= external.take(0));
        for file_values in it: values
            invariant
                it.seq().len() == self.external_path_configs@.len(),
                files == self.external_path_configs.deep_view(),
                files.len() == self.external_path_configs@.len(),
                read == it.seq().map_values(|v: Vec<V>| v@),
                external == external_components::<V, A>(files, read),
                out@.len() == it.index(),
                components(out@) == external.take(it.index()),
        {
            let ghost before = out@;
            let ghost i = it.index();
            let file = &self.external_path_configs[out.len()];
            assert(files[i] == file.deep_view());
            let component = BuckconfigComponent::GlobalExternalConfigFile(
                GlobalExternalConfig {
                    values: file_values,
                    origin_path: file.origin_path.display().to_owned(),
                },
            );
            out.push(component);
            assert(components(out@) =~= components(before).push(component@));
            assert(component@ == external[i]);
            assert(external.take(i + 1) =~= external.take(i).push(external[i]));
        }
        assert(external.take(external.len() as int) =~= external);
        let mut local = get_local_config_components::<V, A>(cells);
        let ghost tail = local@;
        let ghost head = out@;
        out.append(&mut local);
        assert(components(out@) =~= components(head) + components(tail));
        let ghost named = args@.map_values(|a: A| ComponentModel::<V, A>::Argument(a));
        let ghost start = components(out@);
        assert(components(out@) =~= start + named.take(0));
        for arg in it: args
            invariant
                named == it.seq().map_values(|a: A| ComponentModel::<V, A>::Argument(a)),
                components(out@) == start + named.take(it.index()),
        {
            let ghost before = out@;
            let ghost i = it.index();
            let component = BuckconfigComponent::Argument(arg);
            out.push(component);
            assert(components(out@) =~= components(before).push(component@));
            assert(component@ == named[i]);
            assert(start + named.take(i + 1) =~= (start + named.take(i)).push(named[i]));
        }
        assert(named.take(named.len() as int) =~= named);
        out
    }
}

/// The files of local settings count for the cells whose file could be read and holds
/// anything, in the order of the cells and each with its own path.
pub proof fn law_local_components<V, A>(
    cells: Seq<(Text, Option<Seq<V>>)>,
    path: Text,
    values: Option<Seq<V>>,
)
    ensures
        values is None || values->0.len() == 0 ==> local_components::<V, A>(
            cells.push((path, values)),
        ) == local_components::<V, A>(cells),
        values is Some && values->0.len() > 0 ==> local_components::<V, A>(
            cells.push((path, values)),
        ) == local_components::<V, A>(cells).push(
            ComponentModel::GlobalExternalConfigFile {
                values: values->0,
                origin_path: below(path, ".buckconfig.local"@),
            },
        ),
{
    assert(cells.push((path, values)).drop_last() =~= cells);
}

} // verus!
