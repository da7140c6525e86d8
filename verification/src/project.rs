//! The rules by which the description of a project becomes crates to load.
//!
//! Reading the description and writing to the database are the business of the
//! program around this library. Here stand the decisions in between, on plain
//! values: which crate is the core crate, which dependencies of a component are
//! components and which are plugins, which main files a crate has besides
//! `lib`, and what the generated root file of such a crate says.

use vstd::prelude::*;
use vstd::string::StringExecFns;

pub mod plugins;

verus! {

/// The name of the crate that holds the core library.
pub const CORELIB_CRATE_NAME: &'static str = "core";

/// The stem of the main file that a crate has unless it names others.
pub const DEFAULT_MAIN_FILE_STEM: &'static str = "lib";

/// The kind of the targets whose compilation units hold no crates to load.
pub const PLUGIN_TARGET_KIND: &'static str = "cairo-plugin";

/// The name of the package whose dependants get the test runner's stand-in plugin.
pub const SNFORGE_STD: &'static str = "snforge_std";

/// The texts of a list of strings.
pub open spec fn texts(strings: Seq<String>) -> Seq<Seq<char>> {
    strings.map_values(|s: String| s@)
}

/// The texts of a list of optional strings.
pub open spec fn optional_texts(strings: Seq<Option<String>>) -> Seq<Option<Seq<char>>> {
    strings.map_values(
        |s: Option<String>|
            match s {
                Some(s) => Some(s@),
                None => None,
            },
    )
}

/// Whether a package of this name, if there is one, is the core library.
pub fn is_core(package_name: Option<&String>) -> (core: bool)
    ensures
        core == (package_name matches Some(name) && name@ == CORELIB_CRATE_NAME@),
{
    match package_name {
        Some(name) => *name == String::from_str(CORELIB_CRATE_NAME),
        None => false,
    }
}

/// Whether the compilation unit of a target of this kind is passed over.
pub fn is_plugin_target(kind: &String) -> (plugin: bool)
    ensures
        plugin == (kind@ == PLUGIN_TARGET_KIND@),
{
    *kind == String::from_str(PLUGIN_TARGET_KIND)
}

/// Only the core crate goes without a discriminator: a crate is well
/// described if it is the core crate or has a discriminator, and not both.
pub fn discriminator_fits(name: &String, discriminator: &Option<String>) -> (fits: bool)
    ensures
        fits == ((name@ == CORELIB_CRATE_NAME@) != (discriminator is Some)),
{
    let core = *name == String::from_str(CORELIB_CRATE_NAME);
    core != discriminator.is_some()
}

/// The main files of a crate whose source path has this stem: none to name
/// where it is `lib`, else that one.
pub fn custom_main_file_stems(file_stem: &String) -> (stems: Option<Vec<String>>)
    ensures
        stems is None <==> file_stem@ == DEFAULT_MAIN_FILE_STEM@,
        stems matches Some(stems) ==> texts(stems@) == seq![file_stem@],
{
    if *file_stem == String::from_str(DEFAULT_MAIN_FILE_STEM) {
        None
    } else {
        let mut stems: Vec<String> = Vec::new();
        stems.push(file_stem.clone());
        proof {
            assert(texts(stems@) =~= seq![file_stem@]);
        }
        Some(stems)
    }
}

/// The experimental features of the language that a package may switch on.
#[derive(Debug, Clone, Copy, PartialEq, Eq, Structural)]
pub struct ExperimentalFeatures {
    pub negative_impls: bool,
    pub associated_item_constraints: bool,
    pub coupons: bool,
    pub user_defined_inline_macros: bool,
}

/// Whether `name` is among `names`.
fn names_contain(names: &Vec<String>, name: &str) -> (found: bool)
    ensures
        found == texts(names@).contains(name@),
{
    let wanted = String::from_str(name);
    let mut i: usize = 0;
    while i < names.len()
        invariant
            i <= names.len(),
            wanted@ == name@,
            forall|k: int| 0 <= k < i ==> texts(names@)[k] != name@,
        decreases names.len() - i,
    {
        if names[i] == wanted {
            proof {
                assert(texts(names@)[i as int] == name@);
            }
            return true;
        }
        i += 1;
    }
    false
}

/// Whether a component with dependencies of these names depends on the test
/// runner's library.
pub fn depends_on_snforge_std(dependency_names: &Vec<String>) -> (depends: bool)
    ensures
        depends == texts(dependency_names@).contains(SNFORGE_STD@),
{
    names_contain(dependency_names, SNFORGE_STD)
}

/// The features that a package switches on: each one that its list names.
pub fn scarb_package_experimental_features(features: &Vec<String>) -> (switched:
    ExperimentalFeatures)
    ensures
        switched.negative_impls == texts(features@).contains("negative_impls"@),
        switched.associated_item_constraints == texts(features@).contains(
            "associated_item_constraints"@,
        ),
        switched.coupons == texts(features@).contains("coupons"@),
        switched.user_defined_inline_macros == texts(features@).contains(
            "user_defined_inline_macros"@,
        ),
{
    ExperimentalFeatures {
        negative_impls: names_contain(features, "negative_impls"),
        associated_item_constraints: names_contain(features, "associated_item_constraints"),
        coupons: names_contain(features, "coupons"),
        user_defined_inline_macros: names_contain(features, "user_defined_inline_macros"),
    }
}

/// The position of the first entry that is this identifier.
pub open spec fn first_with(ids: Seq<Option<Seq<char>>>, id: Seq<char>) -> Option<int>
    decreases ids.len(),
{
    if ids.len() == 0 {
        None
    } else if ids.first() == Some(id) {
        Some(0)
    } else {
        match first_with(ids.drop_first(), id) {
            Some(at) => Some(at + 1),
            None => None,
        }
    }
}

/// The position of the first entry that is this identifier.
fn position_of_id(ids: &Vec<Option<String>>, id: &String) -> (at: Option<usize>)
    ensures
        match at {
            Some(at) => first_with(optional_texts(ids@), id@) == Some(at as int) && at < ids.len(),
            None => first_with(optional_texts(ids@), id@) is None,
        },
{
    let ghost all = optional_texts(ids@);
    let mut i: usize = 0;
    proof {
        assert(all.skip(0) =~= all);
    }
    while i < ids.len()
        invariant
            i <= ids.len(),
            all == optional_texts(ids@),
            first_with(all, id@) == match first_with(all.skip(i as int), id@) {
                Some(at) => Some(at + i),
                None => None,
            },
        decreases ids.len() - i,
    {
        proof {
            assert(all.skip(i as int).drop_first() =~= all.skip(i + 1));
            assert(all.skip(i as int).first() == all[i as int]);
        }
        let hit = match &ids[i] {
            Some(candidate) => *candidate == *id,
            None => false,
        };
        if hit {
            return Some(i);
        }
        i += 1;
    }
    None
}

/// Where a dependency of a component leads.
#[derive(Debug, Clone, Copy, PartialEq, Eq, Structural)]
pub enum Dependency {
    /// To the component at this position of the compilation unit.
    Component(usize),
    /// To the component at this position, although a plugin goes by the same
    /// identifier: the component wins.
    Ambiguous(usize),
    /// To the plugin at this position of the compilation unit.
    Plugin(usize),
    /// To neither: the description names it and does not hold it.
    Missing,
}

/// Where the dependency with this identifier leads: to the first component
/// that has it, be there a plugin with it or not; else to the first plugin
/// that has it.
pub open spec fn resolved_dependency(
    components: Seq<Option<Seq<char>>>,
    plugins: Seq<Option<Seq<char>>>,
    id: Seq<char>,
) -> Dependency {
    match (first_with(components, id), first_with(plugins, id)) {
        (Some(at), None) => Dependency::Component(at as usize),
        (Some(at), Some(_)) => Dependency::Ambiguous(at as usize),
        (None, Some(at)) => Dependency::Plugin(at as usize),
        (None, None) => Dependency::Missing,
    }
}

/// Resolves each dependency of a component against the components and the
/// plugins of its compilation unit, by identifier. `components` holds the
/// identifier of each component, `plugins` the identifier under which each
/// plugin is depended on.
pub fn resolve_dependencies(
    components: &Vec<Option<String>>,
    plugins: &Vec<Option<String>>,
    dependencies: &Vec<String>,
) -> (resolved: Vec<Dependency>)
    ensures
        resolved.len() == dependencies.len(),
        forall|k: int|
            0 <= k < dependencies.len() ==> #[trigger] resolved@[k] == resolved_dependency(
                optional_texts(components@),
                optional_texts(plugins@),
                dependencies@[k]@,
            ),
{
    let mut resolved: Vec<Dependency> = Vec::new();
    let mut i: usize = 0;
    while i < dependencies.len()
        invariant
            i <= dependencies.len(),
            resolved.len() == i,
            forall|k: int|
                0 <= k < i ==> #[trigger] resolved@[k] == resolved_dependency(
                    optional_texts(components@),
                    optional_texts(plugins@),
                    dependencies@[k]@,
                ),
        decreases dependencies.len() - i,
    {
        let id = &dependencies[i];
        let regular = position_of_id(components, id);
        let plugin = position_of_id(plugins, id);
        let target = match regular {
            Some(at) => match plugin {
                Some(_) => Dependency::Ambiguous(at),
                None => Dependency::Component(at),
            },
            None => match plugin {
                Some(at) => Dependency::Plugin(at),
                None => Dependency::Missing,
            },
        };
        resolved.push(target);
        i += 1;
    }
    resolved
}

/// What the description says of a package, as far as components are matched
/// to packages: its identifier and the names of its targets.
#[derive(Debug)]
pub struct PackageTargets {
    pub id: String,
    pub targets: Vec<String>,
}

/// A [`PackageTargets`] with its texts as sequences of characters.
pub struct PackageTargetsView {
    pub id: Seq<char>,
    pub targets: Seq<Seq<char>>,
}

impl View for PackageTargets {
    type V = PackageTargetsView;

    open spec fn view(&self) -> PackageTargetsView {
        PackageTargetsView { id: self.id@, targets: texts(self.targets@) }
    }
}

/// The views of a list of packages.
pub open spec fn package_targets_view(packages: Seq<PackageTargets>) -> Seq<PackageTargetsView> {
    packages.map_values(|p: PackageTargets| p@)
}

/// The position of the first item that is wanted.
pub open spec fn first_where<T>(items: Seq<T>, wanted: spec_fn(T) -> bool) -> Option<int>
    decreases items.len(),
{
    if items.len() == 0 {
        None
    } else if wanted(items.first()) {
        Some(0)
    } else {
        match first_where(items.drop_first(), wanted) {
            Some(at) => Some(at + 1),
            None => None,
        }
    }
}

/// The package of a component: the first package with the identifier that the
/// component names. Where there is none and the component is the main one of
/// its compilation unit, the first package that has a target of the unit's
/// target name stands in.
pub open spec fn package_of_component(
    packages: Seq<PackageTargetsView>,
    component_package: Seq<char>,
    unit_package: Seq<char>,
    unit_target: Seq<char>,
) -> Option<int> {
    match first_where(packages, |p: PackageTargetsView| p.id == component_package) {
        Some(at) => Some(at),
        None => if unit_package == component_package {
            first_where(packages, |p: PackageTargetsView| p.targets.contains(unit_target))
        } else {
            None
        },
    }
}

/// The position of the package of a component.
pub fn find_package_of_component(
    packages: &Vec<PackageTargets>,
    component_package: &String,
    unit_package: &String,
    unit_target: &String,
) -> (at: Option<usize>)
    ensures
        match at {
            Some(at) => at < packages.len() && package_of_component(
                package_targets_view(packages@),
                component_package@,
                unit_package@,
                unit_target@,
            ) == Some(at as int),
            None => package_of_component(
                package_targets_view(packages@),
                component_package@,
                unit_package@,
                unit_target@,
            ) is None,
        },
{
    let ghost all = package_targets_view(packages@);
    let ghost by_id = |p: PackageTargetsView| p.id == component_package@;
    let ghost by_target = |p: PackageTargetsView| p.targets.contains(unit_target@);
    let mut i: usize = 0;
    proof {
        assert(all.skip(0) =~= all);
    }
    while i < packages.len()
        invariant
            i <= packages.len(),
            all == package_targets_view(packages@),
            by_id == |p: PackageTargetsView| p.id == component_package@,
            first_where(all, by_id) == match first_where(all.skip(i as int), by_id) {
                Some(at) => Some(at + i),
                None => None,
            },
        decreases packages.len() - i,
    {
        proof {
            assert(all.skip(i as int).drop_first() =~= all.skip(i + 1));
            assert(all.skip(i as int).first() == packages@[i as int]@);
        }
        if packages[i].id == *component_package {
            return Some(i);
        }
        i += 1;
    }
    if !(*unit_package == *component_package) {
        return None;
    }
    let mut j: usize = 0;
    while j < packages.len()
        invariant
            j <= packages.len(),
            all == package_targets_view(packages@),
            by_id == |p: PackageTargetsView| p.id == component_package@,
            by_target == |p: PackageTargetsView| p.targets.contains(unit_target@),
            unit_package@ == component_package@,
            first_where(all, by_id) is None,
            first_where(all, by_target) == match first_where(all.skip(j as int), by_target) {
                Some(at) => Some(at + j),
                None => None,
            },
        decreases packages.len() - j,
    {
        proof {
            assert(all.skip(j as int).drop_first() =~= all.skip(j + 1));
            assert(all.skip(j as int).first() == packages@[j as int]@);
        }
        if names_contain(&packages[j].targets, unit_target.as_str()) {
            return Some(j);
        }
        j += 1;
    }
    None
}

/// One condition of conditional compilation.
#[derive(Debug, PartialEq, Eq)]
pub enum CfgEntry {
    /// A bare name.
    Name(String),
    /// A key with its value.
    KeyValue(String, String),
}

/// A [`CfgEntry`] with its texts as sequences of characters.
pub enum CfgEntryView {
    Name(Seq<char>),
    KeyValue(Seq<char>, Seq<char>),
}

impl View for CfgEntry {
    type V = CfgEntryView;

    open spec fn view(&self) -> CfgEntryView {
        match self {
            CfgEntry::Name(name) => CfgEntryView::Name(name@),
            CfgEntry::KeyValue(key, value) => CfgEntryView::KeyValue(key@, value@),
        }
    }
}

/// The conditions that are added to those of a component, so that its test
/// code is analysed: for a member of the workspace `test` and `target: test`,
/// for any other component `target: test` alone, which lets the test items of
/// a dependency be found when a member imports them.
pub open spec fn test_conditions(workspace_member: bool) -> Seq<CfgEntryView> {
    if workspace_member {
        seq![CfgEntryView::Name("test"@), CfgEntryView::KeyValue("target"@, "test"@)]
    } else {
        seq![CfgEntryView::KeyValue("target"@, "test"@)]
    }
}

/// The conditions that are added to those of a component.
pub fn test_cfg(workspace_member: bool) -> (conditions: Vec<CfgEntry>)
    ensures
        conditions@.map_values(|c: CfgEntry| c@) == test_conditions(workspace_member),
{
    let mut conditions: Vec<CfgEntry> = Vec::new();
    if workspace_member {
        conditions.push(CfgEntry::Name(String::from_str("test")));
    }
    conditions.push(CfgEntry::KeyValue(String::from_str("target"), String::from_str("test")));
    proof {
        assert(conditions@.map_values(|c: CfgEntry| c@) =~= test_conditions(workspace_member));
    }
    conditions
}

/// What the target of a compilation unit says of its group.
#[derive(Debug, PartialEq, Eq)]
pub enum GroupId {
    /// Nothing: the target belongs to no group.
    Absent,
    /// Something that is not a text.
    NotText,
    /// The name of the group.
    Named(String),
}

/// Where the crate of a component is kept until all units are read.
#[derive(Debug, Clone, Copy, PartialEq, Eq, Structural)]
pub enum Placement {
    /// Under the identifier of its component, where the crate of a later unit
    /// with the same identifier replaces it.
    ByComponent,
    /// With the other main crates of its group, to be merged with them.
    InGroup,
}

/// The crate of a component goes to a group if the component is the main one
/// of its unit, the target names a group, and the crate has main files of its
/// own. Every other crate is kept under its component.
pub fn placement(main_component: bool, group: &GroupId, custom_main_files: bool) -> (place:
    Placement)
    ensures
        place == if main_component && group is Named && custom_main_files {
            Placement::InGroup
        } else {
            Placement::ByComponent
        },
{
    let named = match group {
        GroupId::Named(_) => true,
        GroupId::Absent => false,
        GroupId::NotText => false,
    };
    if main_component && named && custom_main_files {
        Placement::InGroup
    } else {
        Placement::ByComponent
    }
}

/// The lists in a row.
pub open spec fn concatenated(lists: Seq<Seq<Seq<char>>>) -> Seq<Seq<char>>
    decreases lists.len(),
{
    if lists.len() == 0 {
        Seq::empty()
    } else {
        concatenated(lists.drop_last()) + lists.last()
    }
}

/// The texts of a list of lists of strings.
pub open spec fn nested_texts(lists: Seq<Vec<String>>) -> Seq<Seq<Seq<char>>> {
    lists.map_values(|list: Vec<String>| texts(list@))
}

/// The main files of a merged crate: those of the crates of its group, one
/// crate after the other.
pub fn merged_main_file_stems(stems: &Vec<Vec<String>>) -> (merged: Vec<String>)
    ensures
        texts(merged@) == concatenated(nested_texts(stems@)),
{
    let ghost all = nested_texts(stems@);
    let mut merged: Vec<String> = Vec::new();
    let mut i: usize = 0;
    proof {
        assert(all.take(0) =~= Seq::empty());
        assert(texts(merged@) =~= concatenated(all.take(0)));
    }
    while i < stems.len()
        invariant
            i <= stems.len(),
            all == nested_texts(stems@),
            texts(merged@) == concatenated(all.take(i as int)),
        decreases stems.len() - i,
    {
        let ghost before = texts(merged@);
        let list = &stems[i];
        let mut j: usize = 0;
        proof {
            assert(texts(list@).take(0) =~= Seq::empty());
            assert(texts(merged@) =~= before + texts(list@).take(0));
        }
        while j < list.len()
            invariant
                j <= list.len(),
                texts(merged@) == before + texts(list@).take(j as int),
            decreases list.len() - j,
        {
            let ghost so_far = merged@;
            merged.push(list[j].clone());
            proof {
                assert(texts(merged@) =~= texts(so_far).push(list@[j as int]@));
                assert(texts(list@).take(j + 1) =~= texts(list@).take(j as int).push(list@[j as int]@));
                assert(texts(merged@) =~= before + texts(list@).take(j + 1));
            }
            j += 1;
        }
        proof {
            assert(texts(list@).take(list.len() as int) =~= texts(list@));
            assert(all.take(i + 1).drop_last() =~= all.take(i as int));
            assert(all.take(i + 1).last() == texts(list@));
        }
        i += 1;
    }
    proof {
        assert(all.take(stems.len() as int) =~= all);
    }
    merged
}

/// What the generated root file of a crate with these main files says: one
/// module declaration for each stem, a line each.
pub open spec fn wrapper_lib_text(stems: Seq<Seq<char>>) -> Seq<char>
    decreases stems.len(),
{
    if stems.len() == 0 {
        Seq::empty()
    } else if stems.len() == 1 {
        "mod "@ + stems[0] + ";"@
    } else {
        wrapper_lib_text(stems.drop_last()) + "\n"@ + "mod "@ + stems.last() + ";"@
    }
}

/// The content of the root file that stands in for a missing `lib`: it
/// declares each main file of the crate as a module.
pub fn wrapper_lib_content(file_stems: &Vec<String>) -> (content: String)
    ensures
        content@ == wrapper_lib_text(texts(file_stems@)),
{
    let ghost all = texts(file_stems@);
    let mut content = String::new();
    let mut i: usize = 0;
    proof {
        assert(all.take(0) =~= Seq::empty());
    }
    while i < file_stems.len()
        invariant
            i <= file_stems.len(),
            all == texts(file_stems@),
            content@ == wrapper_lib_text(all.take(i as int)),
        decreases file_stems.len() - i,
    {
        proof {
            assert(all.take(i + 1).drop_last() =~= all.take(i as int));
            assert(all.take(i + 1).last() == file_stems@[i as int]@);
            assert(all.take(i + 1)[0] == all[0]);
        }
        if i > 0 {
            content.append("\n");
        }
        content.append("mod ");
        content.append(file_stems[i].as_str());
        content.append(";");
        proof {
            assert(content@ =~= wrapper_lib_text(all.take(i + 1)));
        }
        i += 1;
    }
    proof {
        assert(all.take(file_stems.len() as int) =~= all);
    }
    content
}

} // verus!
