//! The compiler plugins that a crate asks for, as far as they are built in.

use vstd::prelude::*;
use vstd::string::StringExecFns;

verus! {

/// The built-in plugins of the compiler that are known here.
#[derive(Debug, Clone, Copy, PartialEq, Eq, Structural, Hash, PartialOrd, Ord)]
pub enum BuiltinPlugin {
    AssertMacros,
    Executable,
    CairoTest,
    Starknet,
    /// Stands in for a procedural macro package, so that the attributes it
    /// would handle are not reported as unknown.
    SnforgeScarbPlugin,
}

/// What project metadata says of a package: its identifier and its name.
#[derive(Debug)]
pub struct PackageSummary {
    pub id: String,
    pub name: String,
}

/// What project metadata says of a plugin of a compilation unit: the
/// identifier of its package, and whether the package is marked as built in.
#[derive(Debug)]
pub struct PluginSummary {
    pub package: String,
    pub builtin: bool,
}

/// A [`PackageSummary`] with its texts as sequences of characters.
pub struct PackageSummaryView {
    pub id: Seq<char>,
    pub name: Seq<char>,
}

/// A [`PluginSummary`] with its text as a sequence of characters.
pub struct PluginSummaryView {
    pub package: Seq<char>,
    pub builtin: bool,
}

impl View for PackageSummary {
    type V = PackageSummaryView;

    open spec fn view(&self) -> PackageSummaryView {
        PackageSummaryView { id: self.id@, name: self.name@ }
    }
}

impl View for PluginSummary {
    type V = PluginSummaryView;

    open spec fn view(&self) -> PluginSummaryView {
        PluginSummaryView { package: self.package@, builtin: self.builtin }
    }
}

/// The views of a list of packages.
pub open spec fn packages_view(packages: Seq<PackageSummary>) -> Seq<PackageSummaryView> {
    packages.map_values(|p: PackageSummary| p@)
}

/// The views of a list of plugins.
pub open spec fn plugins_view(plugins: Seq<PluginSummary>) -> Seq<PluginSummaryView> {
    plugins.map_values(|p: PluginSummary| p@)
}

/// Whether `pattern` occurs in `text` as a run of consecutive characters.
pub open spec fn occurs_in(pattern: Seq<char>, text: Seq<char>) -> bool {
    exists|i: int|
        0 <= i && i + pattern.len() <= text.len() && #[trigger] text.subrange(
            i,
            i + pattern.len(),
        ) == pattern
}

/// `str::contains` with a string as the pattern: whether the pattern matches
/// a sub-slice of the text.
#[verifier::external_body]
fn text_contains(text: &str, pattern: &str) -> (found: bool)
    ensures
        found == occurs_in(pattern@, text@),
{
    text.contains(pattern)
}

/// The name of the first package with this identifier.
pub open spec fn package_name(packages: Seq<PackageSummaryView>, id: Seq<char>) -> Option<
    Seq<char>,
>
    decreases packages.len(),
{
    if packages.len() == 0 {
        None
    } else if packages.first().id == id {
        Some(packages.first().name)
    } else {
        package_name(packages.drop_first(), id)
    }
}

/// The built-in plugin that a package of this name provides.
pub open spec fn plugin_named(name: Seq<char>) -> Option<BuiltinPlugin> {
    if name == "assert_macros"@ {
        Some(BuiltinPlugin::AssertMacros)
    } else if name == "cairo_execute"@ {
        Some(BuiltinPlugin::Executable)
    } else if name == "cairo_test"@ {
        Some(BuiltinPlugin::CairoTest)
    } else if name == "starknet"@ {
        Some(BuiltinPlugin::Starknet)
    } else {
        None
    }
}

/// The plugin that the metadata describes: none where its package is not
/// listed; the test runner's stand-in where the package name holds
/// `snforge_scarb_plugin`, built in or not; otherwise the plugin of that name,
/// if the package is marked as built in.
pub open spec fn described_plugin(
    packages: Seq<PackageSummaryView>,
    plugin: PluginSummaryView,
) -> Option<BuiltinPlugin> {
    match package_name(packages, plugin.package) {
        None => None,
        Some(name) => if occurs_in("snforge_scarb_plugin"@, name) {
            Some(BuiltinPlugin::SnforgeScarbPlugin)
        } else if !plugin.builtin {
            None
        } else {
            plugin_named(name)
        },
    }
}

/// The plugins that a list of plugin descriptions yields, in order, those
/// that describe no known plugin left out.
pub open spec fn described_plugins(
    packages: Seq<PackageSummaryView>,
    plugins: Seq<PluginSummaryView>,
) -> Seq<BuiltinPlugin>
    decreases plugins.len(),
{
    if plugins.len() == 0 {
        Seq::empty()
    } else {
        let earlier = described_plugins(packages, plugins.drop_last());
        match described_plugin(packages, plugins.last()) {
            Some(plugin) => earlier.push(plugin),
            None => earlier,
        }
    }
}

/// The position of the first package with this identifier.
fn find_package(packages: &Vec<PackageSummary>, id: &String) -> (at: Option<usize>)
    ensures
        match at {
            Some(i) => i < packages.len() && package_name(packages_view(packages@), id@) == Some(
                packages@[i as int].name@,
            ),
            None => package_name(packages_view(packages@), id@) is None,
        },
{
    let ghost rows = packages_view(packages@);
    let mut i: usize = 0;
    proof {
        assert(rows.skip(0) =~= rows);
    }
    while i < packages.len()
        invariant
            i <= packages.len(),
            rows == packages_view(packages@),
            package_name(rows, id@) == package_name(rows.skip(i as int), id@),
        decreases packages.len() - i,
    {
        proof {
            assert(rows.skip(i as int).first() == packages@[i as int]@);
            assert(rows.skip(i as int).drop_first() =~= rows.skip(i + 1));
        }
        if packages[i].id == *id {
            return Some(i);
        }
        i += 1;
    }
    None
}

/// The built-in plugin of a package of this name.
fn plugin_by_name(name: &String) -> (plugin: Option<BuiltinPlugin>)
    ensures
        plugin == plugin_named(name@),
{
    if *name == String::from_str("assert_macros") {
        Some(BuiltinPlugin::AssertMacros)
    } else if *name == String::from_str("cairo_execute") {
        Some(BuiltinPlugin::Executable)
    } else if *name == String::from_str("cairo_test") {
        Some(BuiltinPlugin::CairoTest)
    } else if *name == String::from_str("starknet") {
        Some(BuiltinPlugin::Starknet)
    } else {
        None
    }
}

impl BuiltinPlugin {
    /// The built-in plugin that `plugin` describes, given the packages of the
    /// project. `None` if it describes no plugin known here.
    pub fn from_plugin_metadata(packages: &Vec<PackageSummary>, plugin: &PluginSummary) -> (found:
        Option<Self>)
        ensures
            found == described_plugin(packages_view(packages@), plugin@),
    {
        let at = match find_package(packages, &plugin.package) {
            Some(at) => at,
            None => {
                return None;
            },
        };
        let name = &packages[at].name;
        if text_contains(name.as_str(), "snforge_scarb_plugin") {
            return Some(BuiltinPlugin::SnforgeScarbPlugin);
        }
        if !plugin.builtin {
            return None;
        }
        plugin_by_name(name)
    }
}

/// All plugins that the `core` crate needs.
pub fn plugins_for_corelib() -> (plugins: Vec<BuiltinPlugin>)
    ensures
        plugins@ == seq![BuiltinPlugin::CairoTest, BuiltinPlugin::Executable],
{
    let mut plugins: Vec<BuiltinPlugin> = Vec::new();
    plugins.push(BuiltinPlugin::CairoTest);
    plugins.push(BuiltinPlugin::Executable);
    plugins
}

/// All built-in plugins that `dependencies` describe, in their order.
pub fn plugins_from_dependencies(
    packages: &Vec<PackageSummary>,
    dependencies: &Vec<PluginSummary>,
) -> (plugins: Vec<BuiltinPlugin>)
    ensures
        plugins@ == described_plugins(packages_view(packages@), plugins_view(dependencies@)),
{
    let ghost all = plugins_view(dependencies@);
    let mut plugins: Vec<BuiltinPlugin> = Vec::new();
    let mut i: usize = 0;
    proof {
        assert(all.take(0) =~= Seq::empty());
    }
    while i < dependencies.len()
        invariant
            i <= dependencies.len(),
            all == plugins_view(dependencies@),
            plugins@ == described_plugins(packages_view(packages@), all.take(i as int)),
        decreases dependencies.len() - i,
    {
        proof {
            assert(all.take(i + 1).drop_last() =~= all.take(i as int));
            assert(all.take(i + 1).last() == dependencies@[i as int]@);
        }
        if let Some(plugin) = BuiltinPlugin::from_plugin_metadata(packages, &dependencies[i]) {
            plugins.push(plugin);
        }
        i += 1;
    }
    proof {
        assert(all.take(dependencies.len() as int) =~= all);
    }
    plugins
}

/// Whether `plugin` is among `plugins`.
fn has_plugin(plugins: &Vec<BuiltinPlugin>, plugin: BuiltinPlugin) -> (found: bool)
    ensures
        found == plugins@.contains(plugin),
{
    let mut i: usize = 0;
    while i < plugins.len()
        invariant
            i <= plugins.len(),
            forall|k: int| 0 <= k < i ==> plugins@[k] != plugin,
        decreases plugins.len() - i,
    {
        if plugins[i] == plugin {
            return true;
        }
        i += 1;
    }
    false
}

/// Adds to `plugins` each plugin of `more` that it does not hold yet.
pub fn extend_plugins(plugins: &mut Vec<BuiltinPlugin>, more: &Vec<BuiltinPlugin>)
    ensures
        old(plugins)@.no_duplicates() ==> final(plugins)@.no_duplicates(),
        forall|p: BuiltinPlugin| #[trigger]
            final(plugins)@.contains(p) <==> old(plugins)@.contains(p) || more@.contains(p),
{
    let mut i: usize = 0;
    while i < more.len()
        invariant
            i <= more.len(),
            old(plugins)@.no_duplicates() ==> plugins@.no_duplicates(),
            forall|p: BuiltinPlugin| #[trigger]
                plugins@.contains(p) <==> old(plugins)@.contains(p) || more@.take(i as int).contains(
                    p,
                ),
        decreases more.len() - i,
    {
        let ghost before = plugins@;
        let plugin = more[i];
        let present = has_plugin(plugins, plugin);
        if !present {
            plugins.push(plugin);
        }
        proof {
            let shorter = more@.take(i as int);
            let longer = more@.take(i + 1);
            assert(longer =~= shorter.push(plugin));
            assert forall|p: BuiltinPlugin| #[trigger] plugins@.contains(p) <==> old(
                plugins,
            )@.contains(p) || longer.contains(p) by {
                if before.contains(p) {
                    let k = choose|k: int| 0 <= k < before.len() && before[k] == p;
                    assert(plugins@[k] == p);
                }
                if shorter.contains(p) {
                    let k = choose|k: int| 0 <= k < shorter.len() && shorter[k] == p;
                    assert(longer[k] == p);
                }
                if p == plugin {
                    assert(longer[i as int] == p);
                    if !present {
                        assert(plugins@[before.len() as int] == p);
                    }
                }
                if plugins@.contains(p) && !before.contains(p) {
                    let k = choose|k: int| 0 <= k < plugins@.len() && plugins@[k] == p;
                    assert(k == before.len());
                }
                if longer.contains(p) && p != plugin {
                    let k = choose|k: int| 0 <= k < longer.len() && longer[k] == p;
                    assert(shorter[k] == p);
                }
            }
        }
        i += 1;
    }
    proof {
        assert(more@.take(more.len() as int) =~= more@);
    }
}

/// The plugins that the description of a component asks for by itself: those
/// of the core library for the core crate, else those that its plugin
/// dependencies describe; and the test runner's stand-in for a component that
/// depends on the test runner's library.
pub open spec fn asked_plugins(
    core: bool,
    packages: Seq<PackageSummaryView>,
    plugin_dependencies: Seq<PluginSummaryView>,
    uses_snforge_std: bool,
) -> Set<BuiltinPlugin> {
    let described = if core {
        seq![BuiltinPlugin::CairoTest, BuiltinPlugin::Executable].to_set()
    } else {
        described_plugins(packages, plugin_dependencies).to_set()
    };
    if uses_snforge_std {
        described.insert(BuiltinPlugin::SnforgeScarbPlugin)
    } else {
        described
    }
}

/// The built-in plugins of a component, each once: those that an earlier
/// compilation unit gave it, and those that this one asks for.
pub fn component_plugins(
    previous: &Vec<BuiltinPlugin>,
    core: bool,
    packages: &Vec<PackageSummary>,
    plugin_dependencies: &Vec<PluginSummary>,
    uses_snforge_std: bool,
) -> (plugins: Vec<BuiltinPlugin>)
    ensures
        plugins@.no_duplicates(),
        plugins@.to_set() == previous@.to_set().union(
            asked_plugins(
                core,
                packages_view(packages@),
                plugins_view(plugin_dependencies@),
                uses_snforge_std,
            ),
        ),
{
    let mut plugins: Vec<BuiltinPlugin> = Vec::new();
    extend_plugins(&mut plugins, previous);
    let described = if core {
        plugins_for_corelib()
    } else {
        plugins_from_dependencies(packages, plugin_dependencies)
    };
    extend_plugins(&mut plugins, &described);
    if uses_snforge_std {
        let mut stand_in: Vec<BuiltinPlugin> = Vec::new();
        stand_in.push(BuiltinPlugin::SnforgeScarbPlugin);
        extend_plugins(&mut plugins, &stand_in);
        proof {
            assert forall|p: BuiltinPlugin| stand_in@.contains(p) <==> p
                == BuiltinPlugin::SnforgeScarbPlugin by {
                if p == BuiltinPlugin::SnforgeScarbPlugin {
                    assert(stand_in@[0] == p);
                }
            }
        }
    }
    proof {
        let asked = asked_plugins(
            core,
            packages_view(packages@),
            plugins_view(plugin_dependencies@),
            uses_snforge_std,
        );
        assert forall|p: BuiltinPlugin| plugins@.to_set().contains(p) <==> previous@.to_set().union(
            asked,
        ).contains(p) by {
            assert(!Seq::<BuiltinPlugin>::empty().contains(p));
            assert(plugins@.to_set().contains(p) == plugins@.contains(p));
            assert(previous@.to_set().contains(p) == previous@.contains(p));
            assert(described@.to_set().contains(p) == described@.contains(p));
        }
        assert(plugins@.to_set() =~= previous@.to_set().union(asked));
    }
    plugins
}

/// A plugin that generates nothing and claims the attributes of the test
/// runner's own plugin.
#[derive(Debug, Default)]
pub struct MockSnforgeScarbPlugin;

/// The attributes that [`MockSnforgeScarbPlugin`] declares.
pub open spec fn mock_attributes() -> Seq<Seq<char>> {
    seq![
        "test"@,
        "ignore"@,
        "fuzzer"@,
        "fork"@,
        "available_gas"@,
        "should_panic"@,
        "disable_predeployed_contracts"@,
    ]
}

impl MockSnforgeScarbPlugin {
    /// The attributes that the plugin takes for its own.
    pub fn declared_attributes(&self) -> (attributes: Vec<String>)
        ensures
            attributes@.map_values(|s: String| s@) == mock_attributes(),
    {
        let mut attributes: Vec<String> = Vec::new();
        attributes.push(String::from_str("test"));
        attributes.push(String::from_str("ignore"));
        attributes.push(String::from_str("fuzzer"));
        attributes.push(String::from_str("fork"));
        attributes.push(String::from_str("available_gas"));
        attributes.push(String::from_str("should_panic"));
        attributes.push(String::from_str("disable_predeployed_contracts"));
        proof {
            assert(attributes@.map_values(|s: String| s@) =~= mock_attributes());
        }
        attributes
    }
}

} // verus!
