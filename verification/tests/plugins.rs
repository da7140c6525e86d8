use demo_ls::project::plugins::{
    plugins_for_corelib, plugins_from_dependencies, BuiltinPlugin, MockSnforgeScarbPlugin,
    PackageSummary, PluginSummary,
};

fn package(id: &str, name: &str) -> PackageSummary {
    PackageSummary { id: id.to_string(), name: name.to_string() }
}

fn plugin(package: &str, builtin: bool) -> PluginSummary {
    PluginSummary { package: package.to_string(), builtin }
}

fn known_packages() -> Vec<PackageSummary> {
    vec![
        package("assert_macros 2.12.0 (std)", "assert_macros"),
        package("cairo_execute 2.12.0 (std)", "cairo_execute"),
        package("cairo_test 2.12.0 (std)", "cairo_test"),
        package("starknet 2.12.0 (std)", "starknet"),
        package("snforge_scarb_plugin 0.40.0 (registry)", "snforge_scarb_plugin"),
        package("my_snforge_scarb_plugin_fork 0.1.0 (path)", "my_snforge_scarb_plugin_fork"),
        package("other 1.0.0 (std)", "other"),
    ]
}

#[test]
fn corelib_plugins_are_test_and_executable() {
    assert_eq!(plugins_for_corelib(), vec![BuiltinPlugin::CairoTest, BuiltinPlugin::Executable]);
}

#[test]
fn builtin_packages_map_to_their_plugins() {
    let packages = known_packages();
    let cases = [
        ("assert_macros 2.12.0 (std)", BuiltinPlugin::AssertMacros),
        ("cairo_execute 2.12.0 (std)", BuiltinPlugin::Executable),
        ("cairo_test 2.12.0 (std)", BuiltinPlugin::CairoTest),
        ("starknet 2.12.0 (std)", BuiltinPlugin::Starknet),
    ];
    for (id, expected) in cases {
        assert_eq!(
            BuiltinPlugin::from_plugin_metadata(&packages, &plugin(id, true)),
            Some(expected)
        );
    }
}

#[test]
fn package_that_is_not_builtin_gives_no_plugin() {
    let packages = known_packages();
    assert_eq!(
        BuiltinPlugin::from_plugin_metadata(&packages, &plugin("starknet 2.12.0 (std)", false)),
        None
    );
}

#[test]
fn builtin_package_of_unknown_name_gives_no_plugin() {
    let packages = known_packages();
    assert_eq!(
        BuiltinPlugin::from_plugin_metadata(&packages, &plugin("other 1.0.0 (std)", true)),
        None
    );
}

#[test]
fn package_that_is_not_listed_gives_no_plugin() {
    let packages = known_packages();
    assert_eq!(
        BuiltinPlugin::from_plugin_metadata(&packages, &plugin("starknet 9.9.9 (std)", true)),
        None
    );
    assert_eq!(BuiltinPlugin::from_plugin_metadata(&vec![], &plugin("starknet", true)), None);
}

#[test]
fn snforge_plugin_is_recognised_whether_builtin_or_not() {
    let packages = known_packages();
    for builtin in [false, true] {
        assert_eq!(
            BuiltinPlugin::from_plugin_metadata(
                &packages,
                &plugin("snforge_scarb_plugin 0.40.0 (registry)", builtin)
            ),
            Some(BuiltinPlugin::SnforgeScarbPlugin)
        );
    }
}

#[test]
fn snforge_plugin_is_recognised_inside_a_longer_name() {
    let packages = known_packages();
    assert_eq!(
        BuiltinPlugin::from_plugin_metadata(
            &packages,
            &plugin("my_snforge_scarb_plugin_fork 0.1.0 (path)", false)
        ),
        Some(BuiltinPlugin::SnforgeScarbPlugin)
    );
}

#[test]
fn package_is_found_by_identifier_not_by_name() {
    let packages = vec![package("id-one", "starknet"), package("starknet", "cairo_test")];
    assert_eq!(
        BuiltinPlugin::from_plugin_metadata(&packages, &plugin("starknet", true)),
        Some(BuiltinPlugin::CairoTest)
    );
}

#[test]
fn first_package_with_the_identifier_decides() {
    let packages = vec![package("same", "starknet"), package("same", "cairo_test")];
    assert_eq!(
        BuiltinPlugin::from_plugin_metadata(&packages, &plugin("same", true)),
        Some(BuiltinPlugin::Starknet)
    );
}

#[test]
fn name_must_match_as_a_whole() {
    let packages = vec![package("a", "starknet2"), package("b", "Starknet"), package("c", "")];
    for id in ["a", "b", "c"] {
        assert_eq!(BuiltinPlugin::from_plugin_metadata(&packages, &plugin(id, true)), None);
    }
}

#[test]
fn dependencies_yield_their_plugins_in_order() {
    let packages = known_packages();
    let dependencies = vec![
        plugin("starknet 2.12.0 (std)", true),
        plugin("other 1.0.0 (std)", true),
        plugin("missing", true),
        plugin("snforge_scarb_plugin 0.40.0 (registry)", false),
        plugin("assert_macros 2.12.0 (std)", false),
        plugin("assert_macros 2.12.0 (std)", true),
        plugin("starknet 2.12.0 (std)", true),
    ];
    assert_eq!(
        plugins_from_dependencies(&packages, &dependencies),
        vec![
            BuiltinPlugin::Starknet,
            BuiltinPlugin::SnforgeScarbPlugin,
            BuiltinPlugin::AssertMacros,
            BuiltinPlugin::Starknet,
        ]
    );
}

#[test]
fn no_dependencies_yield_no_plugins() {
    assert!(plugins_from_dependencies(&known_packages(), &vec![]).is_empty());
}

#[test]
fn mock_plugin_declares_the_test_runner_attributes() {
    assert_eq!(
        MockSnforgeScarbPlugin.declared_attributes(),
        vec![
            "test",
            "ignore",
            "fuzzer",
            "fork",
            "available_gas",
            "should_panic",
            "disable_predeployed_contracts",
        ]
    );
}
