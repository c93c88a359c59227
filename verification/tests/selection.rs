use spin_deps::error::AddError;
use spin_deps::selection::{
    group_by_package, package_options, packages_message, select_interfaces, ExportedInterface,
    InterfaceSelection, PackageName,
};

fn text(s: &str) -> String {
    s.to_string()
}

fn package(namespace: &str, name: &str, version: Option<&str>) -> PackageName {
    PackageName { namespace: text(namespace), name: text(name), version: version.map(text) }
}

fn exports() -> Vec<ExportedInterface> {
    let export = |p: PackageName, i: &str| ExportedInterface { package: p, interface: text(i) };
    vec![
        export(package("a", "b", Some("1.0.0")), "x"),
        export(package("c", "d", None), "y"),
        export(package("a", "b", Some("1.0.0")), "z"),
        export(package("a", "b", Some("2.0.0")), "x"),
    ]
}

#[test]
fn packages_and_interfaces_are_printed() {
    let versioned = package("a", "b", Some("1.0.0"));
    assert_eq!(versioned.display(), "a:b@1.0.0");
    assert_eq!(versioned.interface("x"), "a:b/x@1.0.0");
    let plain = package("c", "d", None);
    assert_eq!(plain.display(), "c:d");
    assert_eq!(plain.interface("y"), "c:d/y");
}

#[test]
fn packages_print_as_those_of_the_wit_parser() {
    for version in [None, Some("1.2.3-rc.1+b"), Some("0.1.0")] {
        let own = package("ns", "name", version);
        let outside = wit_parser::PackageName {
            namespace: text("ns"),
            name: text("name"),
            version: version.map(|v| v.parse().unwrap()),
        };
        assert_eq!(own.display(), outside.to_string());
        assert_eq!(own.interface("itf"), outside.interface_id("itf"));
    }
}

#[test]
fn package_names_are_compared() {
    let a = package("a", "b", Some("1.0.0"));
    assert!(a.same(&a.copy()));
    assert!(!a.same(&package("a", "b", None)));
    assert!(!a.same(&package("a", "b", Some("1.0.1"))));
    assert!(!a.same(&package("a", "c", Some("1.0.0"))));
    assert!(!a.same(&package("x", "b", Some("1.0.0"))));
    assert!(package("a", "b", None).same(&package("a", "b", None)));
}

#[test]
fn interfaces_are_grouped_by_package() {
    let groups = group_by_package(exports());
    let shown: Vec<(String, Vec<String>)> =
        groups.iter().map(|g| (g.package.display(), g.interfaces.clone())).collect();
    assert_eq!(
        shown,
        vec![
            (text("a:b@1.0.0"), vec![text("x"), text("z")]),
            (text("c:d"), vec![text("y")]),
            (text("a:b@2.0.0"), vec![text("x")]),
        ]
    );
    assert_eq!(package_options(&groups), vec!["a:b@1.0.0", "c:d", "a:b@2.0.0"]);
    assert_eq!(
        packages_message(),
        "Select packages to import (use space to select, enter to confirm)"
    );
}

#[test]
fn a_component_without_exports_is_refused() {
    let error = select_interfaces(vec![]).unwrap_err();
    assert!(matches!(error, AddError::NoExportedInterfaces));
    assert_eq!(error.message(), "No exported interfaces found in the component");
}

#[test]
fn several_interfaces_can_be_imported_at_once() {
    let groups = select_interfaces(exports()).unwrap();
    let prompt = groups[0].prompt();
    assert_eq!(prompt.message, "Select one or all interfaces to import from package 'a:b@1.0.0'");
    assert_eq!(prompt.options, vec!["(Import all interfaces)", "x", "z"]);
    assert_eq!(prompt.default, Some(0));
    assert_eq!(groups[0].import(0), "a:b@1.0.0");
    assert_eq!(groups[0].import(1), "a:b/x@1.0.0");
    assert_eq!(groups[0].import(2), "a:b/z@1.0.0");
}

#[test]
fn a_single_interface_has_no_option_for_all() {
    let groups = select_interfaces(exports()).unwrap();
    assert_eq!(groups[1].prompt().options, vec!["y"]);
    assert_eq!(groups[1].import(0), "c:d/y");
}

#[test]
fn each_pick_gives_one_import_in_order() {
    let mut selection = InterfaceSelection::begin(select_interfaces(exports()).unwrap(), vec![2, 0, 1]);
    let mut asked = vec![];
    let mut answers = vec![0, 2, 0].into_iter();
    while let Some(prompt) = selection.prompt() {
        asked.push(prompt.message);
        selection.answer(answers.next().unwrap());
    }
    assert_eq!(
        asked,
        vec![
            "Select one or all interfaces to import from package 'a:b@2.0.0'",
            "Select one or all interfaces to import from package 'a:b@1.0.0'",
            "Select one or all interfaces to import from package 'c:d'",
        ]
    );
    assert_eq!(selection.finish(), vec!["a:b/x@2.0.0", "a:b/z@1.0.0", "c:d/y"]);
}

#[test]
fn no_pick_gives_no_import() {
    let selection = InterfaceSelection::begin(select_interfaces(exports()).unwrap(), vec![]);
    assert!(selection.prompt().is_none());
    assert!(selection.finish().is_empty());
}
