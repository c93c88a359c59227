use spin_deps::command::{
    chosen_component, component_prompt, dependency_world_name, AddCommand, TargetComponent,
};
use spin_deps::error::AddError;
use spin_deps::language::{BuildDirectory, Language};
use spin_deps::source::ComponentSource;

fn text(s: &str) -> String {
    s.to_string()
}

fn command(add_to_component: Option<&str>) -> AddCommand {
    AddCommand {
        source: text("a:b@1.0"),
        digest: None,
        registry: Some(text("r.example.com")),
        add_to_component: add_to_component.map(text),
        manifest_path: None,
    }
}

#[test]
fn the_command_finds_out_its_source() {
    match command(None).component_source(false) {
        Ok(ComponentSource::Registry(c)) => {
            assert_eq!(c.package, "a:b");
            assert_eq!(c.version, "^1.0");
            assert_eq!(c.registry, Some(text("r.example.com")));
        }
        other => panic!("{:?}", other),
    }
    match command(None).component_source(true) {
        Ok(ComponentSource::Local(c)) => assert_eq!(c.path, "a:b@1.0"),
        other => panic!("{:?}", other),
    }
}

#[test]
fn a_named_component_is_not_asked_for() {
    match command(Some("hello")).target_component() {
        TargetComponent::Known(id) => assert_eq!(id, "hello"),
        other => panic!("{:?}", other),
    }
}

#[test]
fn a_component_that_is_not_named_is_asked_for() {
    let ids = vec![text("one"), text("two")];
    assert!(matches!(command(None).target_component(), TargetComponent::Ask));
    let prompt = component_prompt(&ids);
    assert_eq!(prompt.message, "Select a component to add the dependency to");
    assert_eq!(prompt.options, ids);
    assert_eq!(prompt.default, None);
    assert_eq!(chosen_component(&ids, 1), "two");
}

fn build_directory(
    is_dir: bool,
    has_cargo_toml: bool,
    has_package_json: bool,
) -> BuildDirectory<&'static str> {
    BuildDirectory {
        is_dir,
        cargo_toml: "d/Cargo.toml",
        has_cargo_toml,
        package_json: "d/package.json",
        has_package_json,
    }
}

#[test]
fn the_language_is_told_from_the_files() {
    for has_package_json in [false, true] {
        match build_directory(true, true, has_package_json).try_infer_language() {
            Ok(Language::Rust { cargo_toml }) => assert_eq!(cargo_toml, "d/Cargo.toml"),
            other => panic!("{:?}", other),
        }
    }
    match build_directory(true, false, true).try_infer_language() {
        Ok(Language::TypeScript { package_json }) => assert_eq!(package_json, "d/package.json"),
        other => panic!("{:?}", other),
    }
}

#[test]
fn a_language_that_cannot_be_told_is_an_error() {
    let error = build_directory(true, false, false).try_infer_language().unwrap_err();
    assert!(matches!(error, AddError::UnknownLanguage));
    assert_eq!(error.message(), "unable to determine the component source language");
    let error = build_directory(false, true, true).try_infer_language().unwrap_err();
    assert!(matches!(error, AddError::NoBuildDirectory));
    assert_eq!(error.message(), "unable to establish build directory for component");
}

#[test]
fn the_world_of_a_dependency_has_its_own_name() {
    assert_eq!(dependency_world_name(), "dependency-world");
}
