use spin_deps::dependency::{ComponentDependencies, ComponentDependency};
use spin_deps::source::{ComponentSource, HttpAddCommand, LocalAddCommand, RegistryAddCommand};

fn text(s: &str) -> String {
    s.to_string()
}

#[test]
fn a_local_dependency_has_the_path() {
    let source = ComponentSource::Local(LocalAddCommand { path: text("a/b.wasm") });
    match source.dependency() {
        ComponentDependency::Local { path, export } => {
            assert_eq!(path, "a/b.wasm");
            assert_eq!(export, None);
        }
        other => panic!("{:?}", other),
    }
}

#[test]
fn an_http_dependency_names_the_digest_algorithm() {
    let source = ComponentSource::Http(HttpAddCommand { url: text("https://x/"), digest: text("0abc") });
    match source.dependency() {
        ComponentDependency::HTTP { url, digest, export } => {
            assert_eq!(url, "https://x/");
            assert_eq!(digest, "sha256:0abc");
            assert_eq!(export, None);
        }
        other => panic!("{:?}", other),
    }
}

#[test]
fn a_registry_dependency_has_package_version_and_registry() {
    for registry in [None, Some(text("r.example.com"))] {
        let source = ComponentSource::Registry(RegistryAddCommand {
            package: text("a:b"),
            version: text("^1"),
            registry: registry.clone(),
        });
        match source.dependency() {
            ComponentDependency::Package { version, registry: used, package, export } => {
                assert_eq!(version, "^1");
                assert_eq!(used, registry);
                assert_eq!(package, Some(text("a:b")));
                assert_eq!(export, None);
            }
            other => panic!("{:?}", other),
        }
    }
}

fn shown(dependencies: &ComponentDependencies) -> Vec<(String, String)> {
    dependencies
        .inner
        .iter()
        .map(|e| (e.name.clone(), format!("{:?}", e.dependency)))
        .collect()
}

#[test]
fn a_dependency_is_listed_under_each_name() {
    let mut dependencies = ComponentDependencies { inner: vec![] };
    dependencies.insert(text("a:b"), ComponentDependency::Version(text("1")));
    dependencies.insert(text("c:d"), ComponentDependency::Version(text("2")));
    let other = ComponentDependency::Local { path: text("p"), export: None };
    dependencies.insert_all(&vec![text("e:f/g@1.0.0"), text("a:b"), text("e:f/g@1.0.0")], &other);
    let local = format!("{:?}", other);
    assert_eq!(
        shown(&dependencies),
        vec![
            (text("a:b"), local.clone()),
            (text("c:d"), text("Version(\"2\")")),
            (text("e:f/g@1.0.0"), local),
        ]
    );
}

#[test]
fn listing_under_no_name_changes_nothing() {
    let mut dependencies = ComponentDependencies { inner: vec![] };
    dependencies.insert(text("a:b"), ComponentDependency::Version(text("1")));
    dependencies.insert_all(&vec![], &ComponentDependency::Version(text("2")));
    assert_eq!(shown(&dependencies), vec![(text("a:b"), text("Version(\"1\")"))]);
}

#[test]
fn dependencies_are_copied() {
    let all = [
        ComponentDependency::Version(text("1")),
        ComponentDependency::Package {
            version: text("1"),
            registry: Some(text("r")),
            package: Some(text("p")),
            export: Some(text("e")),
        },
        ComponentDependency::Local { path: text("p"), export: Some(text("e")) },
        ComponentDependency::HTTP { url: text("u"), digest: text("d"), export: None },
    ];
    for dependency in all {
        assert_eq!(format!("{:?}", dependency.copy()), format!("{:?}", dependency));
    }
}

#[test]
fn only_the_names_before_the_first_invalid_one_are_listed() {
    let names = vec![text("a:b"), text("c:d"), text("not valid"), text("e:f")];
    let dependency = ComponentDependency::Version(text("1"));
    let listed = |valid: Vec<bool>| {
        let mut dependencies = ComponentDependencies { inner: vec![] };
        let all_valid = dependencies.insert_valid(&names, &valid, &dependency);
        let listed: Vec<String> = dependencies.inner.iter().map(|e| e.name.clone()).collect();
        (all_valid, listed)
    };
    assert_eq!(listed(vec![true, true, false, true]), (false, vec![text("a:b"), text("c:d")]));
    assert_eq!(listed(vec![false, true, true, true]), (false, vec![]));
    assert_eq!(listed(vec![true, true, true, false]), (false, names[..3].to_vec()));
    assert_eq!(listed(vec![true, true, true, true]), (true, names.clone()));
}

#[test]
fn no_names_are_all_valid() {
    let mut dependencies = ComponentDependencies { inner: vec![] };
    assert!(dependencies.insert_valid(&vec![], &vec![], &ComponentDependency::Version(text("1"))));
    assert!(dependencies.inner.is_empty());
}
