use spin_deps::error::AddError;
use spin_deps::source::{
    combine_package_parts, package_name_ver, split_package_name, ComponentSource, PackageNameError,
    UrlParts,
};

fn text(s: &str) -> String {
    s.to_string()
}

fn some(s: &str) -> Option<String> {
    Some(s.to_string())
}

fn infer(source: &str, path_exists: bool, digest: &Option<String>) -> Result<ComponentSource, AddError> {
    ComponentSource::infer_source(&text(source), path_exists, digest, &some("registry.example.com"))
}

#[test]
fn an_existing_path_is_a_local_source() {
    for source in ["component.wasm", "https://example.com/c.wasm", "ns:name@1.0.0", "what is this"] {
        match infer(source, true, &some("abc")) {
            Ok(ComponentSource::Local(c)) => assert_eq!(c.path, source),
            other => panic!("{:?}", other),
        }
    }
}

#[test]
fn an_http_url_is_a_download() {
    match infer("HTTP://Example.COM/a/../c.wasm", false, &some("abc")) {
        Ok(ComponentSource::Http(c)) => {
            assert_eq!(c.url, "http://example.com/c.wasm");
            assert_eq!(c.digest, "abc");
        }
        other => panic!("{:?}", other),
    }
    match infer("https://example.com", false, &some("d")) {
        Ok(ComponentSource::Http(c)) => assert_eq!(c.url, "https://example.com/"),
        other => panic!("{:?}", other),
    }
}

#[test]
fn a_scheme_that_only_starts_with_http_is_no_download() {
    for digest in [None, some("d")] {
        let error = infer("httpx:whatever", false, &digest).unwrap_err();
        assert!(matches!(error, AddError::MissingVersion));
        let error = infer("httpx://example.com/c.wasm", false, &digest).unwrap_err();
        assert!(matches!(error, AddError::UnknownSource));
    }
}

#[test]
fn a_package_whose_namespace_starts_with_http_is_a_registry_source() {
    let source = text("httpbin:client@1.0.0");
    match ComponentSource::infer_source(&source, false, &None, &None) {
        Ok(ComponentSource::Registry(c)) => {
            assert_eq!(c.package, "httpbin:client");
            assert_eq!(c.version, "^1.0.0");
            assert_eq!(c.registry, None);
        }
        other => panic!("{:?}", other),
    }
}

#[test]
fn a_package_in_the_namespace_http_is_an_http_url() {
    match infer("http:client", false, &some("d")) {
        Ok(ComponentSource::Http(c)) => assert_eq!(c.url, "http://client/"),
        other => panic!("{:?}", other),
    }
}

#[test]
fn a_download_needs_a_digest() {
    let error = infer("https://example.com/c.wasm", false, &None).unwrap_err();
    assert!(matches!(error, AddError::MissingDigest));
    assert_eq!(error.message(), "Digest needs to be specified for HTTP sources.");
}

#[test]
fn a_package_with_a_version_is_a_registry_source() {
    match infer("wasi-ext:key-value@1.2", false, &None) {
        Ok(ComponentSource::Registry(c)) => {
            assert_eq!(c.package, "wasi-ext:key-value");
            assert_eq!(c.version, "^1.2");
            assert_eq!(c.registry, some("registry.example.com"));
        }
        other => panic!("{:?}", other),
    }
}

#[test]
fn the_digest_is_ignored_for_a_registry_source() {
    match infer("ns:name@=1.0.0", false, &some("abc")) {
        Ok(ComponentSource::Registry(c)) => assert_eq!(c.version, "=1.0.0"),
        other => panic!("{:?}", other),
    }
}

#[test]
fn the_registry_is_ignored_for_local_and_http_sources() {
    for registry in [None, some("registry.example.com")] {
        match ComponentSource::infer_source(&text("c.wasm"), true, &None, &registry) {
            Ok(ComponentSource::Local(c)) => assert_eq!(c.path, "c.wasm"),
            other => panic!("{:?}", other),
        }
        let url = text("http://example.com/c.wasm");
        match ComponentSource::infer_source(&url, false, &some("d"), &registry) {
            Ok(ComponentSource::Http(c)) => assert_eq!(c.url, "http://example.com/c.wasm"),
            other => panic!("{:?}", other),
        }
    }
}

#[test]
fn a_registry_source_needs_a_version() {
    let error = infer("ns:name", false, &None).unwrap_err();
    assert!(matches!(error, AddError::MissingVersion));
    assert_eq!(error.message(), "Version needs to specified for registry sources.");
}

#[test]
fn anything_else_is_no_source() {
    let sources = [
        "",
        "component.wasm",
        "ftp://example.com/c.wasm",
        "ns:name@",
        "ns:name@not a version",
        "Ns:name@1.0.0",
        "ns:name:more@1.0.0",
        "ns@1.0.0",
    ];
    for source in sources {
        let error = infer(source, false, &some("abc")).unwrap_err();
        assert!(matches!(error, AddError::UnknownSource), "{}", source);
        assert_eq!(error.message(), "Could not infer component source");
    }
}

#[test]
fn a_package_name_is_split_at_the_first_at_sign() {
    assert_eq!(split_package_name("ns:name@1@2"), ("ns:name", Some("1@2")));
    assert_eq!(split_package_name("ns:name@"), ("ns:name", Some("")));
    assert_eq!(split_package_name("@1"), ("", Some("1")));
    assert_eq!(split_package_name("ns:name"), ("ns:name", None));
}

#[test]
fn package_names_are_parsed() {
    match package_name_ver("a1:b2-c3@>=1.2.3, <2") {
        Ok((package, version)) => {
            assert_eq!(package, "a1:b2-c3");
            assert_eq!(version, some(">=1.2.3, <2"));
        }
        Err(e) => panic!("{:?}", e),
    }
    match package_name_ver("a:b") {
        Ok((package, version)) => {
            assert_eq!(package, "a:b");
            assert_eq!(version, None);
        }
        Err(e) => panic!("{:?}", e),
    }
}

#[test]
fn package_labels_are_kebab_case() {
    for good in ["a:b", "a1:b-c", "abc-d2e:f"] {
        assert!(package_name_ver(good).is_ok(), "{}", good);
    }
    for bad in ["", "a", ":", "a:", ":b", "1a:b", "a:B", "a-:b", "-a:b", "a--b:c", "a-1:b", "a:b:c", "a:b_c", "a:b "] {
        assert!(matches!(package_name_ver(bad), Err(PackageNameError::Package(_))), "{}", bad);
    }
}

#[test]
fn a_fault_in_the_version_comes_first() {
    assert!(matches!(package_name_ver("BAD@bad"), Err(PackageNameError::Version(_))));
    assert!(matches!(package_name_ver("BAD@1"), Err(PackageNameError::Package(_))));
}

#[test]
fn the_reasons_for_a_bad_package_name_are_those_of_the_parsers() {
    let version = "bad".parse::<semver::VersionReq>().unwrap_err().to_string();
    match package_name_ver("a:b@bad") {
        Err(PackageNameError::Version(e)) => assert_eq!(e, version),
        other => panic!("{:?}", other),
    }
    let package = "Bad:b".parse::<wasm_pkg_client::PackageRef>().unwrap_err().to_string();
    match package_name_ver("Bad:b") {
        Err(PackageNameError::Package(e)) => assert_eq!(e, package),
        other => panic!("{:?}", other),
    }
}

#[test]
fn package_parts_are_combined() {
    match combine_package_parts(Ok(text("p")), Some(Ok(text("v")))) {
        Ok((package, version)) => {
            assert_eq!(package, "p");
            assert_eq!(version, some("v"));
        }
        Err(e) => panic!("{:?}", e),
    }
    match combine_package_parts(Err(text("x")), Some(Err(text("y")))) {
        Err(PackageNameError::Version(e)) => assert_eq!(e, "y"),
        other => panic!("{:?}", other),
    }
    match combine_package_parts(Err(text("x")), None) {
        Err(PackageNameError::Package(e)) => assert_eq!(e, "x"),
        other => panic!("{:?}", other),
    }
}

#[test]
fn a_source_is_decided_from_its_parts() {
    let url = || Some(UrlParts { scheme: text("https"), text: text("https://u/") });
    let package = || Ok((text("a:b"), some("^1")));
    match ComponentSource::from_parts(&text("s"), false, url(), package(), &some("d"), &None) {
        Ok(ComponentSource::Http(c)) => {
            assert_eq!(c.url, "https://u/");
            assert_eq!(c.digest, "d");
        }
        other => panic!("{:?}", other),
    }
    let ftp = Some(UrlParts { scheme: text("ftp"), text: text("ftp://u/") });
    match ComponentSource::from_parts(&text("s"), false, ftp, package(), &some("d"), &some("r")) {
        Ok(ComponentSource::Registry(c)) => {
            assert_eq!(c.package, "a:b");
            assert_eq!(c.version, "^1");
            assert_eq!(c.registry, some("r"));
        }
        other => panic!("{:?}", other),
    }
}

#[test]
fn a_printed_package_name_is_parsed_back() {
    let versions = ["1", "^1.2", "=1.2.3-rc.1", "1.2.*", "1.x", ">1, <=2.0", "~0.1", "*", " >= 1.*  ,2", "1.2.3+b"];
    for written in versions {
        let (package, version) = package_name_ver(&format!("a1:b-c@{}", written)).unwrap();
        let version = version.unwrap();
        let (again, same) = package_name_ver(&format!("{}@{}", package, version)).unwrap();
        assert_eq!(again, "a1:b-c");
        assert_eq!(same, Some(version));
    }
    assert_eq!(package_name_ver("a1:b-c").unwrap(), (text("a1:b-c"), None));
}
