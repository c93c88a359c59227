use spin_deps::deps_module::{deps_module_text, edit_lib, DepsScan, LibEdit};

fn texts(all: &[&str]) -> Vec<String> {
    all.iter().map(|s| s.to_string()).collect()
}

fn scanned(lib_text: &str, interfaces: &[&str]) -> DepsScan {
    match edit_lib(lib_text, "hello", &texts(interfaces)) {
        LibEdit::Scanned(scan) => scan,
        LibEdit::Created(_) => panic!("no module found"),
    }
}

fn joined(lines: &[String]) -> String {
    lines.iter().map(|l| format!("{}\n", l)).collect()
}

const NEW_MODULE: &str = r###"
mod deps {
    wit_bindgen::generate!({
        inline: r#"
        package root:component;
        world imports {
            import a:b/c@1.0.0;
            import d:e;
        }
        "#,
        with: {
            "a:b/c@1.0.0": generate,
            "d:e": generate,
        },
        path: ".wit/components/hello",
    });
}
"###;

#[test]
fn a_new_module_is_made() {
    assert_eq!(deps_module_text("hello", &texts(&["a:b/c@1.0.0", "d:e"])), NEW_MODULE);
}

#[test]
fn a_new_module_without_imports_has_empty_lines() {
    let text = deps_module_text("x", &texts(&[]));
    let expected = r###"
mod deps {
    wit_bindgen::generate!({
        inline: r#"
        package root:component;
        world imports {

        }
        "#,
        with: {

        },
        path: ".wit/components/x",
    });
}
"###;
    assert_eq!(text, expected);
}

#[test]
fn a_file_without_a_module_gets_a_new_one() {
    for lib_text in ["", "fn main() {}\n", "mod deps;\n", "// mod deps {\n"] {
        match edit_lib(lib_text, "hello", &texts(&["a:b/c@1.0.0", "d:e"])) {
            LibEdit::Created(module) => assert_eq!(module, NEW_MODULE),
            LibEdit::Scanned(_) => panic!("{}", lib_text),
        }
    }
}

#[test]
fn a_new_module_is_found_complete() {
    let scan = scanned(NEW_MODULE, &["a:b/c@1.0.0", "d:e"]);
    assert_eq!(joined(&scan.lines), NEW_MODULE);
    assert!(scan.unseen_imports.is_empty());
    assert!(scan.unseen_withs.is_empty());
    assert!(!scan.in_imports);
    assert!(scan.in_with);
    assert_eq!(scan.index + 1, scan.lines.len());
}

#[test]
fn missing_imports_go_before_the_last_line_of_the_block() {
    let scan = scanned(NEW_MODULE, &["x:y/z", "d:e", "v:w@2.0.0"]);
    let expected = NEW_MODULE.replace(
        "            import d:e;\n",
        "            import x:y/z;\n            import v:w@2.0.0;\n            import d:e;\n",
    );
    assert_eq!(joined(&scan.lines), expected);
    assert_eq!(scan.unseen_imports, texts(&["import x:y/z;", "import v:w@2.0.0;"]));
    assert_eq!(scan.unseen_withs, texts(&["\"x:y/z\": generate,", "\"v:w@2.0.0\": generate,"]));
}

#[test]
fn scanning_again_adds_nothing() {
    let once = scanned(NEW_MODULE, &["x:y/z", "d:e"]);
    let twice = scanned(&joined(&once.lines), &["x:y/z", "d:e"]);
    assert_eq!(twice.lines, once.lines);
    assert!(twice.unseen_imports.is_empty());
}

#[test]
fn imports_for_an_empty_block_go_before_its_opening() {
    let lib_text = "mod deps {\nworld imports {\n}\n}\n";
    let scan = scanned(lib_text, &["a:b"]);
    assert_eq!(joined(&scan.lines), "mod deps {\n            import a:b;\nworld imports {\n}\n}\n");
    let again = scanned(&joined(&scan.lines), &["a:b"]);
    assert_eq!(again.lines.len(), scan.lines.len() + 1);
}

#[test]
fn a_module_without_a_block_of_imports_is_kept() {
    let lib_text = "mod deps {\n    import a:b;\n}\n";
    let scan = scanned(lib_text, &["a:b"]);
    assert_eq!(joined(&scan.lines), lib_text);
    assert_eq!(scan.unseen_imports, texts(&["import a:b;"]));
    assert_eq!(scan.unseen_withs, texts(&["\"a:b\": generate,"]));
}

#[test]
fn a_block_that_is_not_closed_gets_nothing() {
    let lib_text = "mod deps {\nworld imports {\n  import c:d;\n";
    let scan = scanned(lib_text, &["a:b", "c:d"]);
    assert_eq!(joined(&scan.lines), lib_text);
    assert!(scan.in_imports);
    assert_eq!(scan.unseen_imports, texts(&["import a:b;"]));
}

#[test]
fn what_stands_before_the_module_is_not_scanned() {
    let lib_text = "world imports {\nimport a:b;\n}\n\tmod deps { // here\nworld imports {\nimport c:d;\n}\n";
    let scan = scanned(lib_text, &["a:b"]);
    assert_eq!(
        joined(&scan.lines),
        "world imports {\nimport a:b;\n}\n\tmod deps { // here\nworld imports {\n            import a:b;\nimport c:d;\n}\n"
    );
}

#[test]
fn an_import_before_the_module_does_not_count() {
    let lib_text = "import a:b;\nmod deps {\nworld imports {\nimport c:d;\n}\n}\n";
    let scan = scanned(lib_text, &["a:b"]);
    assert!(scan.lines[2..].contains(&"            import a:b;".to_string()));
    assert_eq!(scan.lines.len(), 7);
}

#[test]
fn an_import_counts_only_if_it_is_the_same_line() {
    let lib_text = "mod deps {\nworld imports {\nimport a:b; // yes\nimport  a:b;\n}\n";
    let scan = scanned(lib_text, &["a:b"]);
    assert_eq!(scan.unseen_imports, texts(&["import a:b;"]));
    assert_eq!(scan.lines.len(), 6);
}

#[test]
fn a_scan_can_be_made_line_by_line() {
    let interfaces = texts(&["x:y", "d:e"]);
    let mut scan = DepsScan::start(NEW_MODULE, &interfaces).unwrap();
    assert_eq!(scan.index, 1);
    while scan.has_next() {
        scan.step();
    }
    assert_eq!(scan.lines, scanned(NEW_MODULE, &["x:y", "d:e"]).lines);
    assert!(DepsScan::start("fn f() {}", &interfaces).is_none());
}
