use spin_deps::cargo_manifest::{
    add_wit_bindgen, cargo_text_with_wit_bindgen, plan_dependency, DependencyStep, RootEntry,
};
use spin_deps::error::AddError;

fn changed(cargo_text: &str) -> String {
    cargo_text_with_wit_bindgen(cargo_text).unwrap().unwrap()
}

#[test]
fn an_entry_is_put_into_the_table() {
    let before = "[package]\nname = \"c\" # the name\n\n[dependencies]\nanyhow = \"1\"\n\n[lib]\n";
    let after =
        "[package]\nname = \"c\" # the name\n\n[dependencies]\nanyhow = \"1\"\nwit-bindgen = \"0.34.0\"\n\n[lib]\n";
    assert_eq!(changed(before), after);
}

#[test]
fn a_missing_table_is_put_in() {
    assert_eq!(
        changed("[package]\nname = \"c\"\n"),
        "[package]\nname = \"c\"\n\n[dependencies]\nwit-bindgen = \"0.34.0\"\n"
    );
    assert_eq!(changed(""), "[dependencies]\nwit-bindgen = \"0.34.0\"\n");
}

#[test]
fn a_listed_dependency_is_kept() {
    let texts = [
        "[dependencies]\nwit-bindgen = \"0.30\"\n",
        "[dependencies]\nwit-bindgen = { version = \"0.1\", features = [] }\n",
        "[dependencies.wit-bindgen]\nversion = \"1\"\n",
        "dependencies.wit-bindgen = \"1\"\n",
    ];
    for text in texts {
        assert_eq!(cargo_text_with_wit_bindgen(text).unwrap(), None);
    }
}

#[test]
fn adding_again_changes_nothing() {
    let texts = [
        "",
        "[dependencies]\n",
        "[dependencies.foo]\nversion = \"1\"\n",
        "dependencies.foo = \"1\"\n[other]\na = 1\n",
        "[b]\n[[dependencies.x]]\n[b.c]\n[dependencies.x.y]\n",
    ];
    for text in texts {
        assert_eq!(cargo_text_with_wit_bindgen(&changed(text)).unwrap(), None, "{}", text);
    }
}

#[test]
fn other_dependencies_are_kept() {
    let texts = [
        "[dependencies.foo]\nversion = \"1\"\n",
        "dependencies.foo.version = \"1\"\n[other]\na = 1\n",
        "[b]\n[dependencies.foo]\nversion = \"1\"\n[b.c]\n[dependencies.foo.d]\n",
    ];
    for text in texts {
        let doc: toml_edit::DocumentMut = changed(text).parse().unwrap();
        assert_eq!(doc["dependencies"]["foo"]["version"].as_str(), Some("1"), "{}", text);
        assert_eq!(doc["dependencies"]["wit-bindgen"].as_str(), Some("0.34.0"), "{}", text);
    }
}

#[test]
fn dependencies_have_to_be_a_table() {
    for text in ["dependencies = 1\n", "dependencies = { a = \"1\" }\n", "[[dependencies]]\n"] {
        let error = cargo_text_with_wit_bindgen(text).unwrap_err();
        assert!(matches!(error, AddError::DependenciesNotTable), "{}", text);
        assert_eq!(error.message(), "existing dependencies table is... not a table");
    }
}

#[test]
fn a_text_that_is_not_toml_is_refused() {
    let reason = "a = ".parse::<toml_edit::DocumentMut>().unwrap_err().to_string();
    let error = cargo_text_with_wit_bindgen("a = ").unwrap_err();
    assert!(matches!(error, AddError::InvalidCargoToml(_)));
    assert_eq!(error.message(), reason);
}

#[test]
fn a_document_is_edited_in_place() {
    let mut doc: toml_edit::DocumentMut = "x = 1\n".parse().unwrap();
    assert!(add_wit_bindgen(&mut doc).unwrap());
    assert_eq!(doc.to_string(), "x = 1\n\n[dependencies]\nwit-bindgen = \"0.34.0\"\n");
    assert!(!add_wit_bindgen(&mut doc).unwrap());
    assert_eq!(doc.to_string(), "x = 1\n\n[dependencies]\nwit-bindgen = \"0.34.0\"\n");
}

#[test]
fn a_refused_document_stays_as_it_is() {
    let mut doc: toml_edit::DocumentMut = "dependencies = 1\n".parse().unwrap();
    assert!(matches!(add_wit_bindgen(&mut doc), Err(AddError::DependenciesNotTable)));
    assert_eq!(doc.to_string(), "dependencies = 1\n");
}

#[test]
fn the_steps_are_planned() {
    for listed in [false, true] {
        assert!(matches!(
            plan_dependency(RootEntry::NotTable, listed),
            Err(AddError::DependenciesNotTable)
        ));
        assert_eq!(
            plan_dependency(RootEntry::Vacant, listed).unwrap(),
            DependencyStep::AddTableAndEntry
        );
    }
    assert_eq!(plan_dependency(RootEntry::Table, false).unwrap(), DependencyStep::AddEntry);
    assert_eq!(plan_dependency(RootEntry::Table, true).unwrap(), DependencyStep::Keep);
}

fn value_places(value: &toml_edit::Value, at: &str, out: &mut Vec<(String, String)>) {
    let shown = match value {
        toml_edit::Value::String(s) => format!("text {:?}", s.value()),
        toml_edit::Value::Integer(v) => format!("scalar {}", v.display_repr()),
        toml_edit::Value::Float(v) => format!("scalar {}", v.display_repr()),
        toml_edit::Value::Boolean(v) => format!("scalar {}", v.display_repr()),
        toml_edit::Value::Datetime(v) => format!("scalar {}", v.display_repr()),
        toml_edit::Value::Array(array) => {
            for (i, element) in array.iter().enumerate() {
                value_places(element, &format!("{}[{}]", at, i), out);
            }
            format!("array {}", array.len())
        }
        toml_edit::Value::InlineTable(table) => {
            for (key, element) in table.iter() {
                value_places(element, &format!("{}/{:?}", at, key), out);
            }
            "inline".to_string()
        }
    };
    out.push((at.to_string(), shown));
}

fn table_places(table: &toml_edit::Table, at: &str, out: &mut Vec<(String, String)>) {
    for (key, item) in table.iter() {
        let place = format!("{}/{:?}", at, key);
        match item {
            toml_edit::Item::Value(value) => value_places(value, &place, out),
            toml_edit::Item::Table(inner) => {
                table_places(inner, &place, out);
                out.push((place, "table".to_string()));
            }
            toml_edit::Item::ArrayOfTables(tables) => {
                for (i, inner) in tables.iter().enumerate() {
                    table_places(inner, &format!("{}[{}]", place, i), out);
                    out.push((format!("{}[{}]", place, i), "table".to_string()));
                }
                out.push((place, format!("tables {}", tables.len())));
            }
            toml_edit::Item::None => panic!("{} is vacated", place),
        }
    }
}

fn places(toml: &str) -> Vec<(String, String)> {
    let doc: toml_edit::DocumentMut = toml.parse().unwrap();
    let mut out = vec![];
    table_places(doc.as_table(), "", &mut out);
    out.sort();
    out
}

#[test]
fn every_other_value_is_kept() {
    let texts = [
        "",
        "# only a comment",
        "a = 1 # no line feed at the end",
        "\u{feff}a = 0xf",
        "i = 1_000\nh = 0xFF\nf = 6.02e+23\nn = -nan\nb = false\nd = 1979-05-27 07:32:00Z\nt = 07:32:00\n",
        "a = [1, [true, \"x\"], # c\n { b = 1.5, c.d = 2 },\n]\ne = { }\nz = []\n",
        "[dependencies]\nserde = { version = \"1\", features = [\"derive\"], default-features = false }\n",
        "[[bin]]\nname = \"a\"\n[bin.m]\nk = 1\n[other]\n[[bin]]\nname = \"b\"\n[[bin.x]]\nv = 2\n[[bin.x]]\nv = 3\n",
        "[b]\n[[dependencies.x]]\nq = 1\n[b.c]\n[dependencies.x.y]\nr = 2\n[[dependencies.x]]\nq = 3\n",
        "[[dependencies.x]]\nq = 1\n[z]\n[dependencies.x.y]\nr = 2\n",
        "dependencies.foo = \"1\"\na.b = 1\nc = 2\na.d = 3\n[a.e]\nf = 4\n[dependencies.bar]\ng = 5\n",
        "[a.b]\nx = 1\n[a]\ny = 2\n[dependencies.foo]\nversion = \"1\"\n",
        "[a]\r\ns = \"\"\"one\r\ntwo\"\"\"\r\nl = [ 1,\r\n 2 ]\r\nm = \'\'\'x\r\ny\'\'\'\r\n",
        "\"quoted key\" = 1\n\'a.b\' = 2\n[\"x y\".\"\"]\nk = \"\\u00e9\\n\"\n",
    ];
    for text in texts {
        if text.parse::<toml_edit::DocumentMut>().is_err() {
            panic!("{}", text);
        }
        let before = places(text);
        let mut expected = before.clone();
        expected.push(("/\"dependencies\"/\"wit-bindgen\"".to_string(), "text \"0.34.0\"".to_string()));
        let table = ("/\"dependencies\"".to_string(), "table".to_string());
        if !expected.contains(&table) {
            expected.push(table);
        }
        expected.sort();
        assert_eq!(places(&changed(text)), expected, "{}", text);
    }
}
