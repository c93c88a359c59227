//! The `wit-bindgen` dependency in a component's `Cargo.toml`.

use crate::error::AddError;
use vstd::prelude::*;
use vstd::string::*;

verus! {

/// A TOML document that can be edited and printed.
#[verifier::external_type_specification]
#[verifier::external_body]
pub struct ExDocumentMut(toml_edit::DocumentMut);

/// A step on the way to a place of a TOML document.
pub enum TomlStep {
    /// To what stands under that key of a table.
    Key(Seq<char>),
    /// To the element at that index of an array.
    Index(nat),
}

/// What stands at a place of a TOML document. What stands in a table or in an array has places of
/// its own.
pub enum TomlNode {
    /// A table with a header of its own or of dotted keys.
    Table,
    /// A table written as a value.
    InlineTable,
    /// An array of tables, of that length, each with a header of its own.
    Tables(nat),
    /// An array written as a value, of that length.
    Array(nat),
    /// A string: what it says.
    Text(Seq<char>),
    /// A number, a boolean, or a date or time: how it is written.
    Scalar(Seq<char>),
    /// A key whose item was taken out, which no parsed document has.
    Vacated,
}

/// The places of a document: the steps that lead to each, from the root on, and what stands there.
pub type TomlPlaces = Map<Seq<TomlStep>, TomlNode>;

/// The place under a key of the root table.
pub open spec fn root_place(key: Seq<char>) -> Seq<TomlStep> {
    seq![TomlStep::Key(key)]
}

/// The place under a key of a table of the root table.
pub open spec fn entry_place(table: Seq<char>, key: Seq<char>) -> Seq<TomlStep> {
    seq![TomlStep::Key(table), TomlStep::Key(key)]
}

/// The places of `doc`.
pub uninterp spec fn document_places(doc: toml_edit::DocumentMut) -> Map<Seq<TomlStep>, TomlNode>;

/// Whether `doc` was parsed, and since then had only plain string entries and empty tables put in.
pub uninterp spec fn document_is_parsed(doc: toml_edit::DocumentMut) -> bool;

/// `doc`, printed.
pub uninterp spec fn document_text(doc: toml_edit::DocumentMut) -> Seq<char>;

/// What the TOML parser makes of a text: the places of the document, or the message of its error.
pub uninterp spec fn parsed_toml(text: Seq<char>) -> Result<
    Map<Seq<TomlStep>, TomlNode>,
    Seq<char>,
>;

/// `toml_edit::DocumentMut::from_str`, with the error that it returns printed (`Display`).
///
/// Claimed: the places of the document, and the message of the error, depend on the text alone.
#[verifier::external_body]
fn parse_document(toml: &str) -> (r: Result<toml_edit::DocumentMut, String>)
    ensures
        r is Ok <==> parsed_toml(toml@) is Ok,
        r matches Ok(doc) ==> parsed_toml(toml@)->Ok_0 == document_places(doc),
        r matches Ok(doc) ==> document_is_parsed(doc),
        r matches Err(e) ==> parsed_toml(toml@)->Err_0 == e@,
{
    match toml.parse::<toml_edit::DocumentMut>() {
        Ok(doc) => Ok(doc),
        Err(e) => Err(e.to_string()),
    }
}

/// `toml_edit::DocumentMut::to_string`.
///
/// Claimed: for a document that was parsed, and had only plain string entries and empty tables put
/// in, the text depends on the document alone, and is TOML for a document of the same places. What
/// the text keeps of comments, spaces and order is not stated.
#[verifier::external_body]
fn print_document(doc: &toml_edit::DocumentMut) -> (r: String)
    requires
        document_is_parsed(*doc),
    ensures
        r@ == document_text(*doc),
        parsed_toml(r@) is Ok,
        parsed_toml(r@)->Ok_0 == document_places(*doc),
{
    doc.to_string()
}

/// What is found under a key of the root table.
#[derive(Debug, PartialEq, Eq, Structural, Clone, Copy)]
pub enum RootEntry {
    /// Nothing.
    Vacant,
    /// A table.
    Table,
    /// Something that is not a table.
    NotTable,
}

/// What `places` have under a key of the root table.
pub open spec fn root_entry_of(places: TomlPlaces, key: Seq<char>) -> RootEntry {
    if !places.contains_key(root_place(key)) {
        RootEntry::Vacant
    } else if places[root_place(key)] is Table {
        RootEntry::Table
    } else {
        RootEntry::NotTable
    }
}

/// Whether `places` have an item under a key of a table of the root table.
pub open spec fn lists(places: TomlPlaces, table: Seq<char>, key: Seq<char>) -> bool {
    places.contains_key(entry_place(table, key)) && !(places[entry_place(table, key)] is Vacated)
}

/// `toml_edit::Table::entry` on the root table, with `Item::as_table_mut` on what is there.
///
/// Claimed: it tells what stands at that place, and leaves the document as it is. Where nothing
/// does, the document has no item behind that place.
#[verifier::external_body]
fn root_entry(doc: &mut toml_edit::DocumentMut, key: &str) -> (r: RootEntry)
    requires
        document_is_parsed(*old(doc)),
    ensures
        r == root_entry_of(document_places(*old(doc)), key@),
        r is Vacant ==> forall|k: Seq<char>|
            !(#[trigger] lists(document_places(*old(doc)), key@, k)),
        *final(doc) == *old(doc),
{
    match doc.entry(key) {
        toml_edit::Entry::Occupied(mut entry) => match entry.get_mut().as_table_mut() {
            Some(_) => RootEntry::Table,
            None => RootEntry::NotTable,
        },
        toml_edit::Entry::Vacant(_) => RootEntry::Vacant,
    }
}

/// `toml_edit::Table::contains_key` on a table of the root table.
///
/// Claimed: it tells whether an item stands at that place.
#[verifier::external_body]
fn contains_key(doc: &toml_edit::DocumentMut, table: &str, key: &str) -> (r: bool)
    requires
        document_is_parsed(*doc),
        root_entry_of(document_places(*doc), table@) is Table,
    ensures
        r == lists(document_places(*doc), table@, key@),
{
    doc[table].as_table().unwrap().contains_key(key)
}

/// Whether `s` is made of ASCII letters, digits, dots, hyphens and underscores, so that TOML needs
/// no escapes for it.
pub open spec fn is_plain(s: Seq<char>) -> bool {
    &&& s.len() > 0
    &&& forall|i: int|
        0 <= i < s.len() ==> {
            let c = #[trigger] s[i];
            'a' <= c <= 'z' || 'A' <= c <= 'Z' || '0' <= c <= '9' || c == '.' || c == '-' || c == '_'
        }
}

/// `toml_edit::Table::insert` of a string, on a table of the root table that has no item under
/// the key.
///
/// Claimed: the string then stands at that place, and every other place is as before.
#[verifier::external_body]
fn insert_string(doc: &mut toml_edit::DocumentMut, table: &str, key: &str, value: &str)
    requires
        document_is_parsed(*old(doc)),
        root_entry_of(document_places(*old(doc)), table@) is Table,
        !lists(document_places(*old(doc)), table@, key@),
        is_plain(key@),
        is_plain(value@),
    ensures
        document_places(*final(doc)) == document_places(*old(doc)).insert(
            entry_place(table@, key@),
            TomlNode::Text(value@),
        ),
        document_is_parsed(*final(doc)),
{
    let value = toml_edit::Formatted::new(value.to_owned());
    let item = toml_edit::Item::Value(toml_edit::Value::String(value));
    doc[table].as_table_mut().unwrap().insert(key, item);
}

/// `toml_edit::VacantEntry::insert` of an empty table (`toml_edit::Table::new`), on the root
/// table.
///
/// Claimed: the table then stands at that place, and every other place is as before.
#[verifier::external_body]
fn insert_table(doc: &mut toml_edit::DocumentMut, key: &str)
    requires
        document_is_parsed(*old(doc)),
        root_entry_of(document_places(*old(doc)), key@) is Vacant,
        is_plain(key@),
    ensures
        document_places(*final(doc)) == document_places(*old(doc)).insert(
            root_place(key@),
            TomlNode::Table,
        ),
        document_is_parsed(*final(doc)),
{
    doc.entry(key).or_insert(toml_edit::Item::Table(toml_edit::Table::new()));
}

/// What has to be done to a manifest for it to list a dependency.
#[derive(Debug, PartialEq, Eq, Structural, Clone, Copy)]
pub enum DependencyStep {
    /// Nothing: it is listed.
    Keep,
    /// The entry has to be put into the table of dependencies.
    AddEntry,
    /// The table has to be put in too.
    AddTableAndEntry,
}

/// Decides what has to be done to a manifest, from what stands under its key `dependencies` and
/// whether the dependency is listed there.
pub fn plan_dependency(entry: RootEntry, listed: bool) -> (r: Result<DependencyStep, AddError>)
    ensures
        r == match entry {
            RootEntry::NotTable => Err::<DependencyStep, AddError>(AddError::DependenciesNotTable),
            RootEntry::Vacant => Ok(DependencyStep::AddTableAndEntry),
            RootEntry::Table => Ok(
                if listed {
                    DependencyStep::Keep
                } else {
                    DependencyStep::AddEntry
                },
            ),
        },
{
    match entry {
        RootEntry::NotTable => Err(AddError::DependenciesNotTable),
        RootEntry::Vacant => Ok(DependencyStep::AddTableAndEntry),
        RootEntry::Table => if listed {
            Ok(DependencyStep::Keep)
        } else {
            Ok(DependencyStep::AddEntry)
        },
    }
}

/// Whether a manifest of these places lists `wit-bindgen` as a dependency.
pub open spec fn lists_wit_bindgen(places: TomlPlaces) -> bool {
    &&& root_entry_of(places, "dependencies"@) is Table
    &&& lists(places, "dependencies"@, "wit-bindgen"@)
}

/// The places of a manifest that lists `wit-bindgen` as a dependency: those of the given one, and
/// what it lacks of the table and the entry.
pub open spec fn with_wit_bindgen(places: TomlPlaces) -> TomlPlaces {
    if lists_wit_bindgen(places) {
        places
    } else {
        let table = if root_entry_of(places, "dependencies"@) is Vacant {
            places.insert(root_place("dependencies"@), TomlNode::Table)
        } else {
            places
        };
        table.insert(entry_place("dependencies"@, "wit-bindgen"@), TomlNode::Text("0.34.0"@))
    }
}

/// Makes a manifest list `wit-bindgen` as a dependency, and tells whether it had to be changed.
/// Where the `dependencies` entry is not a table, or nothing had to be changed, the document stays
/// as it is.
pub fn add_wit_bindgen(doc: &mut toml_edit::DocumentMut) -> (r: Result<bool, AddError>)
    requires
        document_is_parsed(*old(doc)),
    ensures
        ({
            let before = document_places(*old(doc));
            match r {
                Ok(changed) => {
                    &&& !(root_entry_of(before, "dependencies"@) is NotTable)
                    &&& changed == !lists_wit_bindgen(before)
                    &&& document_places(*final(doc)) == with_wit_bindgen(before)
                },
                Err(e) => {
                    &&& root_entry_of(before, "dependencies"@) is NotTable
                    &&& e == AddError::DependenciesNotTable
                },
            }
        }),
        document_is_parsed(*final(doc)),
        !(r matches Ok(true)) ==> *final(doc) == *old(doc),
{
    proof {
        reveal_strlit("dependencies");
        reveal_strlit("wit-bindgen");
        reveal_strlit("0.34.0");
    }
    let entry = root_entry(doc, "dependencies");
    let listed = match entry {
        RootEntry::Table => contains_key(doc, "dependencies", "wit-bindgen"),
        _ => false,
    };
    match plan_dependency(entry, listed) {
        Err(e) => Err(e),
        Ok(DependencyStep::Keep) => Ok(false),
        Ok(DependencyStep::AddEntry) => {
            insert_string(doc, "dependencies", "wit-bindgen", "0.34.0");
            Ok(true)
        },
        Ok(DependencyStep::AddTableAndEntry) => {
            assert(!lists(document_places(*doc), "dependencies"@, "wit-bindgen"@));
            assert(root_place("dependencies"@).len() != entry_place("dependencies"@, "wit-bindgen"@).len());
            insert_table(doc, "dependencies");
            insert_string(doc, "dependencies", "wit-bindgen", "0.34.0");
            Ok(true)
        },
    }
}

/// The text of a `Cargo.toml` with `wit-bindgen` among its dependencies, or nothing if it is among
/// them already. The text is that of a document as it is printed.
pub fn cargo_text_with_wit_bindgen(cargo_text: &str) -> (r: Result<Option<String>, AddError>)
    ensures
        match parsed_toml(cargo_text@) {
            Err(reason) => r matches Err(AddError::InvalidCargoToml(m)) && m@ == reason,
            Ok(places) => if root_entry_of(places, "dependencies"@) is NotTable {
                r == Err::<Option<String>, AddError>(AddError::DependenciesNotTable)
            } else if lists_wit_bindgen(places) {
                r matches Ok(None)
            } else {
                r matches Ok(Some(t)) && parsed_toml(t@) == Ok::<TomlPlaces, Seq<char>>(
                    with_wit_bindgen(places),
                ) && exists|doc: toml_edit::DocumentMut|
                    document_places(doc) == with_wit_bindgen(places) && t@
                        == #[trigger] document_text(doc)
            },
        },
{
    match parse_document(cargo_text) {
        Err(e) => Err(AddError::InvalidCargoToml(e)),
        Ok(doc) => {
            let mut doc = doc;
            match add_wit_bindgen(&mut doc) {
                Err(e) => Err(e),
                Ok(false) => Ok(None),
                Ok(true) => Ok(Some(print_document(&doc))),
            }
        },
    }
}

/// A manifest to which `wit-bindgen` was added lists it, and adding it again changes nothing.
pub proof fn adding_wit_bindgen_again_changes_nothing(places: TomlPlaces)
    requires
        !(root_entry_of(places, "dependencies"@) is NotTable),
    ensures
        lists_wit_bindgen(with_wit_bindgen(places)),
        with_wit_bindgen(with_wit_bindgen(places)) == with_wit_bindgen(places),
{
    assert(root_place("dependencies"@).len() != entry_place("dependencies"@, "wit-bindgen"@).len());
}

/// Adding `wit-bindgen` to a manifest keeps what stands at every place where something stood,
/// and puts something at no other place than those of the table and the entry. A dependency on
/// `wit-bindgen` that is there stays, whatever its version.
pub proof fn adding_wit_bindgen_keeps_the_rest(places: TomlPlaces, place: Seq<TomlStep>)
    requires
        !(root_entry_of(places, "dependencies"@) is NotTable),
    ensures
        lists_wit_bindgen(places) ==> with_wit_bindgen(places) == places,
        place != root_place("dependencies"@) && place != entry_place("dependencies"@, "wit-bindgen"@) ==> (
        with_wit_bindgen(places).contains_key(place) <==> places.contains_key(place)) && (
        places.contains_key(place) ==> with_wit_bindgen(places)[place] == places[place]),
        with_wit_bindgen(places)[root_place("dependencies"@)] is Table,
{
    assert(root_place("dependencies"@).len() != entry_place("dependencies"@, "wit-bindgen"@).len());
}

/// What is found under a key of the root table, said of the places themselves: nothing exactly if
/// there is no such place, and a table exactly if one stands there.
pub proof fn root_entry_is_what_stands_there(places: TomlPlaces, key: Seq<char>)
    ensures
        ({
            let place = seq![TomlStep::Key(key)];
            let entry = root_entry_of(places, key);
            &&& entry is Vacant <==> !places.contains_key(place)
            &&& entry is Table <==> places.contains_key(place) && places[place] is Table
            &&& entry is NotTable <==> places.contains_key(place) && !(places[place] is Table)
        }),
{
}

/// A manifest lists `wit-bindgen` exactly if `dependencies` is a table with an item under that
/// key, whatever else it lists.
pub proof fn only_wit_bindgen_counts(places: TomlPlaces)
    ensures
        ({
            let table = seq![TomlStep::Key("dependencies"@)];
            let entry = seq![TomlStep::Key("dependencies"@), TomlStep::Key("wit-bindgen"@)];
            lists_wit_bindgen(places) <==> {
                &&& places.contains_key(table)
                &&& places[table] is Table
                &&& places.contains_key(entry)
                &&& !(places[entry] is Vacated)
            }
        }),
{
}

/// Where `dependencies` is a table or missing, the manifest that results has `wit-bindgen` in the
/// table `dependencies`: at the version "0.34.0" if it had no item there, and as it was if it had
/// one. What stands at every other place, and which other places there are, stays.
pub proof fn wit_bindgen_ends_up_in_the_table(places: TomlPlaces)
    requires
        places.contains_key(seq![TomlStep::Key("dependencies"@)]) ==> places[seq![
            TomlStep::Key("dependencies"@),
        ]] is Table,
    ensures
        ({
            let table = seq![TomlStep::Key("dependencies"@)];
            let entry = seq![TomlStep::Key("dependencies"@), TomlStep::Key("wit-bindgen"@)];
            let after = with_wit_bindgen(places);
            let had = places.contains_key(table) && places.contains_key(entry) && !(
            places[entry] is Vacated);
            &&& after.contains_key(table)
            &&& after[table] is Table
            &&& after.contains_key(entry)
            &&& !had ==> after[entry] == TomlNode::Text("0.34.0"@)
            &&& had ==> after == places
            &&& forall|place: Seq<TomlStep>|
                place != table && place != entry ==> (#[trigger] after.contains_key(place)
                    <==> places.contains_key(place))
            &&& forall|place: Seq<TomlStep>|
                place != table && place != entry && places.contains_key(place)
                    ==> #[trigger] after[place] == places[place]
        }),
{
    let table = seq![TomlStep::Key("dependencies"@)];
    let entry = seq![TomlStep::Key("dependencies"@), TomlStep::Key("wit-bindgen"@)];
    assert(table.len() != entry.len());
    assert(root_place("dependencies"@) =~= table);
    assert(entry_place("dependencies"@, "wit-bindgen"@) =~= entry);
}

} // verus!
