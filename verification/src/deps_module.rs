//! The `deps` module of a component's `src/lib.rs`, which holds its WIT bindings.
//!
//! A file that already has such a module is scanned, and the imports that it lacks are put before
//! the last line of the `world imports` block of the module, or before the line that opens the
//! block where the block has no line. For a file without such a module the text of a new one is
//! made.

use crate::text;
use vstd::prelude::*;
use vstd::string::*;

verus! {

/// What the line that imports `interface` says.
pub open spec fn import_item(interface: Seq<char>) -> Seq<char> {
    "import "@ + interface + ";"@
}

/// What the line that asks for the bindings of `interface` says.
pub open spec fn with_item(interface: Seq<char>) -> Seq<char> {
    "\""@ + interface + "\": generate,"@
}

/// `item` as a line of the module, indented.
pub open spec fn module_line(item: Seq<char>) -> Seq<char> {
    "            "@ + item
}

/// The import lines for `interfaces`, without their indentation.
pub open spec fn import_items(interfaces: Seq<Seq<char>>) -> Seq<Seq<char>> {
    interfaces.map_values(|i: Seq<char>| import_item(i))
}

/// The lines that ask for the bindings of `interfaces`, without their indentation.
pub open spec fn with_items(interfaces: Seq<Seq<char>>) -> Seq<Seq<char>> {
    interfaces.map_values(|i: Seq<char>| with_item(i))
}

/// The items as lines of the module.
pub open spec fn module_lines(items: Seq<Seq<char>>) -> Seq<Seq<char>> {
    items.map_values(|i: Seq<char>| module_line(i))
}

/// `items` without those that equal `item`.
pub open spec fn without(items: Seq<Seq<char>>, item: Seq<char>) -> Seq<Seq<char>> {
    items.filter(|i: Seq<char>| i != item)
}

/// Whether `line` opens the `deps` module.
pub open spec fn opens_deps(line: Seq<char>) -> bool {
    "mod deps {"@.is_prefix_of(text::trimmed(line))
}

/// Whether `line` opens the block of imports.
pub open spec fn opens_imports(line: Seq<char>) -> bool {
    "world imports {"@.is_prefix_of(text::trimmed(line))
}

/// Whether `line` closes a block.
pub open spec fn closes(line: Seq<char>) -> bool {
    "}"@.is_prefix_of(text::trimmed(line))
}

/// Whether `line` is an import.
pub open spec fn is_import(line: Seq<char>) -> bool {
    "import "@.is_prefix_of(text::trimmed(line))
}

/// Whether `line` opens the table of bindings to generate.
pub open spec fn opens_with(line: Seq<char>) -> bool {
    "with: {"@.is_prefix_of(text::trimmed(line))
}

/// Whether `line` asks for the bindings of an interface.
pub open spec fn is_generate(line: Seq<char>) -> bool {
    ": generate,"@.is_suffix_of(text::trimmed(line))
}

/// The index of the first line that opens the `deps` module, or the number of lines.
pub open spec fn first_deps_line(lines: Seq<Seq<char>>) -> nat
    decreases lines.len(),
{
    if lines.len() == 0 || opens_deps(lines.first()) {
        0
    } else {
        1 + first_deps_line(lines.drop_first())
    }
}

/// The items as lines of the module; a single empty line where there are none.
pub open spec fn listed(items: Seq<Seq<char>>) -> Seq<Seq<char>> {
    if items.len() == 0 {
        seq![Seq::empty()]
    } else {
        module_lines(items)
    }
}

/// The lines of a new `deps` module up to its imports.
pub open spec fn module_head() -> Seq<Seq<char>> {
    seq![
        Seq::empty(),
        "mod deps {"@,
        "    wit_bindgen::generate!({"@,
        "        inline: r#\""@,
        "        package root:component;"@,
        "        world imports {"@,
    ]
}

/// The lines of a new `deps` module between its imports and its bindings.
pub open spec fn module_middle() -> Seq<Seq<char>> {
    seq!["        }"@, "        \"#,"@, "        with: {"@]
}

/// The lines of a new `deps` module after its bindings.
pub open spec fn module_tail(component_id: Seq<char>) -> Seq<Seq<char>> {
    seq![
        "        },"@,
        "        path: \".wit/components/"@ + component_id + "\","@,
        "    });"@,
        "}"@,
    ]
}

/// The lines of a new `deps` module for a component that imports `interfaces`.
pub open spec fn new_module(component_id: Seq<char>, interfaces: Seq<Seq<char>>) -> Seq<Seq<char>> {
    module_head() + listed(import_items(interfaces)) + module_middle() + listed(
        with_items(interfaces),
    ) + module_tail(component_id)
}

/// What a scan has learned from the lines that it has passed.
pub struct Findings {
    /// The scan is inside a block of imports.
    pub in_imports: bool,
    /// The scan has passed the opening of the table of bindings.
    pub in_with: bool,
    /// The requested imports that were not found in a block of imports.
    pub unseen_imports: Seq<Seq<char>>,
    /// The requested bindings that were not found in the table of bindings.
    pub unseen_withs: Seq<Seq<char>>,
}

impl Findings {
    /// What is known before the first line.
    pub open spec fn none(interfaces: Seq<Seq<char>>) -> Findings {
        Findings {
            in_imports: false,
            in_with: false,
            unseen_imports: import_items(interfaces),
            unseen_withs: with_items(interfaces),
        }
    }

    /// Whether `line` ends the block of imports that the scan is in.
    pub open spec fn ends_imports(self, line: Seq<char>) -> bool {
        self.in_imports && !opens_imports(line) && closes(line)
    }

    /// What is known after one more line.
    pub open spec fn read(self, line: Seq<char>) -> Findings {
        if opens_imports(line) {
            Findings { in_imports: true, ..self }
        } else if self.in_imports && closes(line) {
            Findings { in_imports: false, ..self }
        } else if self.in_imports && is_import(line) {
            Findings { unseen_imports: without(self.unseen_imports, text::trimmed(line)), ..self }
        } else if opens_with(line) {
            Findings { in_with: true, ..self }
        } else if self.in_with && is_generate(line) {
            Findings { unseen_withs: without(self.unseen_withs, text::trimmed(line)), ..self }
        } else {
            self
        }
    }
}

/// A scan of a file, between two lines.
pub struct Scan {
    /// The lines passed, with those that the scan has put between them.
    pub done: Seq<Seq<char>>,
    /// The lines to come.
    pub rest: Seq<Seq<char>>,
    /// What is known from the lines passed.
    pub found: Findings,
}

impl Scan {
    /// The scan of `lines` that has just passed the line at index `at`, which opens the module.
    pub open spec fn at_module(lines: Seq<Seq<char>>, at: int, interfaces: Seq<Seq<char>>) -> Scan {
        Scan {
            done: lines.take(at + 1),
            rest: lines.skip(at + 1),
            found: Findings::none(interfaces),
        }
    }

    /// The scan after its next line. Where that line ends the block of imports, the imports not
    /// found so far go before the line that precedes it.
    pub open spec fn step(self) -> Scan {
        let line = self.rest.first();
        Scan {
            done: if self.found.ends_imports(line) {
                self.done.drop_last() + module_lines(self.found.unseen_imports)
                    + seq![self.done.last(), line]
            } else {
                self.done.push(line)
            },
            rest: self.rest.drop_first(),
            found: self.found.read(line),
        }
    }

    /// The scan when no line is left.
    pub open spec fn complete(self) -> Scan
        decreases self.rest.len(),
    {
        if self.rest.len() == 0 {
            self
        } else {
            self.step().complete()
        }
    }
}

/// A scan under way over the lines of a file that has a `deps` module.
pub struct DepsScan {
    /// The lines of the file, with the imports added so far.
    pub lines: Vec<String>,
    /// The index of the line passed last.
    pub index: usize,
    /// The scan is inside a block of imports.
    pub in_imports: bool,
    /// The scan has passed the opening of the table of bindings.
    pub in_with: bool,
    /// The requested imports that were not found in a block of imports.
    pub unseen_imports: Vec<String>,
    /// The requested bindings that were not found in the table of bindings.
    pub unseen_withs: Vec<String>,
}

impl View for DepsScan {
    type V = Scan;

    open spec fn view(&self) -> Scan {
        Scan {
            done: text::texts(self.lines@).take(self.index + 1),
            rest: text::texts(self.lines@).skip(self.index + 1),
            found: Findings {
                in_imports: self.in_imports,
                in_with: self.in_with,
                unseen_imports: text::texts(self.unseen_imports@),
                unseen_withs: text::texts(self.unseen_withs@),
            },
        }
    }
}

/// [`first_deps_line`] is the least index of a line that opens the module, if any does.
pub proof fn lemma_first_deps_line(lines: Seq<Seq<char>>)
    ensures
        first_deps_line(lines) <= lines.len(),
        first_deps_line(lines) < lines.len() ==> opens_deps(lines[first_deps_line(lines) as int]),
        forall|k: int| 0 <= k < first_deps_line(lines) ==> !opens_deps(lines[k]),
    decreases lines.len(),
{
    if lines.len() > 0 && !opens_deps(lines.first()) {
        lemma_first_deps_line(lines.drop_first());
        assert forall|k: int| 0 <= k < first_deps_line(lines) implies !opens_deps(lines[k]) by {
            if k > 0 {
                assert(lines.drop_first()[k - 1] == lines[k]);
            }
        }
    }
}

/// A given index is [`first_deps_line`] if its line opens the module, or it is the end, and no
/// line before it does.
pub proof fn lemma_first_deps_line_is(lines: Seq<Seq<char>>, at: int)
    requires
        0 <= at <= lines.len(),
        at < lines.len() ==> opens_deps(lines[at]),
        forall|k: int| 0 <= k < at ==> !opens_deps(lines[k]),
    ensures
        first_deps_line(lines) == at,
{
    lemma_first_deps_line(lines);
}

/// `items` without those that equal `item`.
fn drop_item(items: &mut Vec<String>, item: &String)
    ensures
        text::texts(final(items)@) == without(text::texts(old(items)@), item@),
{
    let ghost all = text::texts(items@);
    let ghost keep = |i: Seq<char>| i != item@;
    let mut kept: Vec<String> = Vec::new();
    let mut k: usize = 0;
    while k < items.len()
        invariant
            k <= items@.len(),
            all == text::texts(items@),
            keep == (|i: Seq<char>| i != item@),
            text::texts(kept@) == all.take(k as int).filter(keep),
        decreases items@.len() - k,
    {
        proof {
            reveal(Seq::filter);
            assert(all.take(k + 1).drop_last() =~= all.take(k as int));
        }
        let ghost before = kept@;
        if items[k] != *item {
            kept.push(items[k].clone());
            assert(text::texts(kept@) =~= text::texts(before).push(items@[k as int]@));
        }
        k = k + 1;
    }
    assert(all.take(k as int) =~= all);
    *items = kept;
}

/// The import lines for `interfaces`, without their indentation.
fn make_import_items(interfaces: &Vec<String>) -> (r: Vec<String>)
    ensures
        text::texts(r@) == import_items(text::texts(interfaces@)),
{
    let mut items: Vec<String> = Vec::new();
    let mut k: usize = 0;
    while k < interfaces.len()
        invariant
            k <= interfaces@.len(),
            text::texts(items@) == import_items(text::texts(interfaces@)).take(k as int),
        decreases interfaces@.len() - k,
    {
        let mut item = "import ".to_owned();
        item.append(interfaces[k].as_str());
        item.append(";");
        let ghost before = items@;
        items.push(item);
        k = k + 1;
        assert(text::texts(items@) =~= text::texts(before).push(item@));
        assert(text::texts(items@) =~= import_items(text::texts(interfaces@)).take(k as int));
    }
    assert(import_items(text::texts(interfaces@)).take(k as int) =~= import_items(
        text::texts(interfaces@),
    ));
    items
}

/// The lines that ask for the bindings of `interfaces`, without their indentation.
fn make_with_items(interfaces: &Vec<String>) -> (r: Vec<String>)
    ensures
        text::texts(r@) == with_items(text::texts(interfaces@)),
{
    let mut items: Vec<String> = Vec::new();
    let mut k: usize = 0;
    while k < interfaces.len()
        invariant
            k <= interfaces@.len(),
            text::texts(items@) == with_items(text::texts(interfaces@)).take(k as int),
        decreases interfaces@.len() - k,
    {
        let mut item = "\"".to_owned();
        item.append(interfaces[k].as_str());
        item.append("\": generate,");
        let ghost before = items@;
        items.push(item);
        k = k + 1;
        assert(text::texts(items@) =~= text::texts(before).push(item@));
        assert(text::texts(items@) =~= with_items(text::texts(interfaces@)).take(k as int));
    }
    assert(with_items(text::texts(interfaces@)).take(k as int) =~= with_items(
        text::texts(interfaces@),
    ));
    items
}

impl DepsScan {
    /// The scan has passed a line of the file.
    pub open spec fn wf(self) -> bool {
        self.index < self.lines.len()
    }

    /// A scan of the file `lib_text` that has passed the line which opens its `deps` module;
    /// nothing if the file has no such line.
    pub fn start(lib_text: &str, interfaces: &Vec<String>) -> (r: Option<DepsScan>)
        ensures
            ({
                let lines = text::lines_of(lib_text@);
                let at = first_deps_line(lines);
                match r {
                    Some(scan) => {
                        &&& at < lines.len()
                        &&& scan.wf()
                        &&& scan@ == Scan::at_module(
                            lines,
                            at as int,
                            text::texts(interfaces@),
                        )
                    },
                    None => at == lines.len(),
                }
            }),
    {
        let lines = text::lines(lib_text);
        let ghost all = text::texts(lines@);
        let mut at: usize = 0;
        while at < lines.len() && !text::starts_with(text::trim(lines[at].as_str()), "mod deps {")
            invariant
                all == text::texts(lines@),
                at <= lines@.len(),
                forall|k: int| 0 <= k < at ==> !opens_deps(all[k]),
            decreases lines@.len() - at,
        {
            assert(all[at as int] == lines@[at as int]@);
            at = at + 1;
        }
        proof {
            assert(at < lines@.len() ==> all[at as int] == lines@[at as int]@);
            lemma_first_deps_line_is(all, at as int);
        }
        if at < lines.len() {
            let scan = DepsScan {
                lines,
                index: at,
                in_imports: false,
                in_with: false,
                unseen_imports: make_import_items(interfaces),
                unseen_withs: make_with_items(interfaces),
            };
            Some(scan)
        } else {
            None
        }
    }

    /// Whether a line is left to pass.
    pub fn has_next(&self) -> (r: bool)
        requires
            self.wf(),
        ensures
            r == (self@.rest.len() > 0),
    {
        self.index + 1 < self.lines.len()
    }

    /// Puts the imports not found so far before the line that precedes the current one.
    fn insert_unseen(&mut self)
        requires
            old(self).wf(),
            old(self).index >= 1,
        ensures
            final(self).wf(),
            final(self)@.done == old(self)@.done.drop_last().drop_last() + module_lines(
                old(self)@.found.unseen_imports,
            ) + old(self)@.done.skip(old(self)@.done.len() - 2),
            final(self)@.rest == old(self)@.rest,
            final(self)@.found == old(self)@.found,
    {
        let ghost start = self.index as int;
        let ghost all = text::texts(self.lines@);
        let ghost unseen = text::texts(self.unseen_imports@);
        let mut k: usize = 0;
        assert(all =~= all.take(start - 1) + module_lines(unseen.take(0)) + all.skip(start - 1));
        while k < self.unseen_imports.len()
            invariant
                self.wf(),
                self.index == start + k,
                1 <= start < all.len(),
                k <= unseen.len(),
                unseen == text::texts(self.unseen_imports@),
                all == text::texts(old(self).lines@),
                self.unseen_withs@ == old(self).unseen_withs@,
                self.unseen_imports@ == old(self).unseen_imports@,
                self.in_imports == old(self).in_imports,
                self.in_with == old(self).in_with,
                text::texts(self.lines@) == all.take(start - 1) + module_lines(unseen.take(k as int))
                    + all.skip(start - 1),
            decreases unseen.len() - k,
        {
            let mut line = "            ".to_owned();
            line.append(self.unseen_imports[k].as_str());
            let ghost before = text::texts(self.lines@);
            assert(line@ == module_line(unseen[k as int]));
            self.lines.insert(self.index - 1, line);
            assert(self.index + 1 < self.lines.len());
            self.index = self.index + 1;
            k = k + 1;
            proof {
                assert(text::texts(self.lines@) =~= before.insert(start + k - 2, line@));
                assert(module_lines(unseen.take(k as int)) =~= module_lines(
                    unseen.take(k - 1),
                ).push(line@));
                assert(text::texts(self.lines@) =~= all.take(start - 1) + module_lines(
                    unseen.take(k as int),
                ) + all.skip(start - 1));
            }
        }
        proof {
            assert(unseen.take(k as int) =~= unseen);
            let added = module_lines(unseen);
            assert(self@.done =~= all.take(start - 1) + added + all.subrange(
                start - 1,
                start + 1,
            ));
            assert(old(self)@.done.skip(start - 1) =~= all.subrange(start - 1, start + 1));
            assert(old(self)@.done.drop_last().drop_last() =~= all.take(start - 1));
            assert(self@.rest =~= all.skip(start + 1));
        }
    }

    /// Passes the next line.
    pub fn step(&mut self)
        requires
            old(self).wf(),
            old(self)@.rest.len() > 0,
        ensures
            final(self).wf(),
            final(self)@ == old(self)@.step(),
    {
        let ghost line = self@.rest.first();
        self.index = self.index + 1;
        let current = text::trim(self.lines[self.index].as_str()).to_owned();
        proof {
            assert(current@ == text::trimmed(line));
            assert(self@.done =~= old(self)@.done.push(line));
            assert(self@.rest =~= old(self)@.rest.drop_first());
        }
        if text::starts_with(current.as_str(), "world imports {") {
            self.in_imports = true;
            return ;
        }
        if self.in_imports {
            if text::starts_with(current.as_str(), "}") {
                self.in_imports = false;
                let ghost passed = self@.done;
                self.insert_unseen();
                proof {
                    assert(passed.drop_last().drop_last() =~= old(self)@.done.drop_last());
                    assert(passed.skip(passed.len() - 2) =~= seq![old(self)@.done.last(), line]);
                }
                return ;
            }
            if text::starts_with(current.as_str(), "import ") {
                drop_item(&mut self.unseen_imports, &current);
                return ;
            }
        }
        if text::starts_with(current.as_str(), "with: {") {
            self.in_with = true;
            return ;
        }
        if self.in_with {
            if text::ends_with(current.as_str(), ": generate,") {
                drop_item(&mut self.unseen_withs, &current);
            }
        }
    }

    /// Passes every line that is left.
    pub fn complete(&mut self)
        requires
            old(self).wf(),
        ensures
            final(self).wf(),
            final(self)@ == old(self)@.complete(),
            final(self)@.rest.len() == 0,
    {
        while self.has_next()
            invariant
                self.wf(),
                self@.complete() == old(self)@.complete(),
            decreases self@.rest.len(),
        {
            self.step();
        }
    }
}

/// Appends the items to `lines` as lines of the module, or an empty line where there are none.
fn push_listed(lines: &mut Vec<String>, items: &Vec<String>)
    ensures
        text::texts(final(lines)@) == text::texts(old(lines)@) + listed(text::texts(items@)),
{
    let ghost start = text::texts(lines@);
    let ghost all = text::texts(items@);
    if items.len() == 0 {
        lines.push(String::new());
        assert(text::texts(lines@) =~= start + listed(all));
        return ;
    }
    let mut k: usize = 0;
    assert(start =~= start + module_lines(all).take(0));
    while k < items.len()
        invariant
            k <= items@.len(),
            all == text::texts(items@),
            text::texts(lines@) == start + module_lines(all).take(k as int),
        decreases items@.len() - k,
    {
        let mut line = "            ".to_owned();
        line.append(items[k].as_str());
        let ghost before = lines@;
        lines.push(line);
        k = k + 1;
        assert(text::texts(lines@) =~= text::texts(before).push(line@));
        assert(text::texts(lines@) =~= start + module_lines(all).take(k as int));
    }
    assert(module_lines(all).take(k as int) =~= module_lines(all));
}

/// The text of a new `deps` module for the component `component_id`, which imports
/// `interfaces`.
pub fn deps_module_text(component_id: &str, interfaces: &Vec<String>) -> (r: String)
    ensures
        r@ == text::terminated(new_module(component_id@, text::texts(interfaces@))),
{
    let mut path = "        path: \".wit/components/".to_owned();
    path.append(component_id);
    path.append("\",");
    let mut lines: Vec<String> = Vec::new();
    lines.push(String::new());
    lines.push("mod deps {".to_owned());
    lines.push("    wit_bindgen::generate!({".to_owned());
    lines.push("        inline: r#\"".to_owned());
    lines.push("        package root:component;".to_owned());
    lines.push("        world imports {".to_owned());
    assert(text::texts(lines@) =~= module_head());
    push_listed(&mut lines, &make_import_items(interfaces));
    let ghost before = text::texts(lines@);
    lines.push("        }".to_owned());
    lines.push("        \"#,".to_owned());
    lines.push("        with: {".to_owned());
    assert(text::texts(lines@) =~= before + module_middle());
    push_listed(&mut lines, &make_with_items(interfaces));
    let ghost before = text::texts(lines@);
    lines.push("        },".to_owned());
    lines.push(path);
    lines.push("    });".to_owned());
    lines.push("}".to_owned());
    assert(text::texts(lines@) =~= before + module_tail(component_id@));
    text::terminate(&lines)
}

/// What becomes of a component's `src/lib.rs`.
pub enum LibEdit {
    /// The file has a `deps` module: the scan of it, with no line left.
    Scanned(DepsScan),
    /// The file has none: the text of a new one.
    Created(String),
}

/// Works out the `deps` module of the file `lib_text` for the component `component_id`, which
/// imports `interfaces`.
pub fn edit_lib(lib_text: &str, component_id: &str, interfaces: &Vec<String>) -> (r: LibEdit)
    ensures
        ({
            let lines = text::lines_of(lib_text@);
            let at = first_deps_line(lines);
            let wanted = text::texts(interfaces@);
            match r {
                LibEdit::Scanned(scan) => {
                    &&& at < lines.len()
                    &&& scan.wf()
                    &&& scan@ == Scan::at_module(lines, at as int, wanted).complete()
                    &&& scan@.rest.len() == 0
                },
                LibEdit::Created(module) => {
                    &&& at == lines.len()
                    &&& module@ == text::terminated(new_module(component_id@, wanted))
                },
            }
        }),
{
    match DepsScan::start(lib_text, interfaces) {
        Some(scan) => {
            let mut scan = scan;
            scan.complete();
            LibEdit::Scanned(scan)
        },
        None => LibEdit::Created(deps_module_text(component_id, interfaces)),
    }
}

} // verus!
