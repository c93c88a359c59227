//! What the lines of a `deps` module say, and where a scan puts the lines that it adds.

use crate::deps_module;
use crate::deps_module::{DepsScan, Findings, Scan};
use crate::deps_module_laws;
use crate::text;
use vstd::prelude::*;
use vstd::string::*;

verus! {

/// Whether `words` stand in `line` at index `at`, with only white space before them and something
/// else from their last character on.
pub open spec fn starts_at(line: Seq<char>, words: Seq<char>, at: int) -> bool {
    &&& 0 <= at
    &&& at + words.len() <= line.len()
    &&& line.subrange(at, at + words.len()) == words
    &&& forall|k: int| 0 <= k < at ==> text::white_space(line[k])
    &&& exists|k: int|
        at + words.len() - 1 <= k < line.len() && !text::white_space(#[trigger] line[k])
}

/// Whether the first words of `line` are `words`.
pub open spec fn starts_with_words(line: Seq<char>, words: Seq<char>) -> bool {
    exists|at: int| #[trigger] starts_at(line, words, at)
}

/// Whether the last words of `line` are `words`: only white space stands behind them.
pub open spec fn ends_with_words(line: Seq<char>, words: Seq<char>) -> bool {
    exists|end: int|
        #![trigger line.subrange(end - words.len(), end)]
        words.len() <= end <= line.len() && line.subrange(end - words.len(), end) == words && (
        forall|k: int| end <= k < line.len() ==> text::white_space(line[k]))
}

proof fn lemma_prefix_of_trimmed(line: Seq<char>, words: Seq<char>)
    requires
        words.len() > 0,
        !text::white_space(words.first()),
    ensures
        words.is_prefix_of(text::trimmed(line)) <==> starts_with_words(line, words),
{
    text::trimming_drops_only_white_space(line);
    let t = text::trimmed(line);
    let n = words.len() as int;
    let i = choose|i: int|
        #![trigger line.subrange(i, i + text::trimmed(line).len())]
        0 <= i && i + text::trimmed(line).len() <= line.len() && text::trimmed(line)
            == line.subrange(i, i + text::trimmed(line).len()) && (forall|k: int|
            0 <= k < i ==> text::white_space(line[k])) && (forall|k: int|
            i + text::trimmed(line).len() <= k < line.len() ==> text::white_space(line[k]));
    if words.is_prefix_of(t) {
        assert(line.subrange(i, i + n) =~= t.subrange(0, n));
        assert(t.last() == line[i + t.len() - 1]);
        assert(!text::white_space(line[i + t.len() - 1]));
        assert(starts_at(line, words, i));
    }
    if starts_with_words(line, words) {
        let at = choose|at: int| #[trigger] starts_at(line, words, at);
        let last = choose|k: int|
            at + words.len() - 1 <= k < line.len() && !text::white_space(#[trigger] line[k]);
        assert(line.subrange(at, at + n)[0] == line[at]);
        assert(!text::white_space(line[at]));
        assert(t.first() == line[i]);
        assert(i == at);
        assert(last < i + t.len());
        assert(t.subrange(0, n) =~= line.subrange(at, at + n));
    }
}

proof fn lemma_suffix_of_trimmed(line: Seq<char>, words: Seq<char>)
    requires
        words.len() > 0,
        !text::white_space(words.first()),
        !text::white_space(words.last()),
    ensures
        words.is_suffix_of(text::trimmed(line)) <==> ends_with_words(line, words),
{
    text::trimming_drops_only_white_space(line);
    let t = text::trimmed(line);
    let n = words.len() as int;
    let i = choose|i: int|
        #![trigger line.subrange(i, i + text::trimmed(line).len())]
        0 <= i && i + text::trimmed(line).len() <= line.len() && text::trimmed(line)
            == line.subrange(i, i + text::trimmed(line).len()) && (forall|k: int|
            0 <= k < i ==> text::white_space(line[k])) && (forall|k: int|
            i + text::trimmed(line).len() <= k < line.len() ==> text::white_space(line[k]));
    let stop = i + t.len();
    if words.is_suffix_of(t) {
        assert(line.subrange(stop - n, stop) =~= t.subrange(t.len() - n, t.len() as int));
        assert(line.subrange(stop - words.len(), stop) == words);
    }
    if ends_with_words(line, words) {
        let end = choose|end: int|
            #![trigger line.subrange(end - words.len(), end)]
            words.len() <= end <= line.len() && line.subrange(end - words.len(), end) == words && (
            forall|k: int| end <= k < line.len() ==> text::white_space(line[k]));
        let there = line.subrange(end - n, end);
        assert(there[0] == line[end - n]);
        assert(there[n - 1] == line[end - 1]);
        assert(t.last() == line[stop - 1]);
        assert(end == stop);
        assert(t.subrange(t.len() - n, t.len() as int) =~= there);
    }
}

/// What a line does is told from its first words, or its last ones: which line opens the module,
/// opens or ends a block of imports, imports something, opens the table of bindings or asks for
/// the bindings of an interface.
pub proof fn lines_are_told_by_their_words(line: Seq<char>)
    ensures
        deps_module::opens_deps(line) <==> starts_with_words(line, "mod deps {"@),
        deps_module::opens_imports(line) <==> starts_with_words(line, "world imports {"@),
        deps_module::closes(line) <==> starts_with_words(line, "}"@),
        deps_module::is_import(line) <==> starts_with_words(line, "import "@),
        deps_module::opens_with(line) <==> starts_with_words(line, "with: {"@),
        deps_module::is_generate(line) <==> ends_with_words(line, ": generate,"@),
{
    reveal_strlit("mod deps {");
    reveal_strlit("world imports {");
    reveal_strlit("}");
    reveal_strlit("import ");
    reveal_strlit("with: {");
    reveal_strlit(": generate,");
    lemma_prefix_of_trimmed(line, "mod deps {"@);
    lemma_prefix_of_trimmed(line, "world imports {"@);
    lemma_prefix_of_trimmed(line, "}"@);
    lemma_prefix_of_trimmed(line, "import "@);
    lemma_prefix_of_trimmed(line, "with: {"@);
    lemma_suffix_of_trimmed(line, ": generate,"@);
}

/// The import line names its interface in full: between the leading `import ` and the closing `;`
/// stands exactly the interface.
pub proof fn import_names_its_interface(interface: Seq<char>)
    ensures
        ({
            let item = deps_module::import_item(interface);
            &&& item.len() == interface.len() + 8
            &&& item.take(7) == "import "@
            &&& item.subrange(7, 7int + interface.len()) == interface
            &&& item.last() == ';'
        }),
{
    reveal_strlit("import ");
    reveal_strlit(";");
    let item = deps_module::import_item(interface);
    assert(item.take(7) =~= "import "@);
    assert(item.subrange(7, 7int + interface.len()) =~= interface);
}

/// The line that asks for bindings names its interface in full: it stands between quotes, and
/// `: generate,` behind them.
pub proof fn binding_names_its_interface(interface: Seq<char>)
    ensures
        ({
            let item = deps_module::with_item(interface);
            &&& item.len() == interface.len() + 13
            &&& item.first() == '"'
            &&& item.subrange(1, 1int + interface.len()) == interface
            &&& item[1 + interface.len() as int] == '"'
            &&& item.skip(2 + interface.len() as int) == ": generate,"@
        }),
{
    reveal_strlit("\"");
    reveal_strlit("\": generate,");
    reveal_strlit(": generate,");
    let item = deps_module::with_item(interface);
    assert(item.subrange(1, 1int + interface.len()) =~= interface);
    assert(item.skip(2 + interface.len() as int) =~= ": generate,"@);
}

/// Two different interfaces never have the same import line, nor the same line for their bindings.
pub proof fn different_interfaces_have_different_lines(a: Seq<char>, b: Seq<char>)
    ensures
        deps_module::import_item(a) == deps_module::import_item(b) ==> a == b,
        deps_module::with_item(a) == deps_module::with_item(b) ==> a == b,
{
    import_names_its_interface(a);
    import_names_its_interface(b);
    binding_names_its_interface(a);
    binding_names_its_interface(b);
}

/// Each requested interface has one import and one line for its bindings, in order, and a line of
/// the module is twelve spaces and the item itself.
pub proof fn every_interface_has_its_lines(interfaces: Seq<Seq<char>>, item: Seq<char>)
    ensures
        deps_module::import_items(interfaces).len() == interfaces.len(),
        deps_module::with_items(interfaces).len() == interfaces.len(),
        deps_module::module_lines(interfaces).len() == interfaces.len(),
        forall|k: int|
            0 <= k < interfaces.len() ==> (#[trigger] deps_module::import_items(
                interfaces,
            )[k]).subrange(7, 7int + interfaces[k].len()) == interfaces[k] && deps_module::import_items(
                interfaces,
            )[k] == deps_module::import_item(interfaces[k]),
        forall|k: int|
            0 <= k < interfaces.len() ==> (#[trigger] deps_module::with_items(
                interfaces,
            )[k]).subrange(1, 1int + interfaces[k].len()) == interfaces[k] && deps_module::with_items(
                interfaces,
            )[k] == deps_module::with_item(interfaces[k]),
        forall|k: int|
            0 <= k < interfaces.len() ==> (#[trigger] deps_module::module_lines(
                interfaces,
            )[k]).skip(12) == interfaces[k] && deps_module::module_lines(interfaces)[k]
                == deps_module::module_line(interfaces[k]),
        deps_module::module_line(item).len() == item.len() + 12,
        deps_module::module_line(item).skip(12) == item,
        forall|k: int| 0 <= k < 12 ==> #[trigger] deps_module::module_line(item)[k] == ' ',
{
    reveal_strlit("            ");
    assert forall|k: int| 0 <= k < interfaces.len() implies (#[trigger] deps_module::import_items(
        interfaces,
    )[k]).subrange(7, 7int + interfaces[k].len()) == interfaces[k] by {
        import_names_its_interface(interfaces[k]);
    }
    assert forall|k: int| 0 <= k < interfaces.len() implies (#[trigger] deps_module::with_items(
        interfaces,
    )[k]).subrange(1, 1int + interfaces[k].len()) == interfaces[k] by {
        binding_names_its_interface(interfaces[k]);
    }
    assert forall|k: int| 0 <= k < interfaces.len() implies (#[trigger] deps_module::module_lines(
        interfaces,
    )[k]).skip(12) == interfaces[k] by {
        assert(deps_module::module_line(interfaces[k]).skip(12) =~= interfaces[k]);
    }
    assert(deps_module::module_line(item).skip(12) =~= item);
}

/// Taking an item out of a list takes out every one that is equal to it, and keeps all others in
/// order.
pub proof fn only_equal_items_are_taken_out(
    items: Seq<Seq<char>>,
    next: Seq<char>,
    item: Seq<char>,
)
    ensures
        deps_module::without(Seq::empty(), item) == Seq::<Seq<char>>::empty(),
        next == item ==> deps_module::without(items.push(next), item) == deps_module::without(
            items,
            item,
        ),
        next != item ==> deps_module::without(items.push(next), item) == deps_module::without(
            items,
            item,
        ).push(next),
{
    reveal(Seq::filter);
    assert(items.push(next).drop_last() =~= items);
}

/// A scan of a file stands behind the line that opens the module, with all requested imports and
/// bindings unseen and outside of every block.
pub proof fn scan_starts_behind_the_opening_line(
    lines: Seq<Seq<char>>,
    at: int,
    interfaces: Seq<Seq<char>>,
)
    requires
        0 <= at < lines.len(),
    ensures
        ({
            let scan = Scan::at_module(lines, at, interfaces);
            &&& scan.done == lines.take(at + 1)
            &&& scan.rest == lines.skip(at + 1)
            &&& !scan.found.in_imports
            &&& !scan.found.in_with
            &&& scan.found.unseen_imports == deps_module::import_items(interfaces)
            &&& scan.found.unseen_withs == deps_module::with_items(interfaces)
        }),
{
}

/// What a scan under way holds is what its fields hold: its lines, up to the one passed last and
/// from there on, and what it knows.
pub proof fn scan_view_holds_every_field(scan: DepsScan)
    requires
        scan.wf(),
    ensures
        scan@.done + scan@.rest == text::texts(scan.lines@),
        scan@.done.len() == scan.index + 1,
        scan@.found.in_imports == scan.in_imports,
        scan@.found.in_with == scan.in_with,
        scan@.found.unseen_imports == text::texts(scan.unseen_imports@),
        scan@.found.unseen_withs == text::texts(scan.unseen_withs@),
{
    assert(scan@.done + scan@.rest =~= text::texts(scan.lines@));
}

proof fn lemma_filter_same(
    items: Seq<Seq<char>>,
    p: spec_fn(Seq<char>) -> bool,
    q: spec_fn(Seq<char>) -> bool,
)
    requires
        forall|k: int| 0 <= k < items.len() ==> p(#[trigger] items[k]) == q(items[k]),
    ensures
        items.filter(p) == items.filter(q),
    decreases items.len(),
{
    reveal(Seq::filter);
    if items.len() > 0 {
        let fewer = items.drop_last();
        assert forall|k: int| 0 <= k < fewer.len() implies p(#[trigger] fewer[k]) == q(
            fewer[k],
        ) by {
            assert(fewer[k] == items[k]);
        }
        lemma_filter_same(fewer, p, q);
        assert(items.last() == items[items.len() - 1]);
    }
}

proof fn lemma_filter_twice(
    items: Seq<Seq<char>>,
    p: spec_fn(Seq<char>) -> bool,
    q: spec_fn(Seq<char>) -> bool,
)
    ensures
        items.filter(p).filter(q) == items.filter(|x: Seq<char>| p(x) && q(x)),
        forall|k: int|
            0 <= k < items.filter(p).len() ==> items.contains(#[trigger] items.filter(p)[k]),
    decreases items.len(),
{
    reveal(Seq::filter);
    let both = |x: Seq<char>| p(x) && q(x);
    if items.len() > 0 {
        let fewer = items.drop_last();
        let last = items.last();
        lemma_filter_twice(fewer, p, q);
        assert(items[items.len() - 1] == last);
        if p(last) {
            assert(items.filter(p) == fewer.filter(p).push(last));
            assert(fewer.filter(p).push(last).drop_last() =~= fewer.filter(p));
        }
        assert forall|k: int| 0 <= k < items.filter(p).len() implies items.contains(
            #[trigger] items.filter(p)[k],
        ) by {
            if k < fewer.filter(p).len() {
                let x = fewer.filter(p)[k];
                assert(fewer.contains(x));
                let j = choose|j: int| 0 <= j < fewer.len() && fewer[j] == x;
                assert(items[j] == x);
            }
        }
    }
}

proof fn lemma_without_is_filter(
    items: Seq<Seq<char>>,
    item: Seq<char>,
    p: spec_fn(Seq<char>) -> bool,
)
    requires
        forall|x: Seq<char>| #[trigger] p(x) == (x != item),
    ensures
        deps_module::without(items, item) == items.filter(p),
    decreases items.len(),
{
    reveal(Seq::filter);
    if items.len() > 0 {
        let fewer = items.drop_last();
        lemma_without_is_filter(fewer, item, p);
        only_equal_items_are_taken_out(fewer, items.last(), item);
        assert(items =~= fewer.push(items.last()));
    } else {
        only_equal_items_are_taken_out(items, item, item);
        assert(items =~= Seq::<Seq<char>>::empty());
    }
}

/// Whether all items are imports.
pub open spec fn are_imports(items: Seq<Seq<char>>) -> bool {
    forall|k: int| 0 <= k < items.len() ==> "import "@.is_prefix_of(#[trigger] items[k])
}

/// The items that no line of `lines` says, white space around it aside.
pub open spec fn missing(items: Seq<Seq<char>>, lines: Seq<Seq<char>>) -> Seq<Seq<char>> {
    items.filter(|x: Seq<char>| !deps_module_laws::says(lines, x))
}

proof fn lemma_words_exclude(line: Seq<char>)
    ensures
        deps_module::opens_imports(line) ==> !deps_module::closes(line),
        deps_module::opens_imports(line) ==> !deps_module::is_import(line),
        deps_module::opens_imports(line) ==> !deps_module::opens_with(line),
        deps_module::closes(line) ==> !deps_module::is_import(line),
        deps_module::closes(line) ==> !deps_module::opens_with(line),
        deps_module::is_import(line) ==> !deps_module::opens_with(line),
{
    reveal_strlit("world imports {");
    reveal_strlit("}");
    reveal_strlit("import ");
    reveal_strlit("with: {");
    let t = text::trimmed(line);
    assert(deps_module::opens_imports(line) ==> t.subrange(0, 15)[0] == 'w' && t.subrange(0, 15)[1]
        == 'o');
    assert(deps_module::closes(line) ==> t.subrange(0, 1)[0] == '}');
    assert(deps_module::is_import(line) ==> t.subrange(0, 7)[0] == 'i');
    assert(deps_module::opens_with(line) ==> t.subrange(0, 7)[0] == 'w' && t.subrange(0, 7)[1]
        == 'i');
}

proof fn lemma_pass_outside(
    scan: Scan,
    lines: Seq<Seq<char>>,
    rest: Seq<Seq<char>>,
) -> (found: Findings)
    requires
        !scan.found.in_imports,
        scan.rest == lines + rest,
        forall|k: int| 0 <= k < lines.len() ==> !deps_module::opens_imports(#[trigger] lines[k]),
    ensures
        !found.in_imports,
        found.unseen_imports == scan.found.unseen_imports,
        scan.complete() == (Scan { done: scan.done + lines, rest, found }).complete(),
    decreases lines.len(),
{
    if lines.len() == 0 {
        assert(scan.done + lines =~= scan.done);
        assert(scan.rest =~= rest);
        scan.found
    } else {
        assert(scan.rest.first() == lines[0]);
        let next = scan.step();
        let fewer = lines.drop_first();
        assert(next.rest =~= fewer + rest);
        assert forall|k: int| 0 <= k < fewer.len() implies !deps_module::opens_imports(
            #[trigger] fewer[k],
        ) by {
            assert(fewer[k] == lines[k + 1]);
        }
        let found = lemma_pass_outside(next, fewer, rest);
        assert(next.done + fewer =~= scan.done + lines);
        found
    }
}

proof fn lemma_pass_inside(
    scan: Scan,
    lines: Seq<Seq<char>>,
    rest: Seq<Seq<char>>,
) -> (found: Findings)
    requires
        scan.found.in_imports,
        are_imports(scan.found.unseen_imports),
        scan.rest == lines + rest,
        forall|k: int| 0 <= k < lines.len() ==> !deps_module::closes(#[trigger] lines[k]),
    ensures
        found.in_imports,
        found.unseen_imports == missing(scan.found.unseen_imports, lines),
        scan.complete() == (Scan { done: scan.done + lines, rest, found }).complete(),
    decreases lines.len(),
{
    let unseen = scan.found.unseen_imports;
    if lines.len() == 0 {
        assert(scan.done + lines =~= scan.done);
        assert(scan.rest =~= rest);
        lemma_filter_same(
            unseen,
            |x: Seq<char>| true,
            |x: Seq<char>| !deps_module_laws::says(lines, x),
        );
        lemma_filter_all(unseen);
        scan.found
    } else {
        let line = lines[0];
        let said = text::trimmed(line);
        assert(scan.rest.first() == line);
        lemma_words_exclude(line);
        let next = scan.step();
        let fewer = lines.drop_first();
        assert(next.rest =~= fewer + rest);
        assert forall|k: int| 0 <= k < fewer.len() implies !deps_module::closes(
            #[trigger] fewer[k],
        ) by {
            assert(fewer[k] == lines[k + 1]);
        }
        let p = |x: Seq<char>| x != said;
        let q = |x: Seq<char>| !deps_module_laws::says(fewer, x);
        lemma_filter_twice(unseen, p, q);
        assert(next.found.unseen_imports == unseen.filter(p)) by {
            if deps_module::is_import(line) {
                lemma_without_is_filter(unseen, said, p);
            } else {
                assert forall|k: int| 0 <= k < unseen.len() implies p(#[trigger] unseen[k])
                    == true by {
                    assert("import "@.is_prefix_of(unseen[k]));
                }
                lemma_filter_same(unseen, |x: Seq<char>| true, p);
                lemma_filter_all(unseen);
            }
        }
        assert forall|k: int| 0 <= k < next.found.unseen_imports.len() implies "import "@.is_prefix_of(
            #[trigger] next.found.unseen_imports[k],
        ) by {
            assert(unseen.contains(unseen.filter(p)[k]));
            let j = choose|j: int| 0 <= j < unseen.len() && unseen[j] == unseen.filter(p)[k];
            assert("import "@.is_prefix_of(unseen[j]));
        }
        let found = lemma_pass_inside(next, fewer, rest);
        let both = |x: Seq<char>| p(x) && q(x);
        let none = |x: Seq<char>| !deps_module_laws::says(lines, x);
        assert forall|k: int| 0 <= k < unseen.len() implies both(#[trigger] unseen[k]) == none(
            unseen[k],
        ) by {
            lemma_says_first(lines, unseen[k]);
        }
        lemma_filter_same(unseen, both, none);
        assert(next.done + fewer =~= scan.done + lines);
        found
    }
}

proof fn lemma_filter_all(items: Seq<Seq<char>>)
    ensures
        items.filter(|x: Seq<char>| true) == items,
    decreases items.len(),
{
    reveal(Seq::filter);
    if items.len() > 0 {
        lemma_filter_all(items.drop_last());
        assert(items =~= items.drop_last().push(items.last()));
    }
}

proof fn lemma_says_first(lines: Seq<Seq<char>>, item: Seq<char>)
    requires
        lines.len() > 0,
    ensures
        deps_module_laws::says(lines, item) <==> text::trimmed(lines[0]) == item
            || deps_module_laws::says(lines.drop_first(), item),
{
    let fewer = lines.drop_first();
    if deps_module_laws::says(lines, item) {
        let k = choose|k: int| 0 <= k < lines.len() && text::trimmed(#[trigger] lines[k]) == item;
        if k > 0 {
            assert(fewer[k - 1] == lines[k]);
        }
    }
    if deps_module_laws::says(fewer, item) {
        let k = choose|k: int| 0 <= k < fewer.len() && text::trimmed(#[trigger] fewer[k]) == item;
        assert(lines[k + 1] == fewer[k]);
    }
}

/// Where no block of imports is opened, a scan passes every line as it is, and sees no import.
pub proof fn lines_outside_a_block_stay(scan: Scan)
    requires
        !scan.found.in_imports,
        forall|k: int|
            0 <= k < scan.rest.len() ==> !deps_module::opens_imports(#[trigger] scan.rest[k]),
    ensures
        scan.complete().done == scan.done + scan.rest,
        scan.complete().found.unseen_imports == scan.found.unseen_imports,
        !scan.complete().found.in_imports,
{
    assert(scan.rest =~= scan.rest + Seq::<Seq<char>>::empty());
    let found = lemma_pass_outside(scan, scan.rest, Seq::empty());
}

/// The imports that a block lacks, and no others, are put into a file where the block ends: in
/// order, before the last line of the block, which is the line that opens it if the block has no
/// other. An import is lacking if no line between the one that opens the block and the one that
/// ends it says it. All other lines stay as they are, and the scan goes on behind the block with
/// the imports that were lacking.
pub proof fn missing_imports_go_before_the_last_line(
    scan: Scan,
    head: Seq<Seq<char>>,
    open: Seq<char>,
    body: Seq<Seq<char>>,
    close: Seq<char>,
    tail: Seq<Seq<char>>,
) -> (found: Findings)
    requires
        !scan.found.in_imports,
        are_imports(scan.found.unseen_imports),
        scan.rest == head + seq![open] + body + seq![close] + tail,
        forall|k: int| 0 <= k < head.len() ==> !deps_module::opens_imports(#[trigger] head[k]),
        deps_module::opens_imports(open),
        forall|k: int| 0 <= k < body.len() ==> !deps_module::closes(#[trigger] body[k]),
        deps_module::closes(close),
    ensures
        ({
            let lacking = missing(scan.found.unseen_imports, body);
            let block = seq![open] + body;
            let done = scan.done + head + block.drop_last() + deps_module::module_lines(lacking)
                + seq![block.last(), close];
            &&& !found.in_imports
            &&& found.unseen_imports == lacking
            &&& scan.complete() == (Scan { done, rest: tail, found }).complete()
        }),
{
    let lacking = missing(scan.found.unseen_imports, body);
    let block = seq![open] + body;
    let after_head = seq![open] + body + seq![close] + tail;
    assert(scan.rest =~= head + after_head);
    let f1 = lemma_pass_outside(scan, head, after_head);
    let s1 = Scan { done: scan.done + head, rest: after_head, found: f1 };
    assert(s1.rest.first() == open);
    let s2 = s1.step();
    let after_open = body + (seq![close] + tail);
    assert(s2.rest =~= after_open);
    let f3 = lemma_pass_inside(s2, body, seq![close] + tail);
    let s3 = Scan { done: s2.done + body, rest: seq![close] + tail, found: f3 };
    assert(s3.rest.first() == close);
    lemma_words_exclude(close);
    let s4 = s3.step();
    assert(s4.rest =~= tail);
    assert(s3.done =~= scan.done + head + block);
    assert(s3.done.drop_last() =~= scan.done + head + block.drop_last());
    assert(s3.done.last() == block.last());
    assert(s4.done =~= scan.done + head + block.drop_last() + deps_module::module_lines(lacking)
        + seq![block.last(), close]);
    s4.found
}

/// A block of imports that no line ends gets nothing.
pub proof fn a_block_without_end_gets_nothing(
    scan: Scan,
    head: Seq<Seq<char>>,
    open: Seq<char>,
    body: Seq<Seq<char>>,
)
    requires
        !scan.found.in_imports,
        are_imports(scan.found.unseen_imports),
        scan.rest == head + seq![open] + body,
        forall|k: int| 0 <= k < head.len() ==> !deps_module::opens_imports(#[trigger] head[k]),
        deps_module::opens_imports(open),
        forall|k: int| 0 <= k < body.len() ==> !deps_module::closes(#[trigger] body[k]),
    ensures
        scan.complete().done == scan.done + scan.rest,
        scan.complete().found.unseen_imports == missing(scan.found.unseen_imports, body),
        scan.complete().found.in_imports,
{
    let after_head = seq![open] + body;
    assert(scan.rest =~= head + after_head);
    let f1 = lemma_pass_outside(scan, head, after_head);
    let s1 = Scan { done: scan.done + head, rest: after_head, found: f1 };
    assert(s1.rest.first() == open);
    let s2 = s1.step();
    assert(s2.rest =~= body + Seq::<Seq<char>>::empty());
    let f3 = lemma_pass_inside(s2, body, Seq::empty());
    assert(s2.done + body =~= scan.done + scan.rest);
}

/// The requested imports are imports, so that the laws on blocks speak of every scan of a file.
pub proof fn requested_imports_are_imports(interfaces: Seq<Seq<char>>)
    ensures
        are_imports(deps_module::import_items(interfaces)),
{
    reveal_strlit("import ");
    assert forall|k: int| 0 <= k < interfaces.len() implies "import "@.is_prefix_of(
        #[trigger] deps_module::import_items(interfaces)[k],
    ) by {
        let item = deps_module::import_item(interfaces[k]);
        assert("import "@ =~= item.subrange(0, 7));
    }
}

/// Whether a line of `lines` says `item` behind one that opens the table of bindings, or at all
/// if the table is open from the start.
pub open spec fn says_in_table(lines: Seq<Seq<char>>, open: bool, item: Seq<char>) -> bool {
    exists|k: int|
        0 <= k < lines.len() && text::trimmed(#[trigger] lines[k]) == item && (open || exists|j: int|
            0 <= j < k && deps_module::opens_with(#[trigger] lines[j]))
}

proof fn lemma_says_in_table_first(lines: Seq<Seq<char>>, open: bool, item: Seq<char>)
    requires
        lines.len() > 0,
    ensures
        says_in_table(lines, open, item) <==> (open && text::trimmed(lines[0]) == item)
            || says_in_table(
            lines.drop_first(),
            open || deps_module::opens_with(lines[0]),
            item,
        ),
{
    let fewer = lines.drop_first();
    let opened = open || deps_module::opens_with(lines[0]);
    if says_in_table(lines, open, item) {
        let k = choose|k: int|
            0 <= k < lines.len() && text::trimmed(#[trigger] lines[k]) == item && (open
                || exists|j: int| 0 <= j < k && deps_module::opens_with(#[trigger] lines[j]));
        if k > 0 {
            assert(fewer[k - 1] == lines[k]);
            if !opened {
                let j = choose|j: int| 0 <= j < k && deps_module::opens_with(#[trigger] lines[j]);
                assert(fewer[j - 1] == lines[j]);
            }
            assert(says_in_table(fewer, opened, item));
        }
    }
    if says_in_table(fewer, opened, item) {
        let k = choose|k: int|
            0 <= k < fewer.len() && text::trimmed(#[trigger] fewer[k]) == item && (opened
                || exists|j: int| 0 <= j < k && deps_module::opens_with(#[trigger] fewer[j]));
        assert(lines[k + 1] == fewer[k]);
        if !open && !deps_module::opens_with(lines[0]) {
            let j = choose|j: int| 0 <= j < k && deps_module::opens_with(#[trigger] fewer[j]);
            assert(lines[j + 1] == fewer[j]);
        }
        assert(says_in_table(lines, open, item));
    }
    if open && text::trimmed(lines[0]) == item {
        assert(says_in_table(lines, open, item));
    }
}

/// Whether all items ask for bindings.
pub open spec fn are_bindings(items: Seq<Seq<char>>) -> bool {
    forall|k: int| #![trigger items[k]] 0 <= k < items.len() ==> is_binding(items[k])
}

/// Whether `item` starts with a quote and ends in `: generate,`.
pub open spec fn is_binding(item: Seq<char>) -> bool {
    "\""@.is_prefix_of(item) && ": generate,"@.is_suffix_of(item)
}

/// A line that says a binding is read as one.
proof fn lemma_binding_line(line: Seq<char>)
    requires
        is_binding(text::trimmed(line)),
    ensures
        !deps_module::opens_imports(line),
        !deps_module::closes(line),
        !deps_module::is_import(line),
        !deps_module::opens_with(line),
        deps_module::is_generate(line),
{
    reveal_strlit("\"");
    reveal_strlit("world imports {");
    reveal_strlit("}");
    reveal_strlit("import ");
    reveal_strlit("with: {");
    let item = text::trimmed(line);
    assert(item.subrange(0, 1)[0] == '"');
    assert("world imports {"@.is_prefix_of(item) ==> item.subrange(0, 15)[0] == 'w');
    assert("}"@.is_prefix_of(item) ==> item.subrange(0, 1)[0] == '}');
    assert("import "@.is_prefix_of(item) ==> item.subrange(0, 7)[0] == 'i');
    assert("with: {"@.is_prefix_of(item) ==> item.subrange(0, 7)[0] == 'w');
}

proof fn lemma_bindings_left(scan: Scan)
    requires
        are_bindings(scan.found.unseen_withs),
    ensures
        scan.complete().found.unseen_withs == scan.found.unseen_withs.filter(
            |x: Seq<char>| !says_in_table(scan.rest, scan.found.in_with, x),
        ),
        scan.complete().found.in_with <==> scan.found.in_with || exists|k: int|
            0 <= k < scan.rest.len() && deps_module::opens_with(#[trigger] scan.rest[k]),
    decreases scan.rest.len(),
{
    let unseen = scan.found.unseen_withs;
    let open = scan.found.in_with;
    let none = |x: Seq<char>| !says_in_table(scan.rest, open, x);
    if scan.rest.len() == 0 {
        lemma_filter_same(unseen, |x: Seq<char>| true, none);
        lemma_filter_all(unseen);
    } else {
        let line = scan.rest.first();
        let said = text::trimmed(line);
        let next = scan.step();
        let fewer = scan.rest.drop_first();
        let opened = open || deps_module::opens_with(line);
        assert(scan.rest[0] == line);
        lemma_words_exclude(line);
        if is_binding(said) {
            lemma_binding_line(line);
        }
        assert(next.found.in_with == opened);
        let p = |x: Seq<char>| !(open && x == said);
        let q = |x: Seq<char>| !says_in_table(fewer, opened, x);
        lemma_filter_twice(unseen, p, q);
        assert(next.found.unseen_withs == unseen.filter(p)) by {
            let differs = |x: Seq<char>| x != said;
            lemma_without_is_filter(unseen, said, differs);
            lemma_filter_all(unseen);
            if open && !is_binding(said) {
                assert forall|k: int| 0 <= k < unseen.len() implies differs(#[trigger] unseen[k])
                    == true by {
                    assert(is_binding(unseen[k]));
                }
                lemma_filter_same(unseen, |x: Seq<char>| true, differs);
                lemma_filter_same(unseen, differs, p);
            } else if open {
                lemma_filter_same(unseen, differs, p);
            } else {
                lemma_filter_same(unseen, |x: Seq<char>| true, p);
            }
        }
        assert forall|k: int| #![trigger next.found.unseen_withs[k]]
            0 <= k < next.found.unseen_withs.len() implies is_binding(
            next.found.unseen_withs[k],
        ) by {
            assert(unseen.contains(unseen.filter(p)[k]));
            let j = choose|j: int| 0 <= j < unseen.len() && unseen[j] == unseen.filter(p)[k];
            assert(is_binding(unseen[j]));
        }
        lemma_bindings_left(next);
        let both = |x: Seq<char>| p(x) && q(x);
        assert forall|k: int| 0 <= k < unseen.len() implies both(#[trigger] unseen[k]) == none(
            unseen[k],
        ) by {
            lemma_says_in_table_first(scan.rest, open, unseen[k]);
        }
        lemma_filter_same(unseen, both, none);
        if exists|k: int|
            0 <= k < scan.rest.len() && deps_module::opens_with(#[trigger] scan.rest[k]) {
            let k = choose|k: int|
                0 <= k < scan.rest.len() && deps_module::opens_with(#[trigger] scan.rest[k]);
            if k > 0 {
                assert(fewer[k - 1] == scan.rest[k]);
            }
        }
        if exists|k: int| 0 <= k < fewer.len() && deps_module::opens_with(#[trigger] fewer[k]) {
            let k = choose|k: int|
                0 <= k < fewer.len() && deps_module::opens_with(#[trigger] fewer[k]);
            assert(scan.rest[k + 1] == fewer[k]);
        }
    }
}

/// The lines of the table of bindings that stay unseen are those requested that no line says
/// behind one that opens the table, both behind the line that opens the module. The table counts
/// as opened exactly if there is a line that opens it.
pub proof fn bindings_are_found_in_the_table(
    lines: Seq<Seq<char>>,
    at: int,
    interfaces: Seq<Seq<char>>,
)
    requires
        0 <= at < lines.len(),
    ensures
        ({
            let end = Scan::at_module(lines, at, interfaces).complete();
            let behind = lines.skip(at + 1);
            &&& end.found.unseen_withs == deps_module::with_items(interfaces).filter(
                |x: Seq<char>| !says_in_table(behind, false, x),
            )
            &&& end.found.in_with <==> exists|k: int|
                0 <= k < behind.len() && deps_module::opens_with(#[trigger] behind[k])
        }),
{
    let scan = Scan::at_module(lines, at, interfaces);
    let items = deps_module::with_items(interfaces);
    reveal_strlit("\"");
    assert forall|k: int| #![trigger items[k]] 0 <= k < items.len() implies is_binding(
        items[k],
    ) by {
        let item = deps_module::with_item(interfaces[k]);
        binding_names_its_interface(interfaces[k]);
        reveal_strlit(": generate,");
        let n = item.len() as int;
        assert("\""@ =~= item.subrange(0, 1));
        assert(item.subrange(n - 11, n) =~= item.skip(n - 11));
    }
    lemma_bindings_left(scan);
}

/// How many lines a list of `n` items takes in a new module: one for each item, or an empty one.
pub open spec fn lines_for(n: nat) -> int {
    if n == 0 {
        1
    } else {
        n as int
    }
}

/// A new module names what it is made for in full: each interface has its import and its line in
/// the table of bindings, in order, and the path ends in the component.
pub proof fn new_module_names_everything(component_id: Seq<char>, interfaces: Seq<Seq<char>>)
    ensures
        ({
            let module = deps_module::new_module(component_id, interfaces);
            let n = lines_for(interfaces.len());
            let path = module[10 + 2 * n];
            &&& module.len() == 13 + 2 * n
            &&& forall|k: int|
                0 <= k < interfaces.len() ==> module[6 + k] == deps_module::module_line(
                    deps_module::import_item(#[trigger] interfaces[k]),
                ) && module[9 + n + k] == deps_module::module_line(
                    deps_module::with_item(interfaces[k]),
                )
            &&& interfaces.len() == 0 ==> module[6].len() == 0 && module[10].len() == 0
            &&& path.len() == component_id.len() + 33
            &&& path.take(31) == "        path: \".wit/components/"@
            &&& path.subrange(31, 31int + component_id.len()) == component_id
            &&& path.skip(31 + component_id.len() as int) == "\","@
        }),
{
    reveal_strlit("        path: \".wit/components/");
    reveal_strlit("\",");
    let path = "        path: \".wit/components/"@ + component_id + "\","@;
    assert(path.take(31) =~= "        path: \".wit/components/"@);
    assert(path.subrange(31, 31int + component_id.len()) =~= component_id);
    assert(path.skip(31 + component_id.len() as int) =~= "\","@);
    lemma_module_parts(component_id, interfaces);
}

proof fn lemma_module_parts(component_id: Seq<char>, interfaces: Seq<Seq<char>>)
    ensures
        ({
            let module = deps_module::new_module(component_id, interfaces);
            let n = lines_for(interfaces.len());
            let imports = deps_module::listed(deps_module::import_items(interfaces));
            let withs = deps_module::listed(deps_module::with_items(interfaces));
            &&& imports.len() == n
            &&& withs.len() == n
            &&& module.len() == 13 + 2 * n
            &&& forall|k: int| 0 <= k < 6 ==> #[trigger] deps_module::module_head()[k] == module[k]
            &&& forall|k: int| 0 <= k < n ==> #[trigger] imports[k] == module[6 + k]
            &&& forall|k: int|
                0 <= k < 3 ==> #[trigger] deps_module::module_middle()[k] == module[6 + n + k]
            &&& forall|k: int| 0 <= k < n ==> #[trigger] withs[k] == module[9 + n + k]
            &&& forall|k: int|
                0 <= k < 4 ==> #[trigger] deps_module::module_tail(component_id)[k] == module[9 + 2
                    * n + k]
            &&& forall|k: int|
                0 <= k < interfaces.len() ==> imports[k] == deps_module::module_line(
                    deps_module::import_item(#[trigger] interfaces[k]),
                ) && withs[k] == deps_module::module_line(deps_module::with_item(interfaces[k]))
            &&& interfaces.len() == 0 ==> imports[0].len() == 0 && withs[0].len() == 0
            &&& deps_module::module_tail(component_id)[1] == "        path: \".wit/components/"@
                + component_id + "\","@
        }),
{
}

/// The rest of a new module is the same for every component and all interfaces: the lines before
/// the imports, those between the imports and the bindings, and those behind the bindings but for
/// the path.
pub proof fn the_rest_of_a_new_module_is_fixed(
    component_id: Seq<char>,
    interfaces: Seq<Seq<char>>,
    other_id: Seq<char>,
    other_interfaces: Seq<Seq<char>>,
)
    ensures
        ({
            let a = deps_module::new_module(component_id, interfaces);
            let b = deps_module::new_module(other_id, other_interfaces);
            let n = lines_for(interfaces.len());
            let m = lines_for(other_interfaces.len());
            &&& a.take(6) == b.take(6)
            &&& a.subrange(6 + n, 9 + n) == b.subrange(6 + m, 9 + m)
            &&& a[9 + 2 * n] == b[9 + 2 * m]
            &&& a.skip(11 + 2 * n) == b.skip(11 + 2 * m)
        }),
{
    lemma_fixed_parts(component_id, interfaces);
    lemma_fixed_parts(other_id, other_interfaces);
}

proof fn lemma_fixed_parts(component_id: Seq<char>, interfaces: Seq<Seq<char>>)
    ensures
        ({
            let module = deps_module::new_module(component_id, interfaces);
            let n = lines_for(interfaces.len());
            &&& module.take(6) == deps_module::module_head()
            &&& module.subrange(6 + n, 9 + n) == deps_module::module_middle()
            &&& module[9 + 2 * n] == "        },"@
            &&& module.skip(11 + 2 * n) == seq!["    });"@, "}"@]
        }),
{
    let module = deps_module::new_module(component_id, interfaces);
    let n = lines_for(interfaces.len());
    let imports = deps_module::listed(deps_module::import_items(interfaces));
    let withs = deps_module::listed(deps_module::with_items(interfaces));
    assert(imports.len() == n && withs.len() == n);
    assert(module.take(6) =~= deps_module::module_head());
    assert(module.subrange(6 + n, 9 + n) =~= deps_module::module_middle());
    assert(module.skip(11 + 2 * n) =~= seq!["    });"@, "}"@]);
}

} // verus!
