//! What holds of every scan of a `deps` module, and of every new module.

use crate::deps_module;
use crate::deps_module::{Findings, Scan};
use crate::text;
use vstd::prelude::*;

verus! {

/// Whether `after` is `before` with some lines put in, each of them one of `added`.
pub open spec fn extends_by(
    before: Seq<Seq<char>>,
    after: Seq<Seq<char>>,
    added: Seq<Seq<char>>,
) -> bool
    decreases after.len(),
{
    if after.len() == 0 {
        before.len() == 0
    } else {
        ||| before.len() > 0 && before.first() == after.first() && extends_by(
            before.drop_first(),
            after.drop_first(),
            added,
        )
        ||| added.contains(after.first()) && extends_by(before, after.drop_first(), added)
    }
}

/// Whether a line of `lines` says `item`, white space around it aside.
pub open spec fn says(lines: Seq<Seq<char>>, item: Seq<char>) -> bool {
    exists|k: int| 0 <= k < lines.len() && text::trimmed(#[trigger] lines[k]) == item
}

/// Whether a block of imports ends in the lines that `scan` has before it.
pub open spec fn meets_end_of_imports(scan: Scan) -> bool
    decreases scan.rest.len(),
{
    scan.rest.len() > 0 && (scan.found.ends_imports(scan.rest.first()) || meets_end_of_imports(
        scan.step(),
    ))
}

/// The lines that a scan makes of `pending` and `rest`, where `prior` is what it knew before
/// `pending`.
pub open spec fn scanned(prior: Findings, pending: Seq<char>, rest: Seq<Seq<char>>) -> Seq<
    Seq<char>,
>
    decreases rest.len(),
{
    let found = prior.read(pending);
    if rest.len() == 0 {
        seq![pending]
    } else if found.ends_imports(rest.first()) {
        deps_module::module_lines(found.unseen_imports) + seq![pending] + scanned(
            found,
            rest.first(),
            rest.drop_first(),
        )
    } else {
        seq![pending] + scanned(found, rest.first(), rest.drop_first())
    }
}

/// Whether the first lines that a scan puts in come inside the block of imports, that is, the
/// block has a line between the one that opens it and the one that ends it. As for
/// [`scanned`], `prior` is what the scan knew before `pending`. It holds too if the scan puts no
/// line in.
pub open spec fn adds_inside_block(
    prior: Findings,
    pending: Seq<char>,
    rest: Seq<Seq<char>>,
) -> bool
    decreases rest.len(),
{
    let found = prior.read(pending);
    if rest.len() == 0 {
        true
    } else if found.ends_imports(rest.first()) && found.unseen_imports.len() > 0 {
        prior.in_imports
    } else {
        adds_inside_block(found, rest.first(), rest.drop_first())
    }
}

proof fn lemma_without(items: Seq<Seq<char>>, item: Seq<char>)
    ensures
        forall|y: Seq<char>| #[trigger]
            deps_module::without(items, item).contains(y) <==> items.contains(y) && y != item,
        deps_module::without(items, item).len() <= items.len(),
    decreases items.len(),
{
    reveal(Seq::filter);
    if items.len() > 0 {
        let fewer = items.drop_last();
        let kept = deps_module::without(items, item);
        lemma_without(fewer, item);
        assert(kept == if items.last() != item {
            deps_module::without(fewer, item).push(items.last())
        } else {
            deps_module::without(fewer, item)
        });
        assert(items =~= fewer.push(items.last()));
        assert forall|y: Seq<char>| #[trigger] kept.contains(y) <==> items.contains(y) && y
            != item by {
            lemma_push_contains(fewer, items.last(), y);
            lemma_push_contains(deps_module::without(fewer, item), items.last(), y);
        }
    }
}

proof fn lemma_push_contains(items: Seq<Seq<char>>, last: Seq<char>, y: Seq<char>)
    ensures
        items.push(last).contains(y) <==> items.contains(y) || y == last,
{
    if items.contains(y) {
        let i = choose|i: int| 0 <= i < items.len() && items[i] == y;
        assert(items.push(last)[i] == y);
    }
    if y == last {
        assert(items.push(last)[items.len() as int] == y);
    }
    if items.push(last).contains(y) && y != last {
        let i = choose|i: int| 0 <= i < items.push(last).len() && items.push(last)[i] == y;
        assert(items[i] == y);
    }
}

/// Reading a line brings back nothing that was found before.
proof fn lemma_read_shrinks(found: Findings, line: Seq<char>)
    ensures
        forall|y: Seq<char>| #[trigger]
            found.read(line).unseen_imports.contains(y) ==> found.unseen_imports.contains(y),
        forall|y: Seq<char>| #[trigger]
            found.read(line).unseen_withs.contains(y) ==> found.unseen_withs.contains(y),
        found.unseen_imports.len() == 0 ==> found.read(line).unseen_imports.len() == 0,
        found.unseen_withs.len() == 0 ==> found.read(line).unseen_withs.len() == 0,
{
    lemma_without(found.unseen_imports, text::trimmed(line));
    lemma_without(found.unseen_withs, text::trimmed(line));
}

proof fn lemma_import_line(interface: Seq<char>)
    ensures
        ({
            let item = deps_module::import_item(interface);
            let line = deps_module::module_line(item);
            &&& text::trimmed(line) == item
            &&& deps_module::is_import(line)
            &&& !deps_module::opens_imports(line)
            &&& !deps_module::closes(line)
            &&& !deps_module::opens_with(line)
            &&& !deps_module::is_generate(line)
        }),
{
    reveal_strlit("            ");
    reveal_strlit("import ");
    reveal_strlit(";");
    reveal_strlit("world imports {");
    reveal_strlit("}");
    reveal_strlit("with: {");
    reveal_strlit(": generate,");
    let item = deps_module::import_item(interface);
    let line = deps_module::module_line(item);
    let n = line.len() as int;
    text::lemma_trimmed_is(line, 12, n);
    assert(line.subrange(12, n) =~= item);
    assert(item[0] == 'i');
    assert(item[item.len() - 1] == ';');
    assert("import "@ =~= item.subrange(0, 7));
    assert("world imports {"@[0] == 'w');
    assert("world imports {"@.is_prefix_of(item) ==> item.subrange(0, 15)[0] == 'w');
    assert("}"@.is_prefix_of(item) ==> item.subrange(0, 1)[0] == '}');
    assert("with: {"@.is_prefix_of(item) ==> item.subrange(0, 7)[0] == 'w');
    assert(": generate,"@.is_suffix_of(item) ==> item.subrange(item.len() - 11, item.len() as int)[10]
        == ',');
}

proof fn lemma_with_line(interface: Seq<char>)
    ensures
        ({
            let item = deps_module::with_item(interface);
            let line = deps_module::module_line(item);
            &&& text::trimmed(line) == item
            &&& !deps_module::opens_imports(line)
            &&& !deps_module::opens_with(line)
            &&& deps_module::is_generate(line)
        }),
{
    reveal_strlit("            ");
    reveal_strlit("\"");
    reveal_strlit("\": generate,");
    reveal_strlit("world imports {");
    reveal_strlit("with: {");
    reveal_strlit(": generate,");
    let item = deps_module::with_item(interface);
    let line = deps_module::module_line(item);
    let n = line.len() as int;
    text::lemma_trimmed_is(line, 12, n);
    assert(line.subrange(12, n) =~= item);
    assert(item[0] == '"');
    assert("world imports {"@.is_prefix_of(item) ==> item.subrange(0, 15)[0] == 'w');
    assert("with: {"@.is_prefix_of(item) ==> item.subrange(0, 7)[0] == 'w');
    assert(": generate,"@ =~= item.subrange(item.len() - 11, item.len() as int));
}

/// The line that opens the module tells a scan nothing.
proof fn lemma_deps_line(line: Seq<char>, interfaces: Seq<Seq<char>>)
    requires
        deps_module::opens_deps(line),
    ensures
        Findings::none(interfaces).read(line) == Findings::none(interfaces),
{
    reveal_strlit("mod deps {");
    reveal_strlit("world imports {");
    reveal_strlit("with: {");
    let item = text::trimmed(line);
    assert(item.subrange(0, 10)[0] == 'm');
    assert("world imports {"@.is_prefix_of(item) ==> item.subrange(0, 15)[0] == 'w');
    assert("with: {"@.is_prefix_of(item) ==> item.subrange(0, 7)[0] == 'w');
}

proof fn lemma_complete_is_scanned(scan: Scan, prior: Findings)
    requires
        scan.done.len() > 0,
        scan.found == prior.read(scan.done.last()),
    ensures
        scan.complete().done == scan.done.drop_last() + scanned(
            prior,
            scan.done.last(),
            scan.rest,
        ),
    decreases scan.rest.len(),
{
    if scan.rest.len() == 0 {
        assert(scan.done =~= scan.done.drop_last() + seq![scan.done.last()]);
    } else {
        let line = scan.rest.first();
        let next = scan.step();
        lemma_complete_is_scanned(next, scan.found);
        let tail = scanned(scan.found, line, scan.rest.drop_first());
        if scan.found.ends_imports(line) {
            let added = deps_module::module_lines(scan.found.unseen_imports);
            assert(next.done.drop_last() + tail =~= scan.done.drop_last() + (added
                + seq![scan.done.last()] + tail));
        } else {
            assert(next.done.drop_last() + tail =~= scan.done.drop_last() + (
            seq![scan.done.last()] + tail));
        }
    }
}

/// The scan of a file is `scanned` from the line that opens the module on.
proof fn lemma_scan_of_file(lines: Seq<Seq<char>>, at: int, interfaces: Seq<Seq<char>>)
    requires
        0 <= at < lines.len(),
        deps_module::opens_deps(lines[at]),
    ensures
        Scan::at_module(lines, at, interfaces).complete().done == lines.take(at) + scanned(
            Findings::none(interfaces),
            lines[at],
            lines.skip(at + 1),
        ),
{
    let scan = Scan::at_module(lines, at, interfaces);
    lemma_deps_line(lines[at], interfaces);
    assert(scan.done.last() == lines[at]);
    lemma_complete_is_scanned(scan, Findings::none(interfaces));
    assert(scan.done.drop_last() =~= lines.take(at));
}

proof fn lemma_extends_after_prefix(
    prefix: Seq<Seq<char>>,
    before: Seq<Seq<char>>,
    after: Seq<Seq<char>>,
    added: Seq<Seq<char>>,
)
    requires
        extends_by(before, after, added),
    ensures
        extends_by(prefix + before, prefix + after, added),
    decreases prefix.len(),
{
    if prefix.len() == 0 {
        assert(prefix + before =~= before);
        assert(prefix + after =~= after);
    } else {
        lemma_extends_after_prefix(prefix.drop_first(), before, after, added);
        assert((prefix + before).drop_first() =~= prefix.drop_first() + before);
        assert((prefix + after).drop_first() =~= prefix.drop_first() + after);
    }
}

proof fn lemma_extends_by_more(
    more: Seq<Seq<char>>,
    before: Seq<Seq<char>>,
    after: Seq<Seq<char>>,
    added: Seq<Seq<char>>,
)
    requires
        extends_by(before, after, added),
        forall|k: int| 0 <= k < more.len() ==> added.contains(#[trigger] more[k]),
    ensures
        extends_by(before, more + after, added),
    decreases more.len(),
{
    if more.len() == 0 {
        assert(more + after =~= after);
    } else {
        assert(added.contains(more[0]));
        assert forall|k: int| 0 <= k < more.drop_first().len() implies added.contains(
            #[trigger] more.drop_first()[k],
        ) by {
            assert(more.drop_first()[k] == more[k + 1]);
        }
        lemma_extends_by_more(more.drop_first(), before, after, added);
        assert((more + after).drop_first() =~= more.drop_first() + after);
        assert((more + after).first() == more[0]);
    }
}

proof fn lemma_scanned_extends(
    prior: Findings,
    pending: Seq<char>,
    rest: Seq<Seq<char>>,
    items: Seq<Seq<char>>,
)
    requires
        forall|y: Seq<char>| #[trigger] prior.unseen_imports.contains(y) ==> items.contains(y),
    ensures
        extends_by(
            seq![pending] + rest,
            scanned(prior, pending, rest),
            deps_module::module_lines(items),
        ),
    decreases rest.len(),
{
    let added = deps_module::module_lines(items);
    let found = prior.read(pending);
    lemma_read_shrinks(prior, pending);
    if rest.len() == 0 {
        assert(seq![pending] + rest =~= seq![pending]);
        assert(extends_by(Seq::empty(), Seq::<Seq<char>>::empty(), added));
        assert(seq![pending].drop_first() =~= Seq::<Seq<char>>::empty());
    } else {
        let line = rest.first();
        let tail = scanned(found, line, rest.drop_first());
        lemma_scanned_extends(found, line, rest.drop_first(), items);
        assert(seq![line] + rest.drop_first() =~= rest);
        lemma_extends_after_prefix(seq![pending], rest, tail, added);
        if found.ends_imports(line) {
            let more = deps_module::module_lines(found.unseen_imports);
            assert forall|k: int| 0 <= k < more.len() implies added.contains(
                #[trigger] more[k],
            ) by {
                let item = found.unseen_imports[k];
                assert(found.unseen_imports.contains(item));
                assert(prior.unseen_imports.contains(item));
                let j = choose|j: int| 0 <= j < items.len() && items[j] == item;
                assert(added[j] == more[k]);
            }
            lemma_extends_by_more(more, seq![pending] + rest, seq![pending] + tail, added);
            assert(more + (seq![pending] + tail) =~= more + seq![pending] + tail);
        }
    }
}

/// Scanning a file loses and reorders none of its lines: it only puts lines in, each of them the
/// import of a requested interface, and it puts none before the end of the line that opens the
/// module.
pub proof fn scan_only_adds_imports(lines: Seq<Seq<char>>, interfaces: Seq<Seq<char>>)
    requires
        deps_module::first_deps_line(lines) < lines.len(),
    ensures
        ({
            let at = deps_module::first_deps_line(lines) as int;
            let after = Scan::at_module(lines, at, interfaces).complete().done;
            &&& extends_by(
                lines,
                after,
                deps_module::module_lines(deps_module::import_items(interfaces)),
            )
            &&& lines.take(at + 1).is_prefix_of(after)
        }),
{
    let at = deps_module::first_deps_line(lines) as int;
    let items = deps_module::import_items(interfaces);
    let none = Findings::none(interfaces);
    let rest = lines.skip(at + 1);
    let tail = scanned(none, lines[at], rest);
    deps_module::lemma_first_deps_line(lines);
    lemma_scan_of_file(lines, at, interfaces);
    lemma_scanned_extends(none, lines[at], rest, items);
    lemma_extends_after_prefix(
        lines.take(at),
        seq![lines[at]] + rest,
        tail,
        deps_module::module_lines(items),
    );
    assert(lines.take(at) + (seq![lines[at]] + rest) =~= lines);
    lemma_deps_line(lines[at], interfaces);
    lemma_scanned_starts(none, lines[at], rest);
    let after = lines.take(at) + tail;
    assert(lines.take(at + 1) =~= after.subrange(0, at + 1));
}

/// Outside a block of imports a scan puts nothing before the line passed last.
proof fn lemma_scanned_starts(prior: Findings, pending: Seq<char>, rest: Seq<Seq<char>>)
    ensures
        scanned(prior, pending, rest).len() > 0,
        !prior.read(pending).in_imports ==> scanned(prior, pending, rest).first() == pending,
{
}

/// What a scan says of the requested imports at each point, in the lines from index `from` on:
/// each is still unseen or said by a line passed, and all are said once a block of imports has
/// ended. A block that the scan is in was opened in those lines.
proof fn lemma_imports_said(scan: Scan, from: int, interfaces: Seq<Seq<char>>)
    requires
        0 <= from <= scan.done.len(),
        scan.done.len() > 0,
        scan.found.in_imports ==> from < scan.done.len(),
        forall|i: int|
            0 <= i < interfaces.len() ==> scan.found.unseen_imports.contains(
                deps_module::import_item(#[trigger] interfaces[i]),
            ) || says(scan.done.skip(from), deps_module::import_item(interfaces[i])),
        meets_end_of_imports(scan) || forall|i: int|
            0 <= i < interfaces.len() ==> says(
                scan.done.skip(from),
                deps_module::import_item(#[trigger] interfaces[i]),
            ),
    ensures
        forall|i: int|
            0 <= i < interfaces.len() ==> says(
                scan.complete().done.skip(from),
                deps_module::import_item(#[trigger] interfaces[i]),
            ),
    decreases scan.rest.len(),
{
    if scan.rest.len() > 0 {
        let line = scan.rest.first();
        let next = scan.step();
        let unseen = scan.found.unseen_imports;
        let added = deps_module::module_lines(unseen);
        let passed = scan.done.skip(from);
        let after = next.done.skip(from);
        lemma_read_shrinks(scan.found, line);
        lemma_without(unseen, text::trimmed(line));
        assert forall|item: Seq<char>| says(passed, item) implies says(after, item) by {
            let k = choose|k: int|
                0 <= k < passed.len() && text::trimmed(#[trigger] passed[k]) == item;
            if scan.found.ends_imports(line) && k == passed.len() - 1 {
                assert(after[k + added.len()] == passed[k]);
            } else {
                assert(after[k] == passed[k]);
            }
        }
        if scan.found.ends_imports(line) {
            assert forall|i: int| 0 <= i < interfaces.len() implies says(
                after,
                deps_module::import_item(#[trigger] interfaces[i]),
            ) by {
                let item = deps_module::import_item(interfaces[i]);
                if !says(passed, item) {
                    let k = choose|k: int| 0 <= k < unseen.len() && unseen[k] == item;
                    lemma_import_line(interfaces[i]);
                    let p = passed.len() - 1 + k;
                    assert(after[p] == added[k]);
                    assert(text::trimmed(after[p]) == item);
                }
            }
        }
        assert forall|i: int|
            0 <= i < interfaces.len() implies next.found.unseen_imports.contains(
            deps_module::import_item(#[trigger] interfaces[i]),
        ) || says(after, deps_module::import_item(interfaces[i])) by {
            let item = deps_module::import_item(interfaces[i]);
            if !says(passed, item) && !next.found.unseen_imports.contains(item) {
                assert(unseen.contains(item));
                if !scan.found.ends_imports(line) {
                    assert(text::trimmed(line) == item);
                    assert(after[passed.len() as int] == line);
                }
            }
        }
        lemma_imports_said(next, from, interfaces);
    }
}

/// If the module has a block of imports that ends, the scanned file imports every requested
/// interface behind the line that opens the module.
pub proof fn scan_imports_every_interface(lines: Seq<Seq<char>>, interfaces: Seq<Seq<char>>)
    requires
        deps_module::first_deps_line(lines) < lines.len(),
        meets_end_of_imports(
            Scan::at_module(lines, deps_module::first_deps_line(lines) as int, interfaces),
        ),
    ensures
        ({
            let at = deps_module::first_deps_line(lines) as int;
            let after = Scan::at_module(lines, at, interfaces).complete().done;
            forall|i: int|
                0 <= i < interfaces.len() ==> says(
                    after.skip(at + 1),
                    deps_module::import_item(#[trigger] interfaces[i]),
                )
        }),
{
    let at = deps_module::first_deps_line(lines) as int;
    let scan = Scan::at_module(lines, at, interfaces);
    let items = deps_module::import_items(interfaces);
    assert forall|i: int| 0 <= i < interfaces.len() implies items.contains(
        deps_module::import_item(#[trigger] interfaces[i]),
    ) by {
        assert(items[i] == deps_module::import_item(interfaces[i]));
    }
    lemma_imports_said(scan, at + 1, interfaces);
}

/// Whether `item` is the import of some interface.
spec fn imports_something(item: Seq<char>) -> bool {
    exists|interface: Seq<char>| item == #[trigger] deps_module::import_item(interface)
}

/// What is known after all of `lines`.
spec fn read_all(found: Findings, lines: Seq<Seq<char>>) -> Findings
    decreases lines.len(),
{
    if lines.len() == 0 {
        found
    } else {
        read_all(found.read(lines.first()), lines.drop_first())
    }
}

/// A scan that misses no import puts nothing in.
proof fn lemma_scanned_unchanged(prior: Findings, pending: Seq<char>, rest: Seq<Seq<char>>)
    requires
        prior.read(pending).unseen_imports.len() == 0,
    ensures
        scanned(prior, pending, rest) == seq![pending] + rest,
    decreases rest.len(),
{
    let found = prior.read(pending);
    if rest.len() == 0 {
        assert(seq![pending] + rest =~= seq![pending]);
    } else {
        let line = rest.first();
        lemma_read_shrinks(found, line);
        lemma_scanned_unchanged(found, line, rest.drop_first());
        assert(seq![line] + rest.drop_first() =~= rest);
        let added = deps_module::module_lines(found.unseen_imports);
        assert(added =~= Seq::<Seq<char>>::empty());
        assert(added + seq![pending] + rest =~= seq![pending] + rest);
    }
}

/// Inside a block of imports a scan passes the lines of `items` unchanged, and they are seen.
proof fn lemma_scanned_imports(
    prior: Findings,
    items: Seq<Seq<char>>,
    pending: Seq<char>,
    rest: Seq<Seq<char>>,
)
    requires
        prior.in_imports,
        deps_module::opens_imports(pending) || !deps_module::closes(pending),
        forall|k: int| 0 <= k < items.len() ==> imports_something(#[trigger] items[k]),
    ensures
        ({
            let lines = deps_module::module_lines(items);
            let all = lines + seq![pending] + rest;
            let found = read_all(prior, lines);
            &&& scanned(prior, all.first(), all.drop_first()) == lines + scanned(
                found,
                pending,
                rest,
            )
            &&& found.in_imports
            &&& found.in_with == prior.in_with
            &&& forall|y: Seq<char>| #[trigger]
                found.unseen_imports.contains(y) ==> prior.unseen_imports.contains(y)
                    && !items.contains(y)
        }),
    decreases items.len(),
{
    let lines = deps_module::module_lines(items);
    let all = lines + seq![pending] + rest;
    if items.len() == 0 {
        assert(lines =~= Seq::<Seq<char>>::empty());
        assert(all.drop_first() =~= rest);
        assert(lines + scanned(prior, pending, rest) =~= scanned(prior, pending, rest));
    } else {
        let item = items[0];
        let line = lines[0];
        assert(imports_something(item));
        let interface = choose|interface: Seq<char>|
            item == #[trigger] deps_module::import_item(interface);
        lemma_import_line(interface);
        let found = prior.read(line);
        lemma_without(prior.unseen_imports, item);
        let fewer = items.drop_first();
        assert forall|k: int| 0 <= k < fewer.len() implies imports_something(
            #[trigger] fewer[k],
        ) by {
            assert(fewer[k] == items[k + 1]);
        }
        lemma_scanned_imports(found, fewer, pending, rest);
        let fewer_lines = deps_module::module_lines(fewer);
        assert(fewer_lines =~= lines.drop_first());
        let next_all = fewer_lines + seq![pending] + rest;
        assert(all.drop_first() =~= next_all);
        assert(all.first() == line);
        if fewer.len() > 0 {
            assert(imports_something(items[1]));
            let second = choose|interface: Seq<char>|
                items[1] == #[trigger] deps_module::import_item(interface);
            lemma_import_line(second);
            assert(next_all.first() == lines[1]);
        } else {
            assert(next_all.first() == pending);
        }
        assert(!found.ends_imports(next_all.first()));
        let after = read_all(prior, lines);
        assert(after == read_all(found, fewer_lines));
        assert(lines + scanned(after, pending, rest) =~= seq![line] + (fewer_lines + scanned(
            after,
            pending,
            rest,
        )));
        assert forall|y: Seq<char>| #[trigger]
            after.unseen_imports.contains(y) implies prior.unseen_imports.contains(y)
            && !items.contains(y) by {
            assert(found.unseen_imports.contains(y));
            if items.contains(y) {
                let j = choose|j: int| 0 <= j < items.len() && items[j] == y;
                assert(fewer[j - 1] == y);
            }
        }
    }
}

/// Outside a block of imports a scan passes the lines of `items` unchanged, and unseen.
proof fn lemma_scanned_imports_outside(
    prior: Findings,
    items: Seq<Seq<char>>,
    pending: Seq<char>,
    rest: Seq<Seq<char>>,
)
    requires
        !prior.in_imports,
        forall|k: int| 0 <= k < items.len() ==> imports_something(#[trigger] items[k]),
    ensures
        ({
            let lines = deps_module::module_lines(items);
            let all = lines + seq![pending] + rest;
            scanned(prior, all.first(), all.drop_first()) == lines + scanned(prior, pending, rest)
        }),
    decreases items.len(),
{
    let lines = deps_module::module_lines(items);
    let all = lines + seq![pending] + rest;
    let tail = scanned(prior, pending, rest);
    if items.len() == 0 {
        assert(lines =~= Seq::<Seq<char>>::empty());
        assert(all.drop_first() =~= rest);
        assert(lines + tail =~= tail);
    } else {
        let line = lines[0];
        assert(imports_something(items[0]));
        let interface = choose|interface: Seq<char>|
            items[0] == #[trigger] deps_module::import_item(interface);
        lemma_import_line(interface);
        assert(prior.read(line) == prior);
        let fewer = items.drop_first();
        assert forall|k: int| 0 <= k < fewer.len() implies imports_something(
            #[trigger] fewer[k],
        ) by {
            assert(fewer[k] == items[k + 1]);
        }
        lemma_scanned_imports_outside(prior, fewer, pending, rest);
        let fewer_lines = deps_module::module_lines(fewer);
        assert(fewer_lines =~= lines.drop_first());
        assert(all.drop_first() =~= fewer_lines + seq![pending] + rest);
        assert(all.first() == line);
        assert(lines + tail =~= seq![line] + (fewer_lines + tail));
    }
}

/// A scan drops no line.
proof fn lemma_scanned_len(prior: Findings, pending: Seq<char>, rest: Seq<Seq<char>>)
    ensures
        scanned(prior, pending, rest).len() >= 1 + rest.len(),
    decreases rest.len(),
{
    if rest.len() > 0 {
        lemma_scanned_len(prior.read(pending), rest.first(), rest.drop_first());
    }
}

proof fn lemma_rescanned(prior: Findings, pending: Seq<char>, rest: Seq<Seq<char>>)
    requires
        forall|k: int|
            0 <= k < prior.unseen_imports.len() ==> imports_something(
                #[trigger] prior.unseen_imports[k],
            ),
    ensures
        ({
            let once = scanned(prior, pending, rest);
            scanned(prior, once.first(), once.drop_first()) == once <==> adds_inside_block(
                prior,
                pending,
                rest,
            )
        }),
    decreases rest.len(),
{
    let found = prior.read(pending);
    let once = scanned(prior, pending, rest);
    lemma_read_shrinks(prior, pending);
    lemma_without(prior.unseen_imports, text::trimmed(pending));
    if rest.len() == 0 {
        assert(once.drop_first() =~= rest);
    } else {
        let line = rest.first();
        let tail = scanned(found, line, rest.drop_first());
        assert forall|k: int| 0 <= k < found.unseen_imports.len() implies imports_something(
            #[trigger] found.unseen_imports[k],
        ) by {
            let item = found.unseen_imports[k];
            assert(found.unseen_imports.contains(item));
            assert(prior.unseen_imports.contains(item));
            let j = choose|j: int|
                0 <= j < prior.unseen_imports.len() && prior.unseen_imports[j] == item;
            assert(imports_something(prior.unseen_imports[j]));
        }
        if found.unseen_imports.len() == 0 {
            lemma_scanned_unchanged(prior, pending, rest);
            lemma_nothing_to_add(prior, pending, rest);
            assert(once.first() == pending);
            assert(once.drop_first() =~= rest);
        } else if found.ends_imports(line) && !prior.in_imports {
            let items = found.unseen_imports;
            let lines = deps_module::module_lines(items);
            lemma_scanned_imports_outside(prior, items, pending, tail);
            lemma_scanned_starts(found, line, rest.drop_first());
            assert(once =~= lines + seq![pending] + tail);
            let more = scanned(found, line, tail.drop_first());
            lemma_scanned_len(found, line, tail.drop_first());
            assert(scanned(prior, pending, tail) == lines + seq![pending] + more);
            assert(scanned(prior, once.first(), once.drop_first()).len() > once.len());
        } else if found.ends_imports(line) {
            let items = found.unseen_imports;
            lemma_scanned_imports(prior, items, pending, tail);
            let lines = deps_module::module_lines(items);
            let again = read_all(prior, lines);
            let last = again.read(pending);
            lemma_read_shrinks(again, pending);
            lemma_without(again.unseen_imports, text::trimmed(pending));
            if last.unseen_imports.len() > 0 {
                let y = last.unseen_imports[0];
                assert(last.unseen_imports.contains(y));
                assert(again.unseen_imports.contains(y));
                assert(prior.unseen_imports.contains(y));
                assert(!items.contains(y));
                assert(false);
            }
            lemma_scanned_unchanged(again, pending, tail);
            assert(once =~= lines + (seq![pending] + tail));
        } else {
            lemma_rescanned(found, line, rest.drop_first());
            lemma_scanned_first(found, line, rest.drop_first());
            assert(once.first() == pending);
            assert(once.drop_first() =~= tail);
            let again = scanned(found, tail.first(), tail.drop_first());
            assert(scanned(prior, pending, tail) == seq![pending] + again);
            assert((seq![pending] + again).drop_first() =~= again);
        }
    }
}

/// Where no import is missed, none goes to the wrong place.
proof fn lemma_nothing_to_add(prior: Findings, pending: Seq<char>, rest: Seq<Seq<char>>)
    requires
        prior.read(pending).unseen_imports.len() == 0,
    ensures
        adds_inside_block(prior, pending, rest),
    decreases rest.len(),
{
    if rest.len() > 0 {
        lemma_read_shrinks(prior.read(pending), rest.first());
        lemma_nothing_to_add(prior.read(pending), rest.first(), rest.drop_first());
    }
}

/// What a scan makes of a line starts with that line or with an import.
proof fn lemma_scanned_first(prior: Findings, pending: Seq<char>, rest: Seq<Seq<char>>)
    requires
        forall|k: int|
            0 <= k < prior.unseen_imports.len() ==> imports_something(
                #[trigger] prior.unseen_imports[k],
            ),
    ensures
        ({
            let first = scanned(prior, pending, rest).first();
            first == pending || (!deps_module::closes(first) && !deps_module::opens_imports(first))
        }),
{
    let found = prior.read(pending);
    lemma_read_shrinks(prior, pending);
    if found.unseen_imports.len() > 0 {
        let item = found.unseen_imports[0];
        assert(found.unseen_imports.contains(item));
        assert(prior.unseen_imports.contains(item));
        let j = choose|j: int|
            0 <= j < prior.unseen_imports.len() && prior.unseen_imports[j] == item;
        assert(imports_something(prior.unseen_imports[j]));
        let interface = choose|interface: Seq<char>|
            item == #[trigger] deps_module::import_item(interface);
        lemma_import_line(interface);
        assert(deps_module::module_lines(found.unseen_imports)[0] == deps_module::module_line(
            item,
        ));
    }
}

/// Scanning a file a second time for the same interfaces leaves it as the first scan left it if
/// and only if the first scan adds its imports inside the block. (In a block without a line it
/// adds them before the line that opens the block, where a second scan does not look.)
pub proof fn scan_again_adds_nothing(lines: Seq<Seq<char>>, interfaces: Seq<Seq<char>>)
    requires
        deps_module::first_deps_line(lines) < lines.len(),
    ensures
        ({
            let at = deps_module::first_deps_line(lines);
            let once = Scan::at_module(lines, at as int, interfaces).complete().done;
            &&& deps_module::first_deps_line(once) == at
            &&& Scan::at_module(once, at as int, interfaces).complete().done == once
                <==> adds_inside_block(
                Findings::none(interfaces),
                lines[at as int],
                lines.skip(at as int + 1),
            )
        }),
{
    let at = deps_module::first_deps_line(lines) as int;
    let none = Findings::none(interfaces);
    let rest = lines.skip(at + 1);
    let tail = scanned(none, lines[at], rest);
    let once = Scan::at_module(lines, at, interfaces).complete().done;
    deps_module::lemma_first_deps_line(lines);
    lemma_scan_of_file(lines, at, interfaces);
    lemma_deps_line(lines[at], interfaces);
    lemma_scanned_starts(none, lines[at], rest);
    assert(once =~= lines.take(at) + tail);
    assert(once[at] == lines[at]);
    assert forall|k: int| 0 <= k < at implies !deps_module::opens_deps(once[k]) by {
        assert(once[k] == lines[k]);
    }
    deps_module::lemma_first_deps_line_is(once, at);
    assert forall|k: int| 0 <= k < none.unseen_imports.len() implies imports_something(
        #[trigger] none.unseen_imports[k],
    ) by {
        assert(none.unseen_imports[k] == deps_module::import_item(interfaces[k]));
    }
    lemma_rescanned(none, lines[at], rest);
    lemma_scan_of_file(once, at, interfaces);
    assert(once.take(at) =~= lines.take(at));
    assert(once.skip(at + 1) =~= tail.drop_first());
    let again = scanned(none, tail.first(), tail.drop_first());
    assert((lines.take(at) + again).skip(at) =~= again);
    assert((lines.take(at) + tail).skip(at) =~= tail);
}

/// `scan` after its next `n` lines.
spec fn steps(scan: Scan, n: nat) -> Scan
    decreases n,
{
    if n == 0 {
        scan
    } else {
        steps(scan.step(), (n - 1) as nat)
    }
}

proof fn lemma_complete_after_steps(scan: Scan, n: nat)
    requires
        n <= scan.rest.len(),
    ensures
        steps(scan, n).complete() == scan.complete(),
    decreases n,
{
    if n > 0 {
        lemma_complete_after_steps(scan.step(), (n - 1) as nat);
    }
}

/// Once nothing is missed, the rest of a scan changes nothing.
proof fn lemma_complete_when_all_seen(scan: Scan)
    requires
        scan.done.len() > 0,
        scan.found.unseen_imports.len() == 0,
        scan.found.unseen_withs.len() == 0,
    ensures
        scan.complete().done == scan.done + scan.rest,
        scan.complete().found.unseen_imports.len() == 0,
        scan.complete().found.unseen_withs.len() == 0,
    decreases scan.rest.len(),
{
    if scan.rest.len() == 0 {
        assert(scan.done + scan.rest =~= scan.done);
    } else {
        let line = scan.rest.first();
        let next = scan.step();
        lemma_read_shrinks(scan.found, line);
        assert(deps_module::module_lines(scan.found.unseen_imports) =~= Seq::<Seq<char>>::empty());
        assert(next.done =~= scan.done.push(line));
        lemma_complete_when_all_seen(next);
        assert(next.done + next.rest =~= scan.done + scan.rest);
    }
}

/// Inside a block of imports, the lines of the imports of `interfaces` are passed and seen.
proof fn lemma_steps_over_imports(scan: Scan, interfaces: Seq<Seq<char>>, rest: Seq<Seq<char>>)
    requires
        scan.found.in_imports,
        scan.rest == deps_module::module_lines(deps_module::import_items(interfaces)) + rest,
    ensures
        ({
            let items = deps_module::import_items(interfaces);
            let after = steps(scan, interfaces.len());
            &&& after.done == scan.done + deps_module::module_lines(items)
            &&& after.rest == rest
            &&& after.found.in_imports
            &&& after.found.in_with == scan.found.in_with
            &&& after.found.unseen_withs == scan.found.unseen_withs
            &&& forall|y: Seq<char>| #[trigger]
                after.found.unseen_imports.contains(y) ==> scan.found.unseen_imports.contains(y)
                    && !items.contains(y)
        }),
    decreases interfaces.len(),
{
    let items = deps_module::import_items(interfaces);
    let lines = deps_module::module_lines(items);
    if interfaces.len() == 0 {
        assert(scan.done + lines =~= scan.done);
        assert(scan.rest =~= rest);
    } else {
        let line = scan.rest.first();
        assert(line == deps_module::module_line(deps_module::import_item(interfaces[0])));
        lemma_import_line(interfaces[0]);
        lemma_without(scan.found.unseen_imports, items[0]);
        let fewer = interfaces.drop_first();
        let fewer_items = deps_module::import_items(fewer);
        let next = scan.step();
        assert(fewer_items =~= items.drop_first());
        assert(next.rest =~= deps_module::module_lines(fewer_items) + rest);
        lemma_steps_over_imports(next, fewer, rest);
        assert(next.done + deps_module::module_lines(fewer_items) =~= scan.done + lines);
        let after = steps(scan, interfaces.len());
        assert forall|y: Seq<char>| #[trigger]
            after.found.unseen_imports.contains(y) implies scan.found.unseen_imports.contains(y)
            && !items.contains(y) by {
            assert(next.found.unseen_imports.contains(y));
            if items.contains(y) {
                let j = choose|j: int| 0 <= j < items.len() && items[j] == y;
                assert(fewer_items[j - 1] == y);
            }
        }
    }
}

/// In the table of bindings, the lines for `interfaces` are passed and seen.
proof fn lemma_steps_over_withs(scan: Scan, interfaces: Seq<Seq<char>>, rest: Seq<Seq<char>>)
    requires
        !scan.found.in_imports,
        scan.found.in_with,
        scan.rest == deps_module::module_lines(deps_module::with_items(interfaces)) + rest,
    ensures
        ({
            let items = deps_module::with_items(interfaces);
            let after = steps(scan, interfaces.len());
            &&& after.done == scan.done + deps_module::module_lines(items)
            &&& after.rest == rest
            &&& after.found.unseen_imports == scan.found.unseen_imports
            &&& forall|y: Seq<char>| #[trigger]
                after.found.unseen_withs.contains(y) ==> scan.found.unseen_withs.contains(y)
                    && !items.contains(y)
        }),
    decreases interfaces.len(),
{
    let items = deps_module::with_items(interfaces);
    let lines = deps_module::module_lines(items);
    if interfaces.len() == 0 {
        assert(scan.done + lines =~= scan.done);
        assert(scan.rest =~= rest);
    } else {
        let line = scan.rest.first();
        assert(line == deps_module::module_line(deps_module::with_item(interfaces[0])));
        lemma_with_line(interfaces[0]);
        lemma_without(scan.found.unseen_withs, items[0]);
        let fewer = interfaces.drop_first();
        let fewer_items = deps_module::with_items(fewer);
        let next = scan.step();
        assert(fewer_items =~= items.drop_first());
        assert(next.rest =~= deps_module::module_lines(fewer_items) + rest);
        lemma_steps_over_withs(next, fewer, rest);
        assert(next.done + deps_module::module_lines(fewer_items) =~= scan.done + lines);
        let after = steps(scan, interfaces.len());
        assert forall|y: Seq<char>| #[trigger]
            after.found.unseen_withs.contains(y) implies scan.found.unseen_withs.contains(y)
            && !items.contains(y) by {
            assert(next.found.unseen_withs.contains(y));
            if items.contains(y) {
                let j = choose|j: int| 0 <= j < items.len() && items[j] == y;
                assert(fewer_items[j - 1] == y);
            }
        }
    }
}

/// An empty line tells a scan nothing.
proof fn lemma_empty_line(found: Findings)
    ensures
        found.read(Seq::empty()) == found,
        !found.ends_imports(Seq::empty()),
        !deps_module::opens_deps(Seq::empty()),
{
    reveal_strlit("mod deps {");
    reveal_strlit("world imports {");
    reveal_strlit("}");
    reveal_strlit("import ");
    reveal_strlit("with: {");
    reveal_strlit(": generate,");
    assert(text::trimmed(Seq::empty()) == Seq::<char>::empty());
}

/// The lines of a new module up to the opening of its imports, as a scan reads them.
proof fn lemma_head_lines(found: Findings)
    requires
        !found.in_imports,
        !found.in_with,
    ensures
        deps_module::opens_deps(deps_module::module_head()[1]),
        found.read(deps_module::module_head()[2]) == found,
        found.read(deps_module::module_head()[3]) == found,
        found.read(deps_module::module_head()[4]) == found,
        deps_module::opens_imports(deps_module::module_head()[5]),
{
    reveal_strlit("mod deps {");
    reveal_strlit("    wit_bindgen::generate!({");
    reveal_strlit("        inline: r#\"");
    reveal_strlit("        package root:component;");
    reveal_strlit("        world imports {");
    reveal_strlit("world imports {");
    reveal_strlit("with: {");
    let l1 = "mod deps {"@;
    let l2 = "    wit_bindgen::generate!({"@;
    let l3 = "        inline: r#\""@;
    let l4 = "        package root:component;"@;
    let l5 = "        world imports {"@;
    text::lemma_trimmed_is(l1, 0, l1.len() as int);
    text::lemma_trimmed_is(l2, 4, l2.len() as int);
    text::lemma_trimmed_is(l3, 8, l3.len() as int);
    text::lemma_trimmed_is(l4, 8, l4.len() as int);
    text::lemma_trimmed_is(l5, 8, l5.len() as int);
    assert("mod deps {"@ =~= text::trimmed(l1).subrange(0, 10));
    assert("world imports {"@.is_prefix_of(text::trimmed(l2)) ==> text::trimmed(l2).subrange(
        0,
        15,
    )[1] == 'o');
    assert("with: {"@.is_prefix_of(text::trimmed(l2)) ==> text::trimmed(l2).subrange(0, 7)[3]
        == 'h');
    assert("world imports {"@.is_prefix_of(text::trimmed(l3)) ==> text::trimmed(l3).subrange(
        0,
        15,
    )[0] == 'w');
    assert("with: {"@.is_prefix_of(text::trimmed(l3)) ==> text::trimmed(l3).subrange(0, 7)[0]
        == 'w');
    assert("world imports {"@.is_prefix_of(text::trimmed(l4)) ==> text::trimmed(l4).subrange(
        0,
        15,
    )[0] == 'w');
    assert("with: {"@.is_prefix_of(text::trimmed(l4)) ==> text::trimmed(l4).subrange(0, 7)[0]
        == 'w');
    assert("world imports {"@ =~= text::trimmed(l5).subrange(0, 15));
}

/// The lines of a new module between its imports and its bindings, as a scan reads them.
proof fn lemma_middle_lines(found: Findings)
    requires
        found.in_imports,
        !found.in_with,
    ensures
        ({
            let closed = Findings { in_imports: false, ..found };
            &&& found.ends_imports(deps_module::module_middle()[0])
            &&& closed.read(deps_module::module_middle()[1]) == closed
            &&& closed.read(deps_module::module_middle()[2]) == (Findings {
                in_with: true,
                ..closed
            })
        }),
{
    reveal_strlit("        }");
    reveal_strlit("        \"#,");
    reveal_strlit("        with: {");
    reveal_strlit("world imports {");
    reveal_strlit("with: {");
    reveal_strlit("}");
    let l0 = "        }"@;
    let l1 = "        \"#,"@;
    let l2 = "        with: {"@;
    text::lemma_trimmed_is(l0, 8, l0.len() as int);
    text::lemma_trimmed_is(l1, 8, l1.len() as int);
    text::lemma_trimmed_is(l2, 8, l2.len() as int);
    assert("}"@ =~= text::trimmed(l0).subrange(0, 1));
    assert("with: {"@ =~= text::trimmed(l2).subrange(0, 7));
    assert("world imports {"@.len() == 15);
    assert("with: {"@.len() == 7);
}

/// Whether `line` reads back as one line when a line feed is put behind it.
spec fn is_one_line(line: Seq<char>) -> bool {
    !line.contains('\n') && (line.len() > 0 ==> line.last() != '\r')
}

proof fn lemma_fixed_lines()
    ensures
        forall|k: int|
            0 <= k < deps_module::module_head().len() ==> is_one_line(
                #[trigger] deps_module::module_head()[k],
            ),
        forall|k: int|
            0 <= k < deps_module::module_middle().len() ==> is_one_line(
                #[trigger] deps_module::module_middle()[k],
            ),
{
    reveal_strlit("mod deps {");
    reveal_strlit("    wit_bindgen::generate!({");
    reveal_strlit("        inline: r#\"");
    reveal_strlit("        package root:component;");
    reveal_strlit("        world imports {");
    reveal_strlit("        }");
    reveal_strlit("        \"#,");
    reveal_strlit("        with: {");
}

proof fn lemma_listed_lines(interfaces: Seq<Seq<char>>)
    requires
        forall|i: int| 0 <= i < interfaces.len() ==> !(#[trigger] interfaces[i]).contains('\n'),
    ensures
        forall|k: int|
            0 <= k < deps_module::listed(deps_module::import_items(interfaces)).len()
                ==> is_one_line(
                #[trigger] deps_module::listed(deps_module::import_items(interfaces))[k],
            ),
        forall|k: int|
            0 <= k < deps_module::listed(deps_module::with_items(interfaces)).len() ==> is_one_line(
                #[trigger] deps_module::listed(deps_module::with_items(interfaces))[k],
            ),
{
    reveal_strlit("            ");
    reveal_strlit("import ");
    reveal_strlit(";");
    reveal_strlit("\"");
    reveal_strlit("\": generate,");
    let imports = deps_module::listed(deps_module::import_items(interfaces));
    let withs = deps_module::listed(deps_module::with_items(interfaces));
    assert forall|k: int| 0 <= k < imports.len() implies is_one_line(#[trigger] imports[k]) by {
        if interfaces.len() > 0 {
            let x = interfaces[k];
            let line = imports[k];
            assert(line == "            "@ + ("import "@ + x + ";"@));
            assert forall|j: int| 0 <= j < line.len() implies line[j] != '\n' by {
                if 19 <= j < 19 + x.len() {
                    assert(line[j] == x[j - 19]);
                    assert(x.contains(x[j - 19]));
                }
            }
            assert(line.last() == ';');
        }
    }
    assert forall|k: int| 0 <= k < withs.len() implies is_one_line(#[trigger] withs[k]) by {
        if interfaces.len() > 0 {
            let x = interfaces[k];
            let line = withs[k];
            assert(line == "            "@ + ("\""@ + x + "\": generate,"@));
            assert forall|j: int| 0 <= j < line.len() implies line[j] != '\n' by {
                if 13 <= j < 13 + x.len() {
                    assert(line[j] == x[j - 13]);
                    assert(x.contains(x[j - 13]));
                }
            }
            assert(line.last() == ',');
        }
    }
}

/// The lines of a new module up to its bindings are read back from its text.
proof fn lemma_new_module_lines(component_id: Seq<char>, interfaces: Seq<Seq<char>>)
    requires
        forall|i: int| 0 <= i < interfaces.len() ==> !(#[trigger] interfaces[i]).contains('\n'),
    ensures
        text::lines_of(text::terminated(deps_module::new_module(component_id, interfaces)))
            == deps_module::module_head() + deps_module::listed(
            deps_module::import_items(interfaces),
        ) + deps_module::module_middle() + deps_module::listed(deps_module::with_items(interfaces))
            + text::lines_of(text::terminated(deps_module::module_tail(component_id))),
{
    let imports = deps_module::listed(deps_module::import_items(interfaces));
    let withs = deps_module::listed(deps_module::with_items(interfaces));
    let head = deps_module::module_head();
    let middle = deps_module::module_middle();
    let tail = deps_module::module_tail(component_id);
    let first = head + imports + middle + withs;
    lemma_fixed_lines();
    lemma_listed_lines(interfaces);
    assert forall|k: int| 0 <= k < first.len() implies !(#[trigger] first[k]).contains('\n') && (
    first[k].len() > 0 ==> first[k].last() != '\r') by {
        let a = head.len() as int;
        let b = a + imports.len();
        let c = b + middle.len();
        if k < a {
            assert(is_one_line(head[k]));
        } else if k < b {
            assert(is_one_line(imports[k - a]));
        } else if k < c {
            assert(is_one_line(middle[k - b]));
        } else {
            assert(is_one_line(withs[k - c]));
        }
    }
    text::lemma_terminated_add(first, tail);
    text::lemma_lines_of_terminated(first, text::terminated(tail));
}

/// A scan passes the lines of a new module that come before its imports, and is then inside the
/// block of imports.
proof fn lemma_steps_over_head(lines: Seq<Seq<char>>, interfaces: Seq<Seq<char>>)
    requires
        deps_module::module_head().is_prefix_of(lines),
    ensures
        deps_module::first_deps_line(lines) == 1,
        steps(Scan::at_module(lines, 1, interfaces), 4) == (Scan {
            done: deps_module::module_head(),
            rest: lines.skip(6),
            found: Findings { in_imports: true, ..Findings::none(interfaces) },
        }),
{
    let head = deps_module::module_head();
    let none = Findings::none(interfaces);
    assert forall|k: int| 0 <= k < 6 implies #[trigger] lines[k] == head[k] by {
        assert(lines.subrange(0, 6)[k] == head[k]);
    }
    lemma_empty_line(none);
    lemma_head_lines(none);
    assert(lines[0] == Seq::<char>::empty());
    deps_module::lemma_first_deps_line_is(lines, 1);
    let s0 = Scan::at_module(lines, 1, interfaces);
    let s1 = s0.step();
    assert(s0.rest.first() == lines[2]);
    assert(s1.rest =~= lines.skip(3));
    assert(s1.done =~= lines.take(3));
    let s2 = s1.step();
    assert(s1.rest.first() == lines[3]);
    assert(s2.rest =~= lines.skip(4));
    assert(s2.done =~= lines.take(4));
    let s3 = s2.step();
    assert(s2.rest.first() == lines[4]);
    assert(s3.rest =~= lines.skip(5));
    assert(s3.done =~= lines.take(5));
    let s4 = s3.step();
    assert(s3.rest.first() == lines[5]);
    assert(s4.rest =~= lines.skip(6));
    assert(s4.done =~= head);
    reveal_with_fuel(steps, 5);
}

/// A scan passes the lines of a new module between its imports and its bindings, putting nothing
/// in if no import is missed.
proof fn lemma_steps_over_middle(scan: Scan, rest: Seq<Seq<char>>)
    requires
        scan.done.len() > 0,
        scan.found.in_imports,
        !scan.found.in_with,
        scan.found.unseen_imports.len() == 0,
        scan.rest == deps_module::module_middle() + rest,
    ensures
        steps(scan, 3) == (Scan {
            done: scan.done + deps_module::module_middle(),
            rest,
            found: Findings { in_imports: false, in_with: true, ..scan.found },
        }),
{
    let middle = deps_module::module_middle();
    lemma_middle_lines(scan.found);
    assert(deps_module::module_lines(scan.found.unseen_imports) =~= Seq::<Seq<char>>::empty());
    let s1 = scan.step();
    assert(scan.rest.first() == middle[0]);
    assert(s1.done =~= scan.done.push(middle[0]));
    assert(s1.rest =~= middle.skip(1) + rest);
    let s2 = s1.step();
    assert(s1.rest.first() == middle[1]);
    assert(s2.rest =~= middle.skip(2) + rest);
    let s3 = s2.step();
    assert(s2.rest.first() == middle[2]);
    assert(s3.rest =~= rest);
    assert(s3.done =~= scan.done + middle);
    reveal_with_fuel(steps, 4);
}

/// The text of a new module is recognised by a scan for the interfaces that it was made for: the
/// module is found, no import and no binding is missed, and the scan leaves the text as it is.
/// Interfaces whose name spans several lines are left out: no line can say them.
pub proof fn new_module_is_recognised(component_id: Seq<char>, interfaces: Seq<Seq<char>>)
    requires
        forall|i: int| 0 <= i < interfaces.len() ==> !(#[trigger] interfaces[i]).contains('\n'),
    ensures
        ({
            let lines = text::lines_of(
                text::terminated(deps_module::new_module(component_id, interfaces)),
            );
            let scan = Scan::at_module(lines, 1, interfaces).complete();
            &&& deps_module::first_deps_line(lines) == 1
            &&& scan.done == lines
            &&& scan.found.unseen_imports.len() == 0
            &&& scan.found.unseen_withs.len() == 0
        }),
{
    let lines = text::lines_of(
        text::terminated(deps_module::new_module(component_id, interfaces)),
    );
    let n = interfaces.len();
    let head = deps_module::module_head();
    let import_items = deps_module::import_items(interfaces);
    let with_items = deps_module::with_items(interfaces);
    let imports = deps_module::listed(import_items);
    let middle = deps_module::module_middle();
    let withs = deps_module::listed(with_items);
    let rest = text::lines_of(text::terminated(deps_module::module_tail(component_id)));
    lemma_new_module_lines(component_id, interfaces);
    assert(head =~= lines.subrange(0, 6));
    let start = Scan::at_module(lines, 1, interfaces);
    lemma_steps_over_head(lines, interfaces);
    lemma_complete_after_steps(start, 4);
    let s1 = steps(start, 4);
    let rest1 = middle + (withs + rest);
    assert(s1.rest =~= imports + rest1);
    let m: nat = if n == 0 {
        1
    } else {
        n
    };
    let s2 = steps(s1, m);
    if n == 0 {
        lemma_empty_line(s1.found);
        reveal_with_fuel(steps, 2);
        assert(s1.rest.first() == Seq::<char>::empty());
        assert(s2 == s1.step());
        assert(s2.done =~= head + imports);
        assert(s2.rest =~= rest1);
        assert(s2.found.unseen_imports =~= Seq::<Seq<char>>::empty());
    } else {
        lemma_steps_over_imports(s1, interfaces, rest1);
        if s2.found.unseen_imports.len() > 0 {
            let y = s2.found.unseen_imports[0];
            assert(s2.found.unseen_imports.contains(y));
            assert(import_items.contains(y));
            assert(false);
        }
    }
    lemma_complete_after_steps(s1, m);
    lemma_steps_over_middle(s2, withs + rest);
    lemma_complete_after_steps(s2, 3);
    let s3 = steps(s2, 3);
    let s4 = steps(s3, m);
    if n == 0 {
        lemma_empty_line(s3.found);
        reveal_with_fuel(steps, 2);
        assert(s3.rest.first() == Seq::<char>::empty());
        assert(s4 == s3.step());
        assert(s4.done =~= s3.done + withs);
        assert(s4.rest =~= rest);
        assert(s4.found.unseen_withs =~= Seq::<Seq<char>>::empty());
    } else {
        lemma_steps_over_withs(s3, interfaces, rest);
        if s4.found.unseen_withs.len() > 0 {
            let y = s4.found.unseen_withs[0];
            assert(s4.found.unseen_withs.contains(y));
            assert(with_items.contains(y));
            assert(false);
        }
    }
    lemma_complete_after_steps(s3, m);
    lemma_complete_when_all_seen(s4);
    assert(s4.done + s4.rest =~= lines);
}

} // verus!
