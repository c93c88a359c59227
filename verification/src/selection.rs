//! The interfaces of a component that the user selects for import.
//!
//! The exported interfaces are grouped by package. The user picks packages, and then, for each
//! package picked, one of its interfaces or all of them.

use crate::error::AddError;
use crate::text;
use vstd::prelude::*;
use vstd::string::*;

verus! {

/// A question to the user, who picks one of the options.
#[derive(Debug)]
pub struct Prompt {
    pub message: String,
    pub options: Vec<String>,
    /// The index of the option offered first.
    pub default: Option<usize>,
}

/// What a [`Prompt`] holds.
pub struct PromptView {
    pub message: Seq<char>,
    pub options: Seq<Seq<char>>,
    pub default: Option<usize>,
}

impl View for Prompt {
    type V = PromptView;

    open spec fn view(&self) -> PromptView {
        PromptView {
            message: self.message@,
            options: text::texts(self.options@),
            default: self.default,
        }
    }
}

/// The name of a WIT package.
#[derive(Debug)]
pub struct PackageName {
    pub namespace: String,
    pub name: String,
    /// The version, as a semantic version prints.
    pub version: Option<String>,
}

/// What a [`PackageName`] holds.
pub struct PackageNameView {
    pub namespace: Seq<char>,
    pub name: Seq<char>,
    pub version: Option<Seq<char>>,
}

impl View for PackageName {
    type V = PackageNameView;

    open spec fn view(&self) -> PackageNameView {
        PackageNameView {
            namespace: self.namespace@,
            name: self.name@,
            version: text::opt_text(self.version),
        }
    }
}

/// `@` and the version, or nothing if there is no version.
pub open spec fn version_suffix(version: Option<Seq<char>>) -> Seq<char> {
    match version {
        Some(v) => "@"@ + v,
        None => Seq::empty(),
    }
}

impl PackageNameView {
    /// The package, as `namespace:name` or `namespace:name@version`.
    pub open spec fn display(self) -> Seq<char> {
        self.namespace + ":"@ + self.name + version_suffix(self.version)
    }

    /// An interface of the package, as `namespace:name/interface` or
    /// `namespace:name/interface@version`.
    pub open spec fn interface(self, interface: Seq<char>) -> Seq<char> {
        self.namespace + ":"@ + self.name + "/"@ + interface + version_suffix(self.version)
    }
}

impl PackageName {
    /// Whether two names are equal.
    pub fn same(&self, other: &PackageName) -> (r: bool)
        ensures
            r == (self@ == other@),
    {
        let same_version = match (&self.version, &other.version) {
            (Some(a), Some(b)) => *a == *b,
            (None, None) => true,
            _ => false,
        };
        self.namespace == other.namespace && self.name == other.name && same_version
    }

    /// Another name of the same content.
    pub fn copy(&self) -> (r: PackageName)
        ensures
            r@ == self@,
    {
        PackageName {
            namespace: self.namespace.clone(),
            name: self.name.clone(),
            version: text::copy_option(&self.version),
        }
    }

    /// The package, as `namespace:name` or `namespace:name@version`.
    pub fn display(&self) -> (r: String)
        ensures
            r@ == self@.display(),
    {
        let mut out = self.namespace.clone();
        out.append(":");
        out.append(self.name.as_str());
        if let Some(version) = &self.version {
            out.append("@");
            out.append(version.as_str());
        }
        assert(out@ =~= self@.display());
        out
    }

    /// An interface of the package, as `namespace:name/interface` or
    /// `namespace:name/interface@version`.
    pub fn interface(&self, interface: &str) -> (r: String)
        ensures
            r@ == self@.interface(interface@),
    {
        let mut out = self.namespace.clone();
        out.append(":");
        out.append(self.name.as_str());
        out.append("/");
        out.append(interface);
        if let Some(version) = &self.version {
            out.append("@");
            out.append(version.as_str());
        }
        assert(out@ =~= self@.interface(interface@));
        out
    }
}

/// An interface that a component exports.
#[derive(Debug)]
pub struct ExportedInterface {
    pub package: PackageName,
    pub interface: String,
}

/// What exported interfaces hold.
pub open spec fn exports_view(exports: Seq<ExportedInterface>) -> Seq<
    (PackageNameView, Seq<char>),
> {
    exports.map_values(|e: ExportedInterface| (e.package@, e.interface@))
}

/// The packages of the exported interfaces, each once, in the order in which they first occur.
pub open spec fn packages_of(exports: Seq<(PackageNameView, Seq<char>)>) -> Seq<PackageNameView>
    decreases exports.len(),
{
    if exports.len() == 0 {
        Seq::empty()
    } else {
        let packages = packages_of(exports.drop_last());
        if packages.contains(exports.last().0) {
            packages
        } else {
            packages.push(exports.last().0)
        }
    }
}

/// The exported interfaces of that package, in order.
pub open spec fn interfaces_of(
    exports: Seq<(PackageNameView, Seq<char>)>,
    package: PackageNameView,
) -> Seq<Seq<char>>
    decreases exports.len(),
{
    if exports.len() == 0 {
        Seq::empty()
    } else {
        let interfaces = interfaces_of(exports.drop_last(), package);
        if exports.last().0 == package {
            interfaces.push(exports.last().1)
        } else {
            interfaces
        }
    }
}

/// The exported interfaces, grouped by package.
pub open spec fn grouped(exports: Seq<(PackageNameView, Seq<char>)>) -> Seq<GroupView> {
    packages_of(exports).map_values(
        |p: PackageNameView| GroupView { package: p, interfaces: interfaces_of(exports, p) },
    )
}

/// A package with the interfaces of it that a component exports.
#[derive(Debug)]
pub struct PackageInterfaces {
    pub package: PackageName,
    pub interfaces: Vec<String>,
}

/// What a [`PackageInterfaces`] holds.
pub struct GroupView {
    pub package: PackageNameView,
    pub interfaces: Seq<Seq<char>>,
}

impl View for PackageInterfaces {
    type V = GroupView;

    open spec fn view(&self) -> GroupView {
        GroupView { package: self.package@, interfaces: text::texts(self.interfaces@) }
    }
}

/// What groups hold.
pub open spec fn groups_view(groups: Seq<PackageInterfaces>) -> Seq<GroupView> {
    groups.map_values(|g: PackageInterfaces| g@)
}

impl GroupView {
    /// What the user can choose from: the interfaces of the package and, before them, all of
    /// them at once if there is more than one.
    pub open spec fn options(self) -> Seq<Seq<char>> {
        if self.interfaces.len() > 1 {
            seq!["(Import all interfaces)"@] + self.interfaces
        } else {
            self.interfaces
        }
    }

    /// What is asked about the package.
    pub open spec fn prompt(self) -> PromptView {
        PromptView {
            message: "Select one or all interfaces to import from package '"@
                + self.package.display() + "'"@,
            options: self.options(),
            default: Some(0),
        }
    }

    /// What is imported if the user chooses the option at that index: the package for all
    /// interfaces, or the one interface.
    pub open spec fn import(self, option: int) -> Seq<char> {
        if self.interfaces.len() > 1 && option == 0 {
            self.package.display()
        } else {
            self.package.interface(self.options()[option])
        }
    }
}

impl PackageInterfaces {
    /// What the user can choose from.
    pub fn options(&self) -> (r: Vec<String>)
        ensures
            text::texts(r@) == self@.options(),
    {
        if self.interfaces.len() > 1 {
            let mut options: Vec<String> = Vec::new();
            options.push("(Import all interfaces)".to_owned());
            let mut rest = text::copy_texts(&self.interfaces);
            let ghost first = options@;
            let ghost others = rest@;
            options.append(&mut rest);
            assert(text::texts(options@) =~= text::texts(first) + text::texts(others));
            assert(text::texts(first) =~= seq!["(Import all interfaces)"@]);
            options
        } else {
            text::copy_texts(&self.interfaces)
        }
    }

    /// The question about this package.
    pub fn prompt(&self) -> (r: Prompt)
        ensures
            r@ == self@.prompt(),
    {
        let mut message = "Select one or all interfaces to import from package '".to_owned();
        message.append(self.package.display().as_str());
        message.append("'");
        Prompt { message, options: self.options(), default: Some(0) }
    }

    /// What is imported if the user chooses the option at that index.
    pub fn import(&self, option: usize) -> (r: String)
        requires
            option < self@.options().len(),
        ensures
            r@ == self@.import(option as int),
    {
        if self.interfaces.len() > 1 && option == 0 {
            self.package.display()
        } else {
            let options = self.options();
            assert(text::texts(options@)[option as int] == options@[option as int]@);
            self.package.interface(options[option].as_str())
        }
    }
}

proof fn lemma_groups_push(
    exports: Seq<(PackageNameView, Seq<char>)>,
    export: (PackageNameView, Seq<char>),
)
    ensures
        packages_of(exports.push(export)) == if packages_of(exports).contains(export.0) {
            packages_of(exports)
        } else {
            packages_of(exports).push(export.0)
        },
        forall|p: PackageNameView| #[trigger]
            interfaces_of(exports.push(export), p) == if export.0 == p {
                interfaces_of(exports, p).push(export.1)
            } else {
                interfaces_of(exports, p)
            },
{
    assert(exports.push(export).drop_last() =~= exports);
}

/// A package without an export has no interface.
proof fn lemma_no_interfaces(exports: Seq<(PackageNameView, Seq<char>)>, package: PackageNameView)
    requires
        !packages_of(exports).contains(package),
    ensures
        interfaces_of(exports, package) == Seq::<Seq<char>>::empty(),
    decreases exports.len(),
{
    if exports.len() > 0 {
        let fewer = exports.drop_last();
        let packages = packages_of(fewer);
        if packages.contains(package) {
            let i = choose|i: int| 0 <= i < packages.len() && packages[i] == package;
            assert(packages_of(exports)[i] == package);
        }
        lemma_no_interfaces(fewer, package);
        if exports.last().0 == package {
            assert(packages_of(exports)[packages.len() as int] == package);
        }
    }
}

/// No package occurs twice among [`packages_of`].
proof fn lemma_packages_distinct(exports: Seq<(PackageNameView, Seq<char>)>)
    ensures
        packages_of(exports).no_duplicates(),
    decreases exports.len(),
{
    if exports.len() > 0 {
        lemma_packages_distinct(exports.drop_last());
        let packages = packages_of(exports.drop_last());
        if !packages.contains(exports.last().0) {
            let more = packages.push(exports.last().0);
            assert forall|i: int, j: int|
                0 <= i < more.len() && 0 <= j < more.len() && i != j implies more[i] != more[j] by {
                if i < packages.len() {
                    assert(packages.contains(packages[i]));
                }
                if j < packages.len() {
                    assert(packages.contains(packages[j]));
                }
            }
        }
    }
}

/// Groups the exported interfaces by package.
pub fn group_by_package(exports: Vec<ExportedInterface>) -> (r: Vec<PackageInterfaces>)
    ensures
        groups_view(r@) == grouped(exports_view(exports@)),
{
    let ghost all = exports_view(exports@);
    let mut groups: Vec<PackageInterfaces> = Vec::new();
    let mut i: usize = 0;
    assert(groups_view(groups@) =~= grouped(all.take(0)));
    while i < exports.len()
        invariant
            all == exports_view(exports@),
            i <= exports@.len(),
            groups_view(groups@) == grouped(all.take(i as int)),
        decreases exports@.len() - i,
    {
        let ghost seen = all.take(i as int);
        let ghost export = all[i as int];
        let ghost packages = packages_of(seen);
        let ghost before = groups@;
        let mut k: usize = 0;
        while k < groups.len() && !groups[k].package.same(&exports[i].package)
            invariant
                i < exports@.len(),
                all == exports_view(exports@),
                export == all[i as int],
                groups@ == before,
                groups_view(groups@) == grouped(seen),
                packages == packages_of(seen),
                k <= groups@.len(),
                forall|j: int| 0 <= j < k ==> packages[j] != export.0,
            decreases groups@.len() - k,
        {
            assert(groups_view(groups@)[k as int] == groups@[k as int]@);
            assert(groups_view(groups@).len() == packages.len());
            assert(grouped(seen)[k as int].package == packages[k as int]);
            assert(export.0 == exports@[i as int].package@);
            k = k + 1;
        }
        proof {
            assert(all.take(i + 1) =~= seen.push(export));
            lemma_groups_push(seen, export);
            lemma_packages_distinct(seen);
            assert(groups@.len() == groups_view(groups@).len() == packages.len());
        }
        let interface = exports[i].interface.clone();
        if k < groups.len() {
            proof {
                assert(groups_view(groups@)[k as int] == groups@[k as int]@);
                assert(packages[k as int] == export.0);
            }
            groups[k].interfaces.push(interface);
            proof {
                assert(text::texts(groups@[k as int].interfaces@) =~= text::texts(
                    before[k as int].interfaces@,
                ).push(interface@));
                assert forall|j: int| 0 <= j < groups@.len() implies #[trigger] groups_view(
                    groups@,
                )[j] == grouped(all.take(i + 1))[j] by {
                    assert(groups_view(before)[j] == before[j]@);
                    assert(packages[j] == export.0 ==> j == k);
                }
                assert(groups_view(groups@) =~= grouped(all.take(i + 1)));
            }
        } else {
            proof {
                if packages.contains(export.0) {
                    let j = choose|j: int| 0 <= j < packages.len() && packages[j] == export.0;
                    assert(packages[j] != export.0);
                }
                lemma_no_interfaces(seen, export.0);
            }
            let mut interfaces: Vec<String> = Vec::new();
            interfaces.push(interface);
            let group = PackageInterfaces { package: exports[i].package.copy(), interfaces };
            groups.push(group);
            proof {
                assert(text::texts(interfaces@) =~= seq![interface@]);
                let after = grouped(all.take(i + 1));
                assert forall|j: int| 0 <= j < groups@.len() implies #[trigger] groups_view(
                    groups@,
                )[j] == after[j] by {
                    if j < before.len() {
                        assert(groups_view(before)[j] == before[j]@);
                        assert(packages[j] != export.0);
                    } else {
                        assert(after[j].interfaces =~= seq![interface@]);
                    }
                }
                assert(groups_view(groups@) =~= after);
            }
        }
        i = i + 1;
    }
    assert(all.take(i as int) =~= all);
    groups
}

/// A selection of interfaces under way: the packages picked, and what has been chosen of those
/// asked about so far.
#[derive(Debug)]
pub struct InterfaceSelection {
    pub groups: Vec<PackageInterfaces>,
    /// The indices of the groups picked.
    pub picks: Vec<usize>,
    /// What is imported of the first groups picked.
    pub selected: Vec<String>,
}

/// What an [`InterfaceSelection`] holds.
pub struct SelectionView {
    pub groups: Seq<GroupView>,
    pub picks: Seq<usize>,
    pub selected: Seq<Seq<char>>,
}

impl View for InterfaceSelection {
    type V = SelectionView;

    open spec fn view(&self) -> SelectionView {
        SelectionView {
            groups: groups_view(self.groups@),
            picks: self.picks@,
            selected: text::texts(self.selected@),
        }
    }
}

impl SelectionView {
    /// Every pick is the index of a group, and no more was chosen than picked.
    pub open spec fn wf(self) -> bool {
        &&& forall|i: int| 0 <= i < self.picks.len() ==> #[trigger] self.picks[i] < self.groups.len()
        &&& self.selected.len() <= self.picks.len()
    }

    /// Whether every group picked has been asked about.
    pub open spec fn is_done(self) -> bool {
        self.selected.len() == self.picks.len()
    }

    /// The group to ask about.
    pub open spec fn current(self) -> GroupView {
        self.groups[self.picks[self.selected.len() as int] as int]
    }

    /// The selection after the user has chosen the option at that index.
    pub open spec fn answer(self, option: int) -> SelectionView {
        SelectionView { selected: self.selected.push(self.current().import(option)), ..self }
    }

    /// The selection after the user has chosen these options, one after the other.
    pub open spec fn answer_all(self, options: Seq<int>) -> SelectionView
        decreases options.len(),
    {
        if options.len() == 0 {
            self
        } else {
            self.answer_all(options.drop_last()).answer(options.last())
        }
    }
}

/// The groups of the exported interfaces, from which the user picks. There have to be exported
/// interfaces.
pub fn select_interfaces(exports: Vec<ExportedInterface>) -> (r: Result<
    Vec<PackageInterfaces>,
    AddError,
>)
    ensures
        match r {
            Ok(groups) => exports@.len() > 0 && groups_view(groups@) == grouped(
                exports_view(exports@),
            ),
            Err(e) => exports@.len() == 0 && e == AddError::NoExportedInterfaces,
        },
{
    if exports.is_empty() {
        return Err(AddError::NoExportedInterfaces);
    }
    Ok(group_by_package(exports))
}

/// What is asked for the packages to import from.
pub fn packages_message() -> (r: String)
    ensures
        r@ == "Select packages to import (use space to select, enter to confirm)"@,
{
    "Select packages to import (use space to select, enter to confirm)".to_owned()
}

/// The packages of the groups, as the user is shown them.
pub fn package_options(groups: &Vec<PackageInterfaces>) -> (r: Vec<String>)
    ensures
        text::texts(r@) == groups_view(groups@).map_values(|g: GroupView| g.package.display()),
{
    let ghost shown = groups_view(groups@).map_values(|g: GroupView| g.package.display());
    let mut out: Vec<String> = Vec::new();
    let mut i: usize = 0;
    while i < groups.len()
        invariant
            i <= groups@.len(),
            shown == groups_view(groups@).map_values(|g: GroupView| g.package.display()),
            text::texts(out@) == shown.take(i as int),
        decreases groups@.len() - i,
    {
        let ghost before = out@;
        out.push(groups[i].package.display());
        i = i + 1;
        assert(text::texts(out@) =~= text::texts(before).push(groups@[i - 1]@.package.display()));
        assert(text::texts(out@) =~= shown.take(i as int));
    }
    assert(shown.take(i as int) =~= shown);
    out
}

impl InterfaceSelection {
    /// A selection from the groups at those indices, with nothing chosen yet.
    pub fn begin(groups: Vec<PackageInterfaces>, picks: Vec<usize>) -> (r: InterfaceSelection)
        requires
            forall|i: int| 0 <= i < picks@.len() ==> #[trigger] picks@[i] < groups@.len(),
        ensures
            r@.wf(),
            r@ == (SelectionView {
                groups: groups_view(groups@),
                picks: picks@,
                selected: Seq::empty(),
            }),
    {
        let r = InterfaceSelection { groups, picks, selected: Vec::new() };
        assert(r@.selected =~= Seq::<Seq<char>>::empty());
        r
    }

    /// The next question, or nothing if every group picked has been asked about.
    pub fn prompt(&self) -> (r: Option<Prompt>)
        requires
            self@.wf(),
        ensures
            match r {
                Some(p) => !self@.is_done() && p@ == self@.current().prompt(),
                None => self@.is_done(),
            },
    {
        let n: usize = self.selected.len();
        if n == self.picks.len() {
            return None;
        }
        assert(self@.picks[n as int] < self@.groups.len());
        Some(self.groups[self.picks[n]].prompt())
    }

    /// Takes the index of the option that the user has chosen.
    pub fn answer(&mut self, option: usize)
        requires
            old(self)@.wf(),
            !old(self)@.is_done(),
            option < old(self)@.current().options().len(),
        ensures
            final(self)@.wf(),
            final(self)@ == old(self)@.answer(option as int),
    {
        let n: usize = self.selected.len();
        assert(self@.picks[n as int] < self@.groups.len());
        let import = self.groups[self.picks[n]].import(option);
        self.selected.push(import);
        assert(self@.selected =~= old(self)@.selected.push(import@));
    }

    /// What is imported, once every group picked has been asked about.
    pub fn finish(self) -> (r: Vec<String>)
        requires
            self@.is_done(),
        ensures
            text::texts(r@) == self@.selected,
    {
        self.selected
    }
}

/// Grouping keeps each exported interface, once and under its package: no package has two
/// groups, none is without an interface, and the interfaces of all groups are as many as were
/// exported.
pub proof fn grouping_keeps_interfaces(exports: Seq<(PackageNameView, Seq<char>)>)
    ensures
        forall|i: int, j: int|
            0 <= i < j < grouped(exports).len() ==> (#[trigger] grouped(exports)[i]).package != (
            #[trigger] grouped(exports)[j]).package,
        forall|g: int|
            0 <= g < grouped(exports).len() ==> (#[trigger] grouped(exports)[g]).interfaces.len()
                > 0,
        forall|e: int|
            0 <= e < exports.len() ==> exists|g: int|
                0 <= g < grouped(exports).len() && (#[trigger] grouped(exports)[g]).package == (
                #[trigger] exports[e]).0 && grouped(exports)[g].interfaces.contains(exports[e].1),
        count_interfaces(grouped(exports)) == exports.len(),
    decreases exports.len(),
{
    lemma_packages_distinct(exports);
    if exports.len() > 0 {
        let fewer = exports.drop_last();
        let last = exports.last();
        grouping_keeps_interfaces(fewer);
        assert(exports =~= fewer.push(last));
        lemma_groups_push(fewer, last);
        let before = grouped(fewer);
        let after = grouped(exports);
        let packages = packages_of(fewer);
        lemma_packages_distinct(fewer);
        let at = if packages.contains(last.0) {
            choose|i: int| 0 <= i < packages.len() && packages[i] == last.0
        } else {
            lemma_no_interfaces(fewer, last.0);
            packages.len() as int
        };
        assert forall|g: int| 0 <= g < before.len() && g != at implies #[trigger] after[g]
            == before[g] by {
            assert(packages[g] != last.0);
        }
        assert(after[at].package == last.0);
        assert(after[at].interfaces == interfaces_of(fewer, last.0).push(last.1));
        assert(after[at].interfaces[interfaces_of(fewer, last.0).len() as int] == last.1);
        assert forall|e: int| 0 <= e < exports.len() implies exists|g: int|
            0 <= g < after.len() && (#[trigger] after[g]).package == (#[trigger] exports[e]).0
                && after[g].interfaces.contains(exports[e].1) by {
            if e < fewer.len() {
                assert(fewer[e] == exports[e]);
                let g = choose|g: int|
                    0 <= g < before.len() && (#[trigger] before[g]).package == fewer[e].0
                        && before[g].interfaces.contains(fewer[e].1);
                if g == at {
                    let k = choose|k: int|
                        0 <= k < before[g].interfaces.len() && before[g].interfaces[k]
                            == fewer[e].1;
                    assert(after[g].interfaces[k] == exports[e].1);
                }
                assert(after[g].package == exports[e].0);
                assert(after[g].interfaces.contains(exports[e].1));
            } else {
                assert(after[at].package == exports[e].0);
                assert(after[at].interfaces.contains(exports[e].1));
            }
        }
        if at < before.len() {
            lemma_count_update(before, at, after[at]);
            assert(after =~= before.update(at, after[at]));
        } else {
            assert(after =~= before.push(after[at]));
            assert(after.drop_last() =~= before);
        }
    }
}

/// The number of interfaces of all groups.
pub open spec fn count_interfaces(groups: Seq<GroupView>) -> nat
    decreases groups.len(),
{
    if groups.len() == 0 {
        0
    } else {
        count_interfaces(groups.drop_last()) + groups.last().interfaces.len()
    }
}

proof fn lemma_count_update(groups: Seq<GroupView>, at: int, group: GroupView)
    requires
        0 <= at < groups.len(),
    ensures
        count_interfaces(groups.update(at, group)) == count_interfaces(groups)
            - groups[at].interfaces.len() + group.interfaces.len(),
    decreases groups.len(),
{
    let after = groups.update(at, group);
    if at == groups.len() - 1 {
        assert(after.drop_last() =~= groups.drop_last());
    } else {
        assert(after.drop_last() =~= groups.drop_last().update(at, group));
        lemma_count_update(groups.drop_last(), at, group);
    }
}

/// Every interface of a package can be chosen by itself: it has an option, and choosing that
/// option imports it. All of them at once are imported by an option of their own, which a package
/// with a single interface does not have.
pub proof fn every_interface_has_an_option(group: GroupView, interface: int)
    requires
        0 <= interface < group.interfaces.len(),
    ensures
        ({
            let option = if group.interfaces.len() > 1 {
                interface + 1
            } else {
                interface
            };
            &&& option < group.options().len()
            &&& group.options()[option] == group.interfaces[interface]
            &&& group.import(option) == group.package.interface(group.interfaces[interface])
        }),
        group.interfaces.len() > 1 ==> group.import(0) == group.package.display()
            && group.options().len() == group.interfaces.len() + 1,
        group.interfaces.len() == 1 ==> group.options() == group.interfaces,
{
}

/// One import comes of each pick, in the order of the picks, and depends on that pick and on the
/// option chosen for it alone.
pub proof fn each_pick_gives_one_import(
    groups: Seq<GroupView>,
    picks: Seq<usize>,
    options: Seq<int>,
)
    requires
        options.len() <= picks.len(),
    ensures
        ({
            let start = SelectionView { groups, picks, selected: Seq::empty() };
            let end = start.answer_all(options);
            &&& end.groups == groups
            &&& end.picks == picks
            &&& end.selected == Seq::new(
                options.len(),
                |i: int| groups[picks[i] as int].import(options[i]),
            )
        }),
    decreases options.len(),
{
    let start = SelectionView { groups, picks, selected: Seq::empty() };
    if options.len() == 0 {
        assert(start.selected =~= Seq::new(
            options.len(),
            |i: int| groups[picks[i] as int].import(options[i]),
        ));
    } else {
        each_pick_gives_one_import(groups, picks, options.drop_last());
        assert(start.answer_all(options).selected =~= Seq::new(
            options.len(),
            |i: int| groups[picks[i] as int].import(options[i]),
        ));
    }
}

/// A package is printed with its namespace, a colon, its name and, if it has a version, an `@` and
/// the version, each in full.
pub proof fn packages_are_printed_in_full(package: PackageNameView)
    ensures
        ({
            let shown = package.display();
            let colon = package.namespace.len() as int;
            let end = colon + 1 + package.name.len();
            &&& shown.take(colon) == package.namespace
            &&& shown[colon] == ':'
            &&& shown.subrange(colon + 1, end) == package.name
            &&& package.version is None ==> shown.len() == end
            &&& package.version is Some ==> shown.len() == end + 1 + package.version->0.len()
                && shown[end] == '@' && shown.skip(end + 1) == package.version->0
        }),
{
    reveal_strlit(":");
    reveal_strlit("@");
    let shown = package.display();
    let colon = package.namespace.len() as int;
    let end = colon + 1 + package.name.len();
    assert(shown.take(colon) =~= package.namespace);
    assert(shown.subrange(colon + 1, end) =~= package.name);
    if package.version is Some {
        assert(shown.skip(end + 1) =~= package.version->0);
    }
}

/// An interface is imported by its full name: a slash and the interface stand behind the name of
/// the package, and without them it is the package as it is printed.
pub proof fn interfaces_are_imported_by_full_name(package: PackageNameView, interface: Seq<char>)
    ensures
        ({
            let full = package.interface(interface);
            let slash = package.namespace.len() as int + 1 + package.name.len();
            &&& full.len() == package.display().len() + 1 + interface.len()
            &&& full[slash] == '/'
            &&& full.subrange(slash + 1, slash + 1 + interface.len()) == interface
            &&& full.take(slash) + full.skip(slash + 1 + interface.len()) == package.display()
        }),
{
    reveal_strlit(":");
    reveal_strlit("/");
    reveal_strlit("@");
    let full = package.interface(interface);
    let slash = package.namespace.len() as int + 1 + package.name.len();
    assert(full.subrange(slash + 1, slash + 1 + interface.len()) =~= interface);
    assert(full.take(slash) + full.skip(slash + 1 + interface.len()) =~= package.display());
}

/// Two different interfaces of a package are not imported by the same name.
pub proof fn different_interfaces_have_different_names(
    package: PackageNameView,
    a: Seq<char>,
    b: Seq<char>,
)
    requires
        package.interface(a) == package.interface(b),
    ensures
        a == b,
{
    interfaces_are_imported_by_full_name(package, a);
    interfaces_are_imported_by_full_name(package, b);
}

/// What is shown is what is imported: the options of the prompt are those that an answer is taken
/// from, the first is offered, and the option at each index is the interface that is imported
/// there. At the first index of a package with several interfaces it is all of them, and the
/// package is imported. The interfaces come in order, each with an option of its own, and there is
/// no other option. The message names the package.
pub proof fn what_is_shown_is_what_is_imported(group: GroupView)
    ensures
        ({
            let shown = group.prompt().options;
            let several = group.interfaces.len() > 1;
            let before: int = if several {
                1
            } else {
                0
            };
            &&& shown.len() == group.options().len() == group.interfaces.len() + before
            &&& forall|i: int|
                0 <= i < group.interfaces.len() ==> #[trigger] group.interfaces[i] == shown[i
                    + before] && group.import(i + before) == group.package.interface(
                    group.interfaces[i],
                )
            &&& forall|i: int|
                before <= i < shown.len() ==> group.import(i) == group.package.interface(
                    #[trigger] shown[i],
                ) && group.interfaces.contains(shown[i])
            &&& several ==> shown[0] == "(Import all interfaces)"@ && group.import(0)
                == group.package.display()
            &&& group.prompt().default == Some(0usize)
        }),
        ({
            let message = group.prompt().message;
            let start = "Select one or all interfaces to import from package '"@;
            let name = group.package.display();
            &&& message.len() == start.len() + name.len() + 1
            &&& message.take(start.len() as int) == start
            &&& message.subrange(start.len() as int, (start.len() + name.len()) as int) == name
            &&& message.last() == '\''
        }),
{
    reveal_strlit("'");
    let shown = group.prompt().options;
    assert forall|i: int|
        (if group.interfaces.len() > 1 {
            1int
        } else {
            0int
        }) <= i < shown.len() implies group.import(i) == group.package.interface(
        #[trigger] shown[i],
    ) && group.interfaces.contains(shown[i]) by {
        if group.interfaces.len() > 1 {
            assert(shown[i] == group.interfaces[i - 1]);
        } else {
            assert(shown[i] == group.interfaces[i]);
        }
    }
    let message = group.prompt().message;
    let start = "Select one or all interfaces to import from package '"@;
    let name = group.package.display();
    assert(message.take(start.len() as int) =~= start);
    assert(message.subrange(start.len() as int, (start.len() + name.len()) as int) =~= name);
}

/// The interfaces of a group are those exported of its package, in the order in which they are
/// exported, and the packages come in the order in which they first occur.
pub proof fn groups_keep_the_order_of_exports(exports: Seq<(PackageNameView, Seq<char>)>)
    ensures
        forall|g: int|
            0 <= g < grouped(exports).len() ==> (#[trigger] grouped(exports)[g]).interfaces
                == exports.filter(
                |e: (PackageNameView, Seq<char>)| e.0 == grouped(exports)[g].package,
            ).map_values(|e: (PackageNameView, Seq<char>)| e.1),
        forall|g: int, e: int|
            0 <= g < grouped(exports).len() && 0 <= e < exports.len() && (
            #[trigger] exports[e]).0 == (#[trigger] grouped(exports)[g]).package
                ==> packages_before(exports, g, e),
{
    assert forall|g: int| 0 <= g < grouped(exports).len() implies (
    #[trigger] grouped(exports)[g]).interfaces == exports.filter(
        |e: (PackageNameView, Seq<char>)| e.0 == grouped(exports)[g].package,
    ).map_values(|e: (PackageNameView, Seq<char>)| e.1) by {
        lemma_interfaces_of_is_filter(exports, grouped(exports)[g].package);
    }
    assert forall|g: int, e: int|
        0 <= g < grouped(exports).len() && 0 <= e < exports.len() && (#[trigger] exports[e]).0 == (
        #[trigger] grouped(exports)[g]).package implies packages_before(exports, g, e) by {
        lemma_packages_in_order(exports, g, e);
    }
}

/// Whether each package before the one at index `g` occurs in an export before that at index `e`.
pub open spec fn packages_before(
    exports: Seq<(PackageNameView, Seq<char>)>,
    g: int,
    e: int,
) -> bool {
    forall|h: int|
        0 <= h < g ==> exists|d: int|
            0 <= d < e && (#[trigger] exports[d]).0 == (#[trigger] grouped(exports)[h]).package
}

proof fn lemma_interfaces_of_is_filter(
    exports: Seq<(PackageNameView, Seq<char>)>,
    package: PackageNameView,
)
    ensures
        interfaces_of(exports, package) == exports.filter(
            |e: (PackageNameView, Seq<char>)| e.0 == package,
        ).map_values(|e: (PackageNameView, Seq<char>)| e.1),
    decreases exports.len(),
{
    reveal(Seq::filter);
    let of = |e: (PackageNameView, Seq<char>)| e.0 == package;
    let name = |e: (PackageNameView, Seq<char>)| e.1;
    if exports.len() == 0 {
        assert(interfaces_of(exports, package) =~= exports.filter(of).map_values(name));
    } else {
        let fewer = exports.drop_last();
        lemma_interfaces_of_is_filter(fewer, package);
        if exports.last().0 == package {
            assert(exports.filter(of) == fewer.filter(of).push(exports.last()));
            assert(exports.filter(of).map_values(name) =~= fewer.filter(of).map_values(name).push(
                exports.last().1,
            ));
        } else {
            assert(exports.filter(of) == fewer.filter(of));
        }
    }
}

proof fn lemma_packages_in_order(exports: Seq<(PackageNameView, Seq<char>)>, g: int, e: int)
    requires
        0 <= g < grouped(exports).len(),
        0 <= e < exports.len(),
        exports[e].0 == grouped(exports)[g].package,
    ensures
        packages_before(exports, g, e),
    decreases exports.len(),
{
    let fewer = exports.drop_last();
    let packages = packages_of(fewer);
    assert(packages_of(exports)[g] == exports[e].0);
    assert forall|h: int| 0 <= h < g implies exists|d: int|
        0 <= d < e && (#[trigger] exports[d]).0 == (#[trigger] grouped(exports)[h]).package by {
        assert(packages_of(exports)[h] == packages[h]);
        if e == exports.len() - 1 {
            let d = lemma_package_is_exported(fewer, h);
            assert(exports[d].0 == grouped(exports)[h].package);
        } else {
            assert(fewer[e] == exports[e]);
            if g < packages.len() {
                assert(grouped(fewer)[g].package == fewer[e].0);
                lemma_packages_in_order(fewer, g, e);
                assert(grouped(fewer)[h].package == packages[h]);
                let d = choose|d: int|
                    0 <= d < e && (#[trigger] fewer[d]).0 == grouped(fewer)[h].package;
                assert(exports[d] == fewer[d]);
            } else {
                lemma_exported_package_is_listed(fewer, e);
                assert(false);
            }
        }
    }
}

proof fn lemma_package_is_exported(exports: Seq<(PackageNameView, Seq<char>)>, h: int) -> (d: int)
    requires
        0 <= h < packages_of(exports).len(),
    ensures
        0 <= d < exports.len(),
        exports[d].0 == packages_of(exports)[h],
    decreases exports.len(),
{
    let fewer = exports.drop_last();
    if h < packages_of(fewer).len() {
        let d = lemma_package_is_exported(fewer, h);
        assert(exports[d] == fewer[d]);
        d
    } else {
        exports.len() - 1
    }
}

proof fn lemma_exported_package_is_listed(exports: Seq<(PackageNameView, Seq<char>)>, e: int)
    requires
        0 <= e < exports.len(),
    ensures
        packages_of(exports).contains(exports[e].0),
    decreases exports.len(),
{
    let fewer = exports.drop_last();
    let packages = packages_of(fewer);
    if e < fewer.len() {
        lemma_exported_package_is_listed(fewer, e);
        assert(fewer[e] == exports[e]);
        let i = choose|i: int| 0 <= i < packages.len() && packages[i] == exports[e].0;
        assert(packages_of(exports)[i] == exports[e].0);
    } else if packages.contains(exports[e].0) {
        let i = choose|i: int| 0 <= i < packages.len() && packages[i] == exports[e].0;
        assert(packages_of(exports)[i] == exports[e].0);
    } else {
        assert(packages_of(exports)[packages.len() as int] == exports[e].0);
    }
}

/// The user is asked once for each pick, in the order of the picks: after some answers the next
/// question is about the package picked next, and a selection is done once as many answers were
/// given as packages were picked.
pub proof fn each_pick_is_asked_about_in_turn(
    groups: Seq<GroupView>,
    picks: Seq<usize>,
    options: Seq<int>,
)
    requires
        options.len() <= picks.len(),
    ensures
        ({
            let start = SelectionView { groups, picks, selected: Seq::empty() };
            let now = start.answer_all(options);
            &&& now.is_done() <==> options.len() == picks.len()
            &&& options.len() < picks.len() ==> now.current() == groups[picks[
                options.len() as int] as int]
        }),
{
    each_pick_gives_one_import(groups, picks, options);
}

/// What prompts, packages and groups hold is what their fields hold.
pub proof fn selection_views_hold_every_field(
    prompt: Prompt,
    package: PackageName,
    group: PackageInterfaces,
    selection: InterfaceSelection,
)
    ensures
        prompt@.message == prompt.message@,
        prompt@.options == text::texts(prompt.options@),
        prompt@.default == prompt.default,
        package@.namespace == package.namespace@,
        package@.name == package.name@,
        package@.version == text::opt_text(package.version),
        group@.package == group.package@,
        group@.interfaces == text::texts(group.interfaces@),
        selection@.groups == groups_view(selection.groups@),
        selection@.picks == selection.picks@,
        selection@.selected == text::texts(selection.selected@),
{
}

/// What lists of exports and of groups hold is what each of them holds, in order.
pub proof fn list_views_hold_every_element(
    exports: Seq<ExportedInterface>,
    groups: Seq<PackageInterfaces>,
)
    ensures
        exports_view(exports).len() == exports.len(),
        forall|i: int|
            0 <= i < exports.len() ==> (#[trigger] exports_view(exports)[i]).0
                == exports[i].package@ && exports_view(exports)[i].1 == exports[i].interface@,
        groups_view(groups).len() == groups.len(),
        forall|i: int| 0 <= i < groups.len() ==> #[trigger] groups_view(groups)[i] == groups[i]@,
{
}

} // verus!
