//! The dependencies of a component, as its manifest lists them.

use crate::source;
use crate::source::{ComponentSource, SourceView};
use crate::text;
use vstd::prelude::*;
use vstd::string::*;

verus! {

/// A dependency of a component.
#[derive(Debug)]
pub enum ComponentDependency {
    /// A version of the package that the dependency is named after.
    Version(String),
    /// A package of a registry.
    Package {
        version: String,
        registry: Option<String>,
        package: Option<String>,
        export: Option<String>,
    },
    /// A local file.
    Local { path: String, export: Option<String> },
    /// A download.
    HTTP { url: String, digest: String, export: Option<String> },
}

/// What a [`ComponentDependency`] holds.
pub enum DependencyView {
    Version(Seq<char>),
    Package {
        version: Seq<char>,
        registry: Option<Seq<char>>,
        package: Option<Seq<char>>,
        export: Option<Seq<char>>,
    },
    Local { path: Seq<char>, export: Option<Seq<char>> },
    HTTP { url: Seq<char>, digest: Seq<char>, export: Option<Seq<char>> },
}

impl View for ComponentDependency {
    type V = DependencyView;

    open spec fn view(&self) -> DependencyView {
        match self {
            ComponentDependency::Version(v) => DependencyView::Version(v@),
            ComponentDependency::Package { version, registry, package, export } =>
                DependencyView::Package {
                version: version@,
                registry: text::opt_text(*registry),
                package: text::opt_text(*package),
                export: text::opt_text(*export),
            },
            ComponentDependency::Local { path, export } => DependencyView::Local {
                path: path@,
                export: text::opt_text(*export),
            },
            ComponentDependency::HTTP { url, digest, export } => DependencyView::HTTP {
                url: url@,
                digest: digest@,
                export: text::opt_text(*export),
            },
        }
    }
}

impl ComponentDependency {
    /// Another dependency of the same content.
    pub fn copy(&self) -> (r: ComponentDependency)
        ensures
            r@ == self@,
    {
        match self {
            ComponentDependency::Version(v) => ComponentDependency::Version(v.clone()),
            ComponentDependency::Package { version, registry, package, export } =>
                ComponentDependency::Package {
                version: version.clone(),
                registry: text::copy_option(registry),
                package: text::copy_option(package),
                export: text::copy_option(export),
            },
            ComponentDependency::Local { path, export } => ComponentDependency::Local {
                path: path.clone(),
                export: text::copy_option(export),
            },
            ComponentDependency::HTTP { url, digest, export } => ComponentDependency::HTTP {
                url: url.clone(),
                digest: digest.clone(),
                export: text::copy_option(export),
            },
        }
    }
}

/// How a manifest lists a dependency that comes from `source`.
pub open spec fn dependency_on(source: SourceView) -> DependencyView {
    match source {
        SourceView::Local { path } => DependencyView::Local { path, export: None },
        SourceView::Http { url, digest } => DependencyView::HTTP {
            url,
            digest: "sha256:"@ + digest,
            export: None,
        },
        SourceView::Registry { package, version, registry } => DependencyView::Package {
            version,
            registry,
            package: Some(package),
            export: None,
        },
    }
}

impl ComponentSource {
    /// How a manifest lists a dependency that comes from here.
    pub fn dependency(&self) -> (r: ComponentDependency)
        ensures
            r@ == dependency_on(self@),
    {
        match self {
            ComponentSource::Local(src) => ComponentDependency::Local {
                path: src.path.clone(),
                export: None,
            },
            ComponentSource::Http(src) => {
                let mut digest = "sha256:".to_owned();
                digest.append(src.digest.as_str());
                ComponentDependency::HTTP { url: src.url.clone(), digest, export: None }
            },
            ComponentSource::Registry(src) => ComponentDependency::Package {
                version: src.version.clone(),
                registry: text::copy_option(&src.registry),
                package: Some(src.package.clone()),
                export: None,
            },
        }
    }
}

/// A dependency with the name that it is listed under.
#[derive(Debug)]
pub struct DependencyEntry {
    pub name: String,
    pub dependency: ComponentDependency,
}

/// The dependencies of a component: a map from names to dependencies, in the order in which the
/// names were first listed.
#[derive(Debug)]
pub struct ComponentDependencies {
    pub inner: Vec<DependencyEntry>,
}

/// What the entries hold.
pub open spec fn entries_view(entries: Seq<DependencyEntry>) -> Seq<(Seq<char>, DependencyView)> {
    entries.map_values(|e: DependencyEntry| (e.name@, e.dependency@))
}

/// Whether no two entries have the same name.
pub open spec fn names_are_distinct(entries: Seq<(Seq<char>, DependencyView)>) -> bool {
    forall|i: int, j: int|
        0 <= i < j < entries.len() ==> (#[trigger] entries[i]).0 != (#[trigger] entries[j]).0
}

/// The index of the entry of that name, or the number of entries.
pub open spec fn index_of_name(
    entries: Seq<(Seq<char>, DependencyView)>,
    name: Seq<char>,
) -> nat
    decreases entries.len(),
{
    if entries.len() == 0 || entries.first().0 == name {
        0
    } else {
        1 + index_of_name(entries.drop_first(), name)
    }
}

/// The entries with the dependency listed under that name: in place of the one that has the name,
/// or at the end.
pub open spec fn entries_with(
    entries: Seq<(Seq<char>, DependencyView)>,
    name: Seq<char>,
    dependency: DependencyView,
) -> Seq<(Seq<char>, DependencyView)> {
    let i = index_of_name(entries, name) as int;
    if i < entries.len() {
        entries.update(i, (name, dependency))
    } else {
        entries.push((name, dependency))
    }
}

/// The entries with the dependency listed under each of the names.
pub open spec fn entries_with_all(
    entries: Seq<(Seq<char>, DependencyView)>,
    names: Seq<Seq<char>>,
    dependency: DependencyView,
) -> Seq<(Seq<char>, DependencyView)>
    decreases names.len(),
{
    if names.len() == 0 {
        entries
    } else {
        entries_with(
            entries_with_all(entries, names.drop_last(), dependency),
            names.last(),
            dependency,
        )
    }
}

/// The entries as a map.
pub open spec fn entries_map(entries: Seq<(Seq<char>, DependencyView)>) -> Map<
    Seq<char>,
    DependencyView,
> {
    Map::new(
        |name: Seq<char>| index_of_name(entries, name) < entries.len(),
        |name: Seq<char>| entries[index_of_name(entries, name) as int].1,
    )
}

impl View for ComponentDependencies {
    type V = Seq<(Seq<char>, DependencyView)>;

    open spec fn view(&self) -> Seq<(Seq<char>, DependencyView)> {
        entries_view(self.inner@)
    }
}

/// [`index_of_name`] is the least index of an entry of that name, if any has it.
proof fn lemma_index_of_name(entries: Seq<(Seq<char>, DependencyView)>, name: Seq<char>)
    ensures
        index_of_name(entries, name) <= entries.len(),
        index_of_name(entries, name) < entries.len() ==> entries[index_of_name(
            entries,
            name,
        ) as int].0 == name,
        forall|k: int| 0 <= k < index_of_name(entries, name) ==> (#[trigger] entries[k]).0 != name,
    decreases entries.len(),
{
    if entries.len() > 0 && entries.first().0 != name {
        lemma_index_of_name(entries.drop_first(), name);
        assert forall|k: int| 0 <= k < index_of_name(entries, name) implies (
        #[trigger] entries[k]).0 != name by {
            if k > 0 {
                assert(entries.drop_first()[k - 1] == entries[k]);
            }
        }
    }
}

impl ComponentDependencies {
    /// No name is listed twice.
    pub open spec fn wf(self) -> bool {
        names_are_distinct(self@)
    }

    /// Lists the dependency under that name, in place of what may be listed under it.
    pub fn insert(&mut self, name: String, dependency: ComponentDependency)
        requires
            old(self).wf(),
        ensures
            final(self).wf(),
            final(self)@ == entries_with(old(self)@, name@, dependency@),
    {
        let ghost entries = self@;
        let mut i: usize = 0;
        while i < self.inner.len() && self.inner[i].name != name
            invariant
                self@ == entries,
                i <= self.inner@.len(),
                forall|k: int| 0 <= k < i ==> (#[trigger] entries[k]).0 != name@,
            decreases self.inner@.len() - i,
        {
            assert(entries[i as int].0 == self.inner@[i as int].name@);
            i = i + 1;
        }
        proof {
            lemma_index_of_name(entries, name@);
            assert(i < entries.len() ==> entries[i as int].0 == self.inner@[i as int].name@);
        }
        let entry = DependencyEntry { name, dependency };
        if i < self.inner.len() {
            self.inner.set(i, entry);
            assert(self@ =~= entries.update(i as int, (name@, dependency@)));
        } else {
            self.inner.push(entry);
            assert(self@ =~= entries.push((name@, dependency@)));
        }
    }

    /// Lists the dependency under each of the names.
    pub fn insert_all(&mut self, names: &Vec<String>, dependency: &ComponentDependency)
        requires
            old(self).wf(),
        ensures
            final(self).wf(),
            final(self)@ == entries_with_all(old(self)@, text::texts(names@), dependency@),
    {
        let ghost all = text::texts(names@);
        let mut i: usize = 0;
        while i < names.len()
            invariant
                self.wf(),
                all == text::texts(names@),
                i <= names@.len(),
                self@ == entries_with_all(old(self)@, all.take(i as int), dependency@),
            decreases names@.len() - i,
        {
            self.insert(names[i].clone(), dependency.copy());
            i = i + 1;
            assert(all.take(i as int).drop_last() =~= all.take(i - 1));
            assert(all.take(i as int).last() == names@[i - 1]@);
        }
        assert(all.take(i as int) =~= all);
    }

    /// Lists the dependency under the names before the first that is not valid, and tells whether
    /// all are. `valid` says of each name whether it can name a dependency.
    pub fn insert_valid(
        &mut self,
        names: &Vec<String>,
        valid: &Vec<bool>,
        dependency: &ComponentDependency,
    ) -> (r: bool)
        requires
            old(self).wf(),
            valid@.len() == names@.len(),
        ensures
            final(self).wf(),
            r == (forall|i: int| 0 <= i < valid@.len() ==> valid@[i]),
            exists|n: int|
                #![trigger text::texts(names@).take(n)]
                0 <= n <= names@.len() && (forall|i: int| 0 <= i < n ==> valid@[i]) && (n
                    < names@.len() ==> !valid@[n]) && final(self)@ == entries_with_all(
                    old(self)@,
                    text::texts(names@).take(n),
                    dependency@,
                ),
            r ==> final(self)@ == entries_with_all(old(self)@, text::texts(names@), dependency@),
    {
        let ghost all = text::texts(names@);
        let mut first: Vec<String> = Vec::new();
        let mut n: usize = 0;
        assert(text::texts(first@) =~= all.take(0));
        while n < names.len() && valid[n]
            invariant
                valid@.len() == names@.len(),
                all == text::texts(names@),
                n <= names@.len(),
                forall|i: int| 0 <= i < n ==> valid@[i],
                text::texts(first@) == all.take(n as int),
            decreases names@.len() - n,
        {
            let ghost before = first@;
            first.push(names[n].clone());
            n = n + 1;
            assert(text::texts(first@) =~= text::texts(before).push(names@[n - 1]@));
            assert(text::texts(first@) =~= all.take(n as int));
        }
        self.insert_all(&first, dependency);
        assert(n == names@.len() ==> all.take(n as int) =~= all);
        n == names.len()
    }
}

proof fn lemma_index_after_insert(
    entries: Seq<(Seq<char>, DependencyView)>,
    name: Seq<char>,
    dependency: DependencyView,
    other: Seq<char>,
)
    ensures
        ({
            let after = entries_with(entries, name, dependency);
            let i = index_of_name(after, other);
            if other == name {
                i < after.len() && after[i as int].1 == dependency
            } else {
                (i < after.len() <==> index_of_name(entries, other) < entries.len()) && (i
                    < after.len() ==> after[i as int].1 == entries[index_of_name(
                    entries,
                    other,
                ) as int].1)
            }
        }),
{
    let after = entries_with(entries, name, dependency);
    let at = index_of_name(entries, name) as int;
    let before = index_of_name(entries, other) as int;
    let i = index_of_name(after, other) as int;
    lemma_index_of_name(entries, name);
    lemma_index_of_name(entries, other);
    lemma_index_of_name(after, other);
    if other == name {
        assert(after[at].0 == other);
        if i < at {
            assert(after[i].0 == entries[i].0);
        }
    } else {
        if before < entries.len() {
            assert(after[before].0 == other);
        }
        if i < after.len() && i < before {
            if i < entries.len() && i != at {
                assert(after[i].0 == entries[i].0);
            }
        }
    }
}

/// Listing a dependency under some names maps each of them to it, and leaves what every other
/// name is mapped to.
pub proof fn listed_names_map_to_dependency(
    entries: Seq<(Seq<char>, DependencyView)>,
    names: Seq<Seq<char>>,
    dependency: DependencyView,
)
    ensures
        ({
            let before = entries_map(entries);
            let after = entries_map(entries_with_all(entries, names, dependency));
            &&& forall|i: int|
                0 <= i < names.len() ==> after.contains_key(#[trigger] names[i])
                    && after[names[i]] == dependency
            &&& forall|other: Seq<char>|
                !names.contains(other) ==> (#[trigger] after.contains_key(other)
                    <==> before.contains_key(other)) && (after.contains_key(other) ==> after[other]
                    == before[other])
        }),
    decreases names.len(),
{
    if names.len() > 0 {
        let fewer = names.drop_last();
        let middle = entries_with_all(entries, fewer, dependency);
        let last = names.last();
        listed_names_map_to_dependency(entries, fewer, dependency);
        let before = entries_map(entries);
        let between = entries_map(middle);
        let after = entries_map(entries_with_all(entries, names, dependency));
        assert forall|i: int| 0 <= i < names.len() implies after.contains_key(#[trigger] names[i])
            && after[names[i]] == dependency by {
            lemma_index_after_insert(middle, last, dependency, names[i]);
            if i < fewer.len() {
                assert(fewer[i] == names[i]);
                assert(between.contains_key(fewer[i]));
            }
        }
        assert forall|other: Seq<char>| !names.contains(other) implies (
        #[trigger] after.contains_key(other) <==> before.contains_key(other)) && (
        after.contains_key(other) ==> after[other] == before[other]) by {
            lemma_index_after_insert(middle, last, dependency, other);
            assert(names[names.len() - 1] == last);
            if fewer.contains(other) {
                let j = choose|j: int| 0 <= j < fewer.len() && fewer[j] == other;
                assert(names[j] == other);
            }
            assert(between.contains_key(other) <==> before.contains_key(other));
        }
    }
}

/// What a dependency holds is what its fields hold.
pub proof fn dependency_view_holds_every_field(dependency: ComponentDependency)
    ensures
        match (dependency, dependency@) {
            (ComponentDependency::Version(a), DependencyView::Version(b)) => b == a@,
            (
                ComponentDependency::Package { version, registry, package, export },
                DependencyView::Package {
                    version: version_held,
                    registry: registry_held,
                    package: package_held,
                    export: export_held,
                },
            ) => {
                &&& version_held == version@
                &&& registry_held == text::opt_text(registry)
                &&& package_held == text::opt_text(package)
                &&& export_held == text::opt_text(export)
            },
            (
                ComponentDependency::Local { path, export },
                DependencyView::Local { path: path_held, export: export_held },
            ) => path_held == path@ && export_held == text::opt_text(export),
            (
                ComponentDependency::HTTP { url, digest, export },
                DependencyView::HTTP { url: url_held, digest: digest_held, export: export_held },
            ) => url_held == url@ && digest_held == digest@ && export_held == text::opt_text(
                export,
            ),
            _ => false,
        },
{
}

/// What entries hold is the name and the dependency of each, in order.
pub proof fn entries_view_holds_every_entry(dependencies: ComponentDependencies)
    ensures
        dependencies@.len() == dependencies.inner@.len(),
        forall|i: int|
            0 <= i < dependencies@.len() ==> (#[trigger] dependencies@[i]).0
                == dependencies.inner@[i].name@ && dependencies@[i].1
                == dependencies.inner@[i].dependency@,
{
}

/// The listed dependency leads back to its source: a local one has exactly the path, an HTTP one
/// exactly the URL and a digest that is the digest of the source behind `sha256:`, and a registry
/// one exactly the package, the version and the registry. None names an export.
pub proof fn dependency_leads_back_to_its_source(source: SourceView)
    ensures
        match (source, dependency_on(source)) {
            (
                SourceView::Local { path },
                DependencyView::Local { path: listed, export },
            ) => listed == path && export is None,
            (
                SourceView::Http { url, digest },
                DependencyView::HTTP { url: listed, digest: listed_digest, export },
            ) => {
                &&& listed == url
                &&& listed_digest.len() == digest.len() + 7
                &&& listed_digest.take(7) == "sha256:"@
                &&& listed_digest.skip(7) == digest
                &&& export is None
            },
            (
                SourceView::Registry { package, version, registry },
                DependencyView::Package {
                    version: listed_version,
                    registry: listed_registry,
                    package: listed_package,
                    export,
                },
            ) => {
                &&& listed_version == version
                &&& listed_registry == registry
                &&& listed_package == Some(package)
                &&& export is None
            },
            _ => false,
        },
{
    reveal_strlit("sha256:");
    if let SourceView::Http { url, digest } = source {
        let listed = "sha256:"@ + digest;
        assert(listed.take(7) =~= "sha256:"@);
        assert(listed.skip(7) =~= digest);
    }
}

/// No two sources are listed alike: the source can be recovered from the dependency.
pub proof fn different_sources_are_listed_differently(a: SourceView, b: SourceView)
    ensures
        dependency_on(a) == dependency_on(b) ==> a == b,
{
    dependency_leads_back_to_its_source(a);
    dependency_leads_back_to_its_source(b);
}

/// An existing path that the user gives is the path that the manifest lists.
pub proof fn an_existing_path_is_listed_as_it_is(
    path: Seq<char>,
    digest: Option<Seq<char>>,
    registry: Option<Seq<char>>,
)
    ensures
        ({
            let source = source::inferred_source(path, true, digest, registry);
            &&& source is Ok
            &&& dependency_on(source->Ok_0) == (DependencyView::Local { path, export: None })
        }),
{
}

/// Listing a dependency under a name puts it there and nowhere else: the entry that has the name
/// is changed in its place, or one is put behind all others; every other entry stays, in its
/// place.
pub proof fn listing_changes_one_entry(
    entries: Seq<(Seq<char>, DependencyView)>,
    name: Seq<char>,
    dependency: DependencyView,
)
    requires
        forall|i: int, j: int|
            0 <= i < j < entries.len() ==> (#[trigger] entries[i]).0 != (#[trigger] entries[j]).0,
    ensures
        ({
            let after = entries_with(entries, name, dependency);
            &&& forall|i: int|
                #![trigger after[i]]
                #![trigger entries[i]]
                0 <= i < entries.len() ==> after[i] == if entries[i].0 == name {
                    (name, dependency)
                } else {
                    entries[i]
                }
            &&& (exists|i: int| 0 <= i < entries.len() && (#[trigger] entries[i]).0 == name)
                ==> after.len() == entries.len()
            &&& !(exists|i: int| 0 <= i < entries.len() && (#[trigger] entries[i]).0 == name)
                ==> after.len() == entries.len() + 1 && after[entries.len() as int] == (
                name,
                dependency,
            )
        }),
{
    let at = index_of_name(entries, name) as int;
    lemma_index_of_name(entries, name);
    if at < entries.len() {
        assert(entries[at].0 == name);
        assert forall|i: int| 0 <= i < entries.len() && i != at implies (#[trigger] entries[i]).0
            != name by {
            if i < at {
                assert(entries[i].0 != entries[at].0);
            } else {
                assert(entries[at].0 != entries[i].0);
            }
        }
    }
}

/// A dependency is listed under some names by listing it under one after the other.
pub proof fn names_are_listed_one_by_one(
    entries: Seq<(Seq<char>, DependencyView)>,
    names: Seq<Seq<char>>,
    name: Seq<char>,
    dependency: DependencyView,
)
    ensures
        entries_with_all(entries, Seq::empty(), dependency) == entries,
        entries_with_all(entries, names.push(name), dependency) == entries_with(
            entries_with_all(entries, names, dependency),
            name,
            dependency,
        ),
{
    assert(names.push(name).drop_last() =~= names);
}

/// Dependencies are in order exactly if no name is listed twice.
pub proof fn dependencies_are_in_order_if_no_name_repeats(dependencies: ComponentDependencies)
    ensures
        dependencies.wf() <==> forall|i: int, j: int|
            0 <= i < j < dependencies@.len() ==> (#[trigger] dependencies@[i]).0 != (
            #[trigger] dependencies@[j]).0,
{
}

} // verus!
