//! Where a component comes from: a local path, an HTTP URL or a registry.

use crate::error::AddError;
use crate::text;
use vstd::prelude::*;
use vstd::string::*;

verus! {

/// A component in a local file.
#[derive(Debug)]
pub struct LocalAddCommand {
    /// The path of the file.
    pub path: String,
}

/// A component to download.
#[derive(Debug)]
pub struct HttpAddCommand {
    /// The URL, as serialised after parsing.
    pub url: String,
    /// The SHA-256 digest of the component, in hexadecimal.
    pub digest: String,
}

/// A component in a registry.
#[derive(Debug)]
pub struct RegistryAddCommand {
    /// The package, as `namespace:name`.
    pub package: String,
    /// The version requirement, as printed after parsing.
    pub version: String,
    /// The registry to use in place of the default one.
    pub registry: Option<String>,
}

/// Where a component comes from.
#[derive(Debug)]
pub enum ComponentSource {
    /// A local file.
    Local(LocalAddCommand),
    /// A download.
    Http(HttpAddCommand),
    /// A registry.
    Registry(RegistryAddCommand),
}

/// What a [`ComponentSource`] holds.
pub enum SourceView {
    Local { path: Seq<char> },
    Http { url: Seq<char>, digest: Seq<char> },
    Registry { package: Seq<char>, version: Seq<char>, registry: Option<Seq<char>> },
}

impl View for ComponentSource {
    type V = SourceView;

    open spec fn view(&self) -> SourceView {
        match self {
            ComponentSource::Local(c) => SourceView::Local { path: c.path@ },
            ComponentSource::Http(c) => SourceView::Http { url: c.url@, digest: c.digest@ },
            ComponentSource::Registry(c) => SourceView::Registry {
                package: c.package@,
                version: c.version@,
                registry: text::opt_text(c.registry),
            },
        }
    }
}

/// What the library reads of a parsed URL.
#[derive(Debug)]
pub struct UrlParts {
    /// The scheme, in lower case and without the colon.
    pub scheme: String,
    /// The whole URL, serialised.
    pub text: String,
}

/// What [`UrlParts`] holds.
pub struct UrlView {
    pub scheme: Seq<char>,
    pub text: Seq<char>,
}

impl View for UrlParts {
    type V = UrlView;

    open spec fn view(&self) -> UrlView {
        UrlView { scheme: self.scheme@, text: self.text@ }
    }
}

/// What an optional parsed URL holds.
pub open spec fn opt_url(url: Option<UrlParts>) -> Option<UrlView> {
    match url {
        Some(u) => Some(u@),
        None => None,
    }
}

/// Whether `c` is an ASCII lower-case letter.
pub open spec fn is_lower(c: char) -> bool {
    'a' <= c <= 'z'
}

/// Whether `s` is a kebab-case label: words of lower-case letters and digits, joined by single
/// hyphens, each starting with a letter.
pub open spec fn is_label(s: Seq<char>) -> bool {
    &&& s.len() > 0
    &&& is_lower(s.first())
    &&& s.last() != '-'
    &&& forall|i: int|
        0 <= i < s.len() ==> is_lower(#[trigger] s[i]) || '0' <= s[i] <= '9' || s[i] == '-'
    &&& forall|i: int, j: int|
        0 <= i < s.len() && j == i + 1 && j < s.len() && #[trigger] s[i] == '-' ==> is_lower(
            #[trigger] s[j],
        )
}

/// What precedes the first colon of a text, if it is a label.
pub open spec fn label_before_colon(text: Seq<char>) -> Option<Seq<char>> {
    match text::cut_at_first(text, ':') {
        Some((before, _)) => if is_label(before) {
            Some(before)
        } else {
            None
        },
        None => None,
    }
}

/// What the URL parser makes of a text: the scheme and the serialisation of the URL, or nothing
/// if the text is no absolute URL.
pub uninterp spec fn parsed_url(text: Seq<char>) -> Option<UrlView>;

/// `url::Url::parse`, with the scheme (`Url::scheme`) and the serialisation (`Display`) of the
/// URL that it returns.
///
/// Claimed: the outcome depends on the text alone; a URL's serialisation starts with its scheme
/// and a colon; where a label precedes the first colon of the text, it is the scheme.
#[verifier::external_body]
fn parse_url(source: &str) -> (r: Option<UrlParts>)
    ensures
        opt_url(r) == parsed_url(source@),
        r matches Some(u) ==> u@.scheme.push(':').is_prefix_of(u@.text),
        r is Some && label_before_colon(source@) is Some ==> r->0@.scheme == label_before_colon(
            source@,
        )->0,
{
    match url::Url::parse(source) {
        Ok(u) => Some(UrlParts { scheme: u.scheme().to_owned(), text: u.to_string() }),
        Err(_) => None,
    }
}

/// What the parser of version requirements makes of a text: the requirement as it prints it, or
/// the message of its error.
pub uninterp spec fn parsed_version_req(text: Seq<char>) -> Result<Seq<char>, Seq<char>>;

/// `semver::VersionReq::from_str`, with the requirement or the error that it returns printed
/// (`Display`).
///
/// Claimed: the outcome depends on the text alone; a requirement, printed, is parsed and printed
/// as itself.
#[verifier::external_body]
fn parse_version_req(version: &str) -> (r: Result<String, String>)
    ensures
        text::result_text(r) == parsed_version_req(version@),
        r matches Ok(v) ==> parsed_version_req(v@) is Ok && parsed_version_req(v@)->Ok_0 == v@,
{
    match version.parse::<semver::VersionReq>() {
        Ok(v) => Ok(v.to_string()),
        Err(e) => Err(e.to_string()),
    }
}

/// Whether `s` is a package reference: two labels with a colon between them.
pub open spec fn is_package_ref(s: Seq<char>) -> bool {
    match text::cut_at_first(s, ':') {
        Some((namespace, name)) => is_label(namespace) && is_label(name),
        None => false,
    }
}

/// The message of the error with which a text is refused as a package reference.
pub uninterp spec fn package_ref_error(text: Seq<char>) -> Seq<char>;

/// What the parser of package references makes of a text: the reference as it prints it, or the
/// message of its error.
pub open spec fn parsed_package_ref(text: Seq<char>) -> Result<Seq<char>, Seq<char>> {
    if is_package_ref(text) {
        Ok(text)
    } else {
        Err(package_ref_error(text))
    }
}

/// `wasm_pkg_client::PackageRef::from_str`, with the reference or the error that it returns
/// printed (`Display`).
///
/// Claimed: it accepts exactly the texts of two kebab-case labels with a colon between them, and
/// prints them as they were; the message of the error depends on the text alone.
#[verifier::external_body]
fn parse_package_ref(package: &str) -> (r: Result<String, String>)
    ensures
        r is Ok <==> is_package_ref(package@),
        r matches Ok(p) ==> p@ == package@,
        r matches Err(e) ==> e@ == package_ref_error(package@),
{
    match package.parse::<wasm_pkg_client::PackageRef>() {
        Ok(p) => Ok(p.to_string()),
        Err(e) => Err(e.to_string()),
    }
}

/// Why a text is no package name with an optional version.
#[derive(Debug)]
pub enum PackageNameError {
    /// What follows the `@` is no version requirement, for this reason.
    Version(String),
    /// What precedes the `@` is no package reference, for this reason.
    Package(String),
}

/// What a [`PackageNameError`] holds.
pub enum PackageNameErrorView {
    Version(Seq<char>),
    Package(Seq<char>),
}

impl View for PackageNameError {
    type V = PackageNameErrorView;

    open spec fn view(&self) -> PackageNameErrorView {
        match self {
            PackageNameError::Version(e) => PackageNameErrorView::Version(e@),
            PackageNameError::Package(e) => PackageNameErrorView::Package(e@),
        }
    }
}

/// What the outcome of parsing a package name holds.
pub type ParsedPackageName = Result<(Seq<char>, Option<Seq<char>>), PackageNameErrorView>;

/// What the outcome of parsing a package name holds.
pub open spec fn package_name_view(
    r: Result<(String, Option<String>), PackageNameError>,
) -> ParsedPackageName {
    match r {
        Ok((package, version)) => Ok((package@, text::opt_text(version))),
        Err(e) => Err(e@),
    }
}

/// A package name and its version: the text before the first `@`, and the text behind it if there
/// is one.
pub open spec fn name_and_version(package_name: Seq<char>) -> (Seq<char>, Option<Seq<char>>) {
    match text::cut_at_first(package_name, '@') {
        Some((name, version)) => (name, Some(version)),
        None => (package_name, None),
    }
}

/// The outcome of parsing a package name, from the outcomes for its two parts. A fault in the
/// version comes first.
pub open spec fn package_from_parts(
    package: Result<Seq<char>, Seq<char>>,
    version: Option<Result<Seq<char>, Seq<char>>>,
) -> ParsedPackageName {
    match (package, version) {
        (_, Some(Err(e))) => Err(PackageNameErrorView::Version(e)),
        (Err(e), _) => Err(PackageNameErrorView::Package(e)),
        (Ok(p), Some(Ok(v))) => Ok((p, Some(v))),
        (Ok(p), None) => Ok((p, None)),
    }
}

/// The outcome of parsing a package name.
pub open spec fn parsed_package_name(package_name: Seq<char>) -> ParsedPackageName {
    let (package, version) = name_and_version(package_name);
    package_from_parts(
        parsed_package_ref(package),
        match version {
            Some(v) => Some(parsed_version_req(v)),
            None => None,
        },
    )
}

/// Splits a package name into the text before the first `@` and the text behind it.
pub fn split_package_name(package_name: &str) -> (r: (&str, Option<&str>))
    ensures
        ({
            let (name, version) = name_and_version(package_name@);
            &&& r.0@ == name
            &&& match r.1 {
                Some(v) => version == Some(v@),
                None => version is None,
            }
        }),
{
    match text::split_once(package_name, '@') {
        Some((name, version)) => (name, Some(version)),
        None => (package_name, None),
    }
}

/// Puts the outcomes for the two parts of a package name together.
pub fn combine_package_parts(
    package: Result<String, String>,
    version: Option<Result<String, String>>,
) -> (r: Result<(String, Option<String>), PackageNameError>)
    ensures
        package_name_view(r) == package_from_parts(
            text::result_text(package),
            match version {
                Some(v) => Some(text::result_text(v)),
                None => None,
            },
        ),
{
    let version = match version {
        Some(Err(e)) => return Err(PackageNameError::Version(e)),
        Some(Ok(v)) => Some(v),
        None => None,
    };
    match package {
        Ok(p) => Ok((p, version)),
        Err(e) => Err(PackageNameError::Package(e)),
    }
}

/// Parses a package name with an optional version, as `namespace:name@version`.
pub fn package_name_ver(package_name: &str) -> (r: Result<
    (String, Option<String>),
    PackageNameError,
>)
    ensures
        package_name_view(r) == parsed_package_name(package_name@),
        r matches Ok((_, Some(v))) ==> parsed_version_req(v@) == Ok::<Seq<char>, Seq<char>>(v@),
{
    let (package, version) = split_package_name(package_name);
    let version = match version {
        Some(v) => Some(parse_version_req(v)),
        None => None,
    };
    let package = parse_package_ref(package);
    combine_package_parts(package, version)
}

/// Whether a parsed URL is one to download from: its scheme is `http` or `https`.
pub open spec fn is_http(url: Option<UrlView>) -> bool {
    match url {
        Some(u) => u.scheme == "http"@ || u.scheme == "https"@,
        None => false,
    }
}

/// Whether a text starts like a package reference that cannot be taken for an HTTP URL: with a
/// label other than `http` and `https`, and a colon.
pub open spec fn has_package_namespace(source: Seq<char>) -> bool {
    match label_before_colon(source) {
        Some(namespace) => namespace != "http"@ && namespace != "https"@,
        None => false,
    }
}

/// The source that a text stands for, from what is known of it: whether it is the path of
/// something that exists, what it is as a URL and as a package name.
///
/// A path goes before a URL, and a URL before a package name.
pub open spec fn source_from_parts(
    source: Seq<char>,
    path_exists: bool,
    url: Option<UrlView>,
    package: ParsedPackageName,
    digest: Option<Seq<char>>,
    registry: Option<Seq<char>>,
) -> Result<SourceView, AddError> {
    if path_exists {
        Ok(SourceView::Local { path: source })
    } else if is_http(url) {
        match digest {
            Some(digest) => Ok(SourceView::Http { url: url->0.text, digest }),
            None => Err(AddError::MissingDigest),
        }
    } else {
        match package {
            Ok((package, Some(version))) => Ok(SourceView::Registry { package, version, registry }),
            Ok((_, None)) => Err(AddError::MissingVersion),
            Err(_) => Err(AddError::UnknownSource),
        }
    }
}

/// The source that a text stands for.
pub open spec fn inferred_source(
    source: Seq<char>,
    path_exists: bool,
    digest: Option<Seq<char>>,
    registry: Option<Seq<char>>,
) -> Result<SourceView, AddError> {
    source_from_parts(
        source,
        path_exists,
        parsed_url(source),
        parsed_package_name(source),
        digest,
        registry,
    )
}

/// What an inferred source, or the error in its place, holds.
pub open spec fn source_view(r: Result<ComponentSource, AddError>) -> Result<SourceView, AddError> {
    match r {
        Ok(source) => Ok(source@),
        Err(e) => Err(e),
    }
}

impl ComponentSource {
    /// Decides what `source` is, from what is known of it.
    pub fn from_parts(
        source: &String,
        path_exists: bool,
        url: Option<UrlParts>,
        package: Result<(String, Option<String>), PackageNameError>,
        digest: &Option<String>,
        registry: &Option<String>,
    ) -> (r: Result<ComponentSource, AddError>)
        ensures
            source_view(r) == source_from_parts(
                source@,
                path_exists,
                opt_url(url),
                package_name_view(package),
                text::opt_text(*digest),
                text::opt_text(*registry),
            ),
    {
        if path_exists {
            return Ok(ComponentSource::Local(LocalAddCommand { path: source.clone() }));
        }
        if let Some(url) = url {
            if url.scheme == "http".to_owned() || url.scheme == "https".to_owned() {
                return match digest {
                    Some(digest) => Ok(
                        ComponentSource::Http(
                            HttpAddCommand { url: url.text, digest: digest.clone() },
                        ),
                    ),
                    None => Err(AddError::MissingDigest),
                };
            }
        }
        match package {
            Ok((package, Some(version))) => Ok(
                ComponentSource::Registry(
                    RegistryAddCommand {
                        package,
                        version,
                        registry: text::copy_option(registry),
                    },
                ),
            ),
            Ok((_, None)) => Err(AddError::MissingVersion),
            Err(_) => Err(AddError::UnknownSource),
        }
    }

    /// Finds out what `source` is. `path_exists` tells whether it is the path of something that
    /// exists. A package reference of another namespace than `http` and `https` needs no digest.
    pub fn infer_source(
        source: &String,
        path_exists: bool,
        digest: &Option<String>,
        registry: &Option<String>,
    ) -> (r: Result<ComponentSource, AddError>)
        ensures
            source_view(r) == inferred_source(
                source@,
                path_exists,
                text::opt_text(*digest),
                text::opt_text(*registry),
            ),
            r matches Ok(ComponentSource::Http(c)) ==> "http"@.is_prefix_of(c.url@),
            !path_exists && has_package_namespace(source@) ==> source_view(r) == source_from_parts(
                source@,
                false,
                None,
                parsed_package_name(source@),
                None,
                text::opt_text(*registry),
            ),
    {
        let url = parse_url(source.as_str());
        let package = package_name_ver(source.as_str());
        proof {
            if is_http(opt_url(url)) {
                reveal_strlit("http");
                reveal_strlit("https");
                assert("http"@ =~= url->0@.scheme.subrange(0, 4));
                lemma_prefix_of_prefix("http"@, url->0@.scheme, url->0@.text);
            }
        }
        Self::from_parts(source, path_exists, url, package, digest, registry)
    }
}

proof fn lemma_prefix_of_prefix(a: Seq<char>, b: Seq<char>, c: Seq<char>)
    requires
        a.is_prefix_of(b),
        b.push(':').is_prefix_of(c),
    ensures
        a.is_prefix_of(c),
{
    let n = b.len() as int;
    assert forall|i: int| 0 <= i < a.len() implies a[i] == c.subrange(0, a.len() as int)[i] by {
        assert(b.subrange(0, a.len() as int)[i] == a[i]);
        assert(c.subrange(0, n + 1)[i] == b.push(':')[i]);
    }
    assert(a =~= c.subrange(0, a.len() as int));
}

/// A package reference has no `@`.
proof fn lemma_package_ref_has_no_at(package: Seq<char>)
    requires
        is_package_ref(package),
    ensures
        forall|i: int| 0 <= i < package.len() ==> package[i] != '@',
{
    let colon = text::first_index(package, ':') as int;
    text::lemma_first_index(package, ':');
    assert forall|i: int| 0 <= i < package.len() implies package[i] != '@' by {
        if i < colon {
            assert(package.take(colon)[i] == package[i]);
        } else if i > colon {
            assert(package.skip(colon + 1)[i - colon - 1] == package[i]);
        }
    }
}

/// Printing and parsing a package name give back the same: a package reference and a version
/// requirement with `@` between them are parsed as both, and a package reference alone as itself,
/// without a version. The requirement is one that is printed as it is written; every requirement
/// that [`package_name_ver`] returns is.
pub proof fn printed_package_name_is_parsed_back(package: Seq<char>, version: Seq<char>)
    requires
        is_package_ref(package),
        parsed_version_req(version) == Ok::<Seq<char>, Seq<char>>(version),
    ensures
        parsed_package_name(package + "@"@ + version) == Ok::<_, PackageNameErrorView>(
            (package, Some(version)),
        ),
        parsed_package_name(package) == Ok::<_, PackageNameErrorView>((package, None::<Seq<char>>)),
{
    let n = package.len() as int;
    let whole = package + "@"@ + version;
    lemma_package_ref_has_no_at(package);
    reveal_strlit("@");
    assert forall|j: int| 0 <= j < n implies whole[j] != '@' by {
        assert(whole[j] == package[j]);
    }
    text::lemma_first_index_is(whole, '@', n);
    text::lemma_first_index_is(package, '@', n);
    assert(whole.take(n) =~= package);
    assert(whole.skip(n + 1) =~= version);
}

/// A path that exists is a local source, whatever else it could be and whatever digest or
/// registry is given.
pub proof fn existing_path_is_local(
    source: Seq<char>,
    digest: Option<Seq<char>>,
    registry: Option<Seq<char>>,
)
    ensures
        inferred_source(source, true, digest, registry) == Ok::<SourceView, AddError>(
            SourceView::Local { path: source },
        ),
{
}

/// The digest is required for HTTP sources.
pub proof fn digest_is_required_for_http(source: Seq<char>, registry: Option<Seq<char>>)
    requires
        is_http(parsed_url(source)),
    ensures
        inferred_source(source, false, None, registry) == Err::<SourceView, AddError>(
            AddError::MissingDigest,
        ),
        forall|digest: Seq<char>| #[trigger]
            inferred_source(source, false, Some(digest), registry) == Ok::<SourceView, AddError>(
                SourceView::Http { url: parsed_url(source)->0.text, digest },
            ),
{
}

/// The digest is ignored for every other source.
pub proof fn digest_is_ignored_otherwise(
    source: Seq<char>,
    path_exists: bool,
    digest: Option<Seq<char>>,
    other_digest: Option<Seq<char>>,
    registry: Option<Seq<char>>,
)
    requires
        path_exists || !is_http(parsed_url(source)),
    ensures
        inferred_source(source, path_exists, digest, registry) == inferred_source(
            source,
            path_exists,
            other_digest,
            registry,
        ),
{
}

/// The registry is ignored for local and for HTTP sources.
pub proof fn registry_is_ignored_for_local_and_http(
    source: Seq<char>,
    path_exists: bool,
    digest: Option<Seq<char>>,
    registry: Option<Seq<char>>,
    other_registry: Option<Seq<char>>,
)
    requires
        path_exists || is_http(parsed_url(source)),
    ensures
        inferred_source(source, path_exists, digest, registry) == inferred_source(
            source,
            path_exists,
            digest,
            other_registry,
        ),
{
}

/// A registry source carries the registry that was given, a package that is a package reference,
/// and the version requirement behind the first `@` of the text.
pub proof fn registry_source_has_version(
    source: Seq<char>,
    path_exists: bool,
    digest: Option<Seq<char>>,
    registry: Option<Seq<char>>,
)
    ensures
        inferred_source(source, path_exists, digest, registry) matches Ok(SourceView::Registry {
            package,
            version,
            registry: used,
        }) ==> {
            &&& used == registry
            &&& is_package_ref(package)
            &&& text::cut_at_first(source, '@') matches Some((name, required)) && name == package
                && parsed_version_req(required) == Ok::<Seq<char>, Seq<char>>(version)
        },
{
}

/// What a source holds is what its fields hold.
pub proof fn source_view_holds_every_field(source: ComponentSource)
    ensures
        match (source, source@) {
            (ComponentSource::Local(c), SourceView::Local { path }) => path == c.path@,
            (ComponentSource::Http(c), SourceView::Http { url, digest }) => url == c.url@ && digest
                == c.digest@,
            (
                ComponentSource::Registry(c),
                SourceView::Registry { package, version, registry },
            ) => {
                &&& package == c.package@
                &&& version == c.version@
                &&& registry is Some <==> c.registry is Some
                &&& registry is Some ==> registry->0 == c.registry->0@
            },
            _ => false,
        },
{
}

/// What a parsed URL, a package name and an inferred source hold is what they are made of.
pub proof fn outcome_views_hold_every_part(
    url: Option<UrlParts>,
    package: Result<(String, Option<String>), PackageNameError>,
    source: Result<ComponentSource, AddError>,
)
    ensures
        opt_url(url) is Some <==> url is Some,
        url is Some ==> opt_url(url)->0.scheme == url->0.scheme@ && opt_url(url)->0.text
            == url->0.text@,
        package_name_view(package) is Ok <==> package is Ok,
        package is Ok ==> package_name_view(package)->Ok_0.0 == package->Ok_0.0@,
        package is Ok ==> (package_name_view(package)->Ok_0.1 is Some <==> package->Ok_0.1 is Some),
        package is Ok && package->Ok_0.1 is Some ==> package_name_view(package)->Ok_0.1->0
            == package->Ok_0.1->0@,
        package matches Err(PackageNameError::Version(e)) ==> package_name_view(package) == Err::<
            (Seq<char>, Option<Seq<char>>),
            _,
        >(PackageNameErrorView::Version(e@)),
        package matches Err(PackageNameError::Package(e)) ==> package_name_view(package) == Err::<
            (Seq<char>, Option<Seq<char>>),
            _,
        >(PackageNameErrorView::Package(e@)),
        source is Ok <==> source_view(source) is Ok,
        source is Ok ==> source_view(source)->Ok_0 == source->Ok_0@,
        source is Err ==> source_view(source)->Err_0 == source->Err_0,
{
}

/// A label is made of words joined by single hyphens, each a lower-case letter followed by
/// lower-case letters and digits: one word is a label, and a label with a hyphen and a word behind
/// it is one.
pub proof fn labels_are_hyphenated_words(label: Seq<char>, word: Seq<char>)
    requires
        word.len() > 0,
        'a' <= word[0] <= 'z',
        forall|i: int|
            0 <= i < word.len() ==> 'a' <= #[trigger] word[i] <= 'z' || '0' <= word[i] <= '9',
    ensures
        is_label(word),
        is_label(label) ==> is_label(label + seq!['-'] + word),
{
    if is_label(label) {
        let whole = label + seq!['-'] + word;
        let n = label.len() as int;
        assert(whole.last() == word.last());
        assert(word.last() == word[word.len() - 1]);
        assert forall|i: int| 0 <= i < whole.len() implies is_lower(#[trigger] whole[i]) || '0'
            <= whole[i] <= '9' || whole[i] == '-' by {
            if i < n {
                assert(whole[i] == label[i]);
            } else if i > n {
                assert(whole[i] == word[i - n - 1]);
            }
        }
        assert forall|i: int, j: int|
            0 <= i < whole.len() && j == i + 1 && j < whole.len() && #[trigger] whole[i]
                == '-' implies is_lower(#[trigger] whole[j]) by {
            if i < n {
                assert(whole[i] == label[i]);
                if j < n {
                    assert(whole[j] == label[j]);
                } else {
                    assert(label.last() == label[i]);
                }
            } else if i == n {
                assert(whole[j] == word[0]);
            } else {
                assert(whole[i] == word[i - n - 1]);
            }
        }
    }
}

/// A label starts with a lower-case letter, ends in no hyphen, has no two hyphens in a row, and
/// nothing but lower-case letters, digits and hyphens.
pub proof fn labels_have_no_other_characters(label: Seq<char>)
    requires
        is_label(label),
    ensures
        label.len() > 0,
        'a' <= label[0] <= 'z',
        label[label.len() - 1] != '-',
        forall|i: int|
            0 <= i < label.len() ==> 'a' <= #[trigger] label[i] <= 'z' || '0' <= label[i] <= '9'
                || label[i] == '-',
        forall|i: int, j: int|
            0 <= i < label.len() && j == i + 1 && j < label.len() && #[trigger] label[i] == '-'
                ==> 'a' <= #[trigger] label[j] <= 'z',
{
}

/// Two labels with a colon between them, and nothing else, are a package reference.
pub proof fn package_refs_are_two_labels(namespace: Seq<char>, name: Seq<char>)
    requires
        !namespace.contains(':'),
    ensures
        is_package_ref(namespace + seq![':'] + name) <==> is_label(namespace) && is_label(name),
        !is_package_ref(namespace),
{
    let whole = namespace + seq![':'] + name;
    let n = namespace.len() as int;
    assert forall|j: int| 0 <= j < n implies whole[j] != ':' && namespace[j] != ':' by {
        assert(whole[j] == namespace[j]);
        assert(namespace.contains(namespace[j]));
    }
    text::lemma_first_index_is(whole, ':', n);
    text::lemma_first_index_is(namespace, ':', n);
    assert(whole.take(n) =~= namespace);
    assert(whole.skip(n + 1) =~= name);
}

/// What stands before the first `@` of a package name is taken for the package, and all that
/// stands behind it for the version. A version requirement that is refused is reported before the
/// package is looked at, with the reason for which it is refused; a package that is refused is
/// reported with the reason for that. Nothing else is refused, and what is accepted is given back
/// whole.
pub proof fn package_names_are_parsed_part_by_part(package: Seq<char>, version: Seq<char>)
    requires
        !package.contains('@'),
    ensures
        ({
            let r = parsed_package_name(package + seq!['@'] + version);
            let required = parsed_version_req(version);
            &&& required is Err ==> r == Err::<(Seq<char>, Option<Seq<char>>), _>(
                PackageNameErrorView::Version(required->Err_0),
            )
            &&& required is Ok && !is_package_ref(package) ==> r == Err::<
                (Seq<char>, Option<Seq<char>>),
                _,
            >(PackageNameErrorView::Package(package_ref_error(package)))
            &&& required is Ok && is_package_ref(package) ==> r == Ok::<_, PackageNameErrorView>(
                (package, Some(required->Ok_0)),
            )
        }),
        ({
            let r = parsed_package_name(package);
            &&& is_package_ref(package) ==> r == Ok::<_, PackageNameErrorView>(
                (package, None::<Seq<char>>),
            )
            &&& !is_package_ref(package) ==> r == Err::<(Seq<char>, Option<Seq<char>>), _>(
                PackageNameErrorView::Package(package_ref_error(package)),
            )
        }),
{
    lemma_cut_at_at(package, version);
}

proof fn lemma_cut_at_at(package: Seq<char>, version: Seq<char>)
    requires
        !package.contains('@'),
    ensures
        name_and_version(package + seq!['@'] + version) == (package, Some(version)),
        name_and_version(package) == (package, None::<Seq<char>>),
{
    let whole = package + seq!['@'] + version;
    let n = package.len() as int;
    assert forall|j: int| 0 <= j < n implies whole[j] != '@' && package[j] != '@' by {
        assert(whole[j] == package[j]);
        assert(package.contains(package[j]));
    }
    text::lemma_first_index_is(whole, '@', n);
    text::lemma_first_index_is(package, '@', n);
    assert(whole.take(n) =~= package);
    assert(whole.skip(n + 1) =~= version);
}

/// Every package at every version is a registry source: if the path does not exist and the text is
/// no `http` or `https` URL, a package reference with an `@` and a version requirement behind it
/// gives that package, that requirement and the registry that was given.
pub proof fn every_package_with_a_version_is_a_registry_source(
    package: Seq<char>,
    version: Seq<char>,
    digest: Option<Seq<char>>,
    registry: Option<Seq<char>>,
)
    requires
        is_package_ref(package),
        parsed_version_req(version) is Ok,
        ({
            let url = parsed_url(package + seq!['@'] + version);
            url is Some ==> url->0.scheme != "http"@ && url->0.scheme != "https"@
        }),
    ensures
        inferred_source(package + seq!['@'] + version, false, digest, registry) == Ok::<
            SourceView,
            AddError,
        >(
            SourceView::Registry {
                package,
                version: parsed_version_req(version)->Ok_0,
                registry,
            },
        ),
{
    lemma_package_ref_has_no_at(package);
    lemma_cut_at_at(package, version);
}

/// Every URL with the scheme `http` or `https` that is no existing path is a download, from the
/// URL as it is serialised and with the digest that was given; without a digest it is refused for
/// that.
pub proof fn every_http_url_is_a_download(
    source: Seq<char>,
    digest: Option<Seq<char>>,
    registry: Option<Seq<char>>,
)
    requires
        parsed_url(source) is Some,
        parsed_url(source)->0.scheme == "http"@ || parsed_url(source)->0.scheme == "https"@,
    ensures
        ({
            let r = inferred_source(source, false, digest, registry);
            &&& digest is Some ==> r == Ok::<SourceView, AddError>(
                SourceView::Http { url: parsed_url(source)->0.text, digest: digest->0 },
            )
            &&& digest is None ==> r == Err::<SourceView, AddError>(AddError::MissingDigest)
        }),
{
}

/// A source is refused only for these reasons: an HTTP URL without a digest, a package without a
/// version, and a text that is no existing path, no HTTP URL and no package, each with its own
/// error.
pub proof fn sources_are_refused_only_with_reason(
    package: Seq<char>,
    version: Seq<char>,
    digest: Option<Seq<char>>,
    registry: Option<Seq<char>>,
)
    requires
        !package.contains('@'),
    ensures
        ({
            let url = parsed_url(package);
            let http = url is Some && (url->0.scheme == "http"@ || url->0.scheme == "https"@);
            let r = inferred_source(package, false, digest, registry);
            &&& !http && is_package_ref(package) ==> r == Err::<SourceView, AddError>(
                AddError::MissingVersion,
            )
            &&& !http && !is_package_ref(package) ==> r == Err::<SourceView, AddError>(
                AddError::UnknownSource,
            )
        }),
        ({
            let source = package + seq!['@'] + version;
            let url = parsed_url(source);
            let http = url is Some && (url->0.scheme == "http"@ || url->0.scheme == "https"@);
            let r = inferred_source(source, false, digest, registry);
            !http && (!is_package_ref(package) || parsed_version_req(version) is Err) ==> r
                == Err::<SourceView, AddError>(AddError::UnknownSource)
        }),
{
    lemma_cut_at_at(package, version);
}

/// What is known of a text decides what it is, each thing by itself: an existing path is local; an
/// `http` or `https` URL is a download, for which the digest is needed; and a package is of a
/// registry, for which the version is needed. What is given is taken as it is.
pub proof fn each_part_decides_by_itself(
    source: Seq<char>,
    url: Option<UrlView>,
    package: ParsedPackageName,
    digest: Option<Seq<char>>,
    registry: Option<Seq<char>>,
)
    ensures
        source_from_parts(source, true, url, package, digest, registry) == Ok::<
            SourceView,
            AddError,
        >(SourceView::Local { path: source }),
        ({
            let r = source_from_parts(source, false, url, package, digest, registry);
            let http = url is Some && (url->0.scheme == "http"@ || url->0.scheme == "https"@);
            &&& http && digest is Some ==> r == Ok::<SourceView, AddError>(
                SourceView::Http { url: url->0.text, digest: digest->0 },
            )
            &&& http && digest is None ==> r is Err && r->Err_0 is MissingDigest
            &&& !http && package is Ok && package->Ok_0.1 is Some ==> r == Ok::<
                SourceView,
                AddError,
            >(
                SourceView::Registry {
                    package: package->Ok_0.0,
                    version: package->Ok_0.1->0,
                    registry,
                },
            )
            &&& !http && package is Ok && package->Ok_0.1 is None ==> r is Err && r->Err_0
                is MissingVersion
            &&& !http && package is Err ==> r is Err && r->Err_0 is UnknownSource
        }),
{
}

/// A package name is refused exactly if one of its parts is, and is made up of what was made of
/// the parts.
pub proof fn package_name_is_made_up_of_its_parts(
    package: Result<Seq<char>, Seq<char>>,
    version: Option<Result<Seq<char>, Seq<char>>>,
)
    ensures
        ({
            let r = package_from_parts(package, version);
            let bad_version = version is Some && version->0 is Err;
            &&& r is Ok <==> package is Ok && !bad_version
            &&& r is Ok ==> r->Ok_0.0 == package->Ok_0
            &&& r is Ok ==> (r->Ok_0.1 is Some <==> version is Some)
            &&& r is Ok && version is Some ==> r->Ok_0.1->0 == version->0->Ok_0
            &&& bad_version ==> r->Err_0 == PackageNameErrorView::Version(version->0->Err_0)
            &&& package is Err && !bad_version ==> r->Err_0 == PackageNameErrorView::Package(
                package->Err_0,
            )
        }),
{
}

/// A text that starts with a label and a colon has the label for its namespace, and only the
/// labels `http` and `https` make it look like an HTTP URL.
pub proof fn namespaces_stand_before_the_colon(namespace: Seq<char>, rest: Seq<char>)
    requires
        is_label(namespace),
    ensures
        label_before_colon(namespace + seq![':'] + rest) == Some(namespace),
        has_package_namespace(namespace + seq![':'] + rest) <==> namespace != "http"@ && namespace
            != "https"@,
{
    let whole = namespace + seq![':'] + rest;
    let n = namespace.len() as int;
    assert forall|j: int| 0 <= j < n implies whole[j] != ':' by {
        assert(whole[j] == namespace[j]);
    }
    text::lemma_first_index_is(whole, ':', n);
    assert(whole.take(n) =~= namespace);
}

} // verus!
