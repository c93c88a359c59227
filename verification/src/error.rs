//! The ways in which adding a dependency fails.

use vstd::prelude::*;
use vstd::string::*;

verus! {

/// Why a dependency was not added.
#[derive(Debug)]
pub enum AddError {
    /// The source is an HTTP URL and no digest was given.
    MissingDigest,
    /// The source is a registry reference without a version.
    MissingVersion,
    /// The source is neither an existing path, nor an HTTP URL, nor a registry reference.
    UnknownSource,
    /// The component exports no interface.
    NoExportedInterfaces,
    /// The manifest, at this path, is not in the current directory.
    ManifestElsewhere(String),
    /// The manifest has no component of the selected name.
    NoSuchComponent,
    /// The manifest has no parent directory.
    ManifestIsRoot,
    /// The build directory of the component is not a directory.
    NoBuildDirectory,
    /// The build directory has no file that tells the language.
    UnknownLanguage,
    /// `Cargo.toml` is no TOML document, for this reason.
    InvalidCargoToml(String),
    /// The `dependencies` entry of `Cargo.toml` is not a table.
    DependenciesNotTable,
    /// There is no file `src/lib.rs`.
    NoLibFile,
}

/// What the user is told of `error`.
pub open spec fn message_of(error: AddError) -> Seq<char> {
    match error {
        AddError::MissingDigest => "Digest needs to be specified for HTTP sources."@,
        AddError::MissingVersion => "Version needs to specified for registry sources."@,
        AddError::UnknownSource => "Could not infer component source"@,
        AddError::NoExportedInterfaces => "No exported interfaces found in the component"@,
        AddError::ManifestElsewhere(path) => "No spin.toml in current directory - did you mean '-f "@
            + path@ + "'?"@,
        AddError::NoSuchComponent => "component does not exist"@,
        AddError::ManifestIsRoot => "Manifest cannot be the root directory"@,
        AddError::NoBuildDirectory => "unable to establish build directory for component"@,
        AddError::UnknownLanguage => "unable to determine the component source language"@,
        AddError::InvalidCargoToml(reason) => reason@,
        AddError::DependenciesNotTable => "existing dependencies table is... not a table"@,
        AddError::NoLibFile => "src/lib.rs is not a file"@,
    }
}

impl AddError {
    /// What the user is told.
    pub fn message(&self) -> (r: String)
        ensures
            r@ == message_of(*self),
    {
        match self {
            AddError::MissingDigest => "Digest needs to be specified for HTTP sources.".to_owned(),
            AddError::MissingVersion =>
                "Version needs to specified for registry sources.".to_owned(),
            AddError::UnknownSource => "Could not infer component source".to_owned(),
            AddError::NoExportedInterfaces =>
                "No exported interfaces found in the component".to_owned(),
            AddError::ManifestElsewhere(path) => {
                let mut out = "No spin.toml in current directory - did you mean '-f ".to_owned();
                out.append(path.as_str());
                out.append("'?");
                out
            },
            AddError::NoSuchComponent => "component does not exist".to_owned(),
            AddError::ManifestIsRoot => "Manifest cannot be the root directory".to_owned(),
            AddError::NoBuildDirectory =>
                "unable to establish build directory for component".to_owned(),
            AddError::UnknownLanguage =>
                "unable to determine the component source language".to_owned(),
            AddError::InvalidCargoToml(reason) => reason.clone(),
            AddError::DependenciesNotTable =>
                "existing dependencies table is... not a table".to_owned(),
            AddError::NoLibFile => "src/lib.rs is not a file".to_owned(),
        }
    }
}

/// The message on a manifest that is elsewhere gives the path in full, and the one on a
/// `Cargo.toml` that is no TOML is the reason itself.
pub proof fn messages_give_path_and_reason(text: String)
    ensures
        ({
            let message = message_of(AddError::ManifestElsewhere(text));
            let before = "No spin.toml in current directory - did you mean '-f "@;
            &&& message.len() == before.len() + text@.len() + 2
            &&& message.take(before.len() as int) == before
            &&& message.subrange(before.len() as int, (before.len() + text@.len()) as int) == text@
            &&& message.skip(message.len() - 2) == "'?"@
        }),
        message_of(AddError::InvalidCargoToml(text)) == text@,
{
    reveal_strlit("'?");
    let message = message_of(AddError::ManifestElsewhere(text));
    let before = "No spin.toml in current directory - did you mean '-f "@;
    assert(message.take(before.len() as int) =~= before);
    assert(message.subrange(before.len() as int, (before.len() + text@.len()) as int) =~= text@);
    assert(message.skip(message.len() - 2) =~= "'?"@);
}

} // verus!
