//! The language that a component is written in.

use crate::error::AddError;
use vstd::prelude::*;

verus! {

/// A language for which bindings can be asked, with the file that gives it away.
#[derive(Debug)]
pub enum Language<P> {
    Rust { cargo_toml: P },
    TypeScript { package_json: P },
}

/// What is found where a component is built: whether the build directory is a directory, and for
/// each of two paths in it whether it is a file.
#[derive(Debug)]
pub struct BuildDirectory<P> {
    pub is_dir: bool,
    pub cargo_toml: P,
    pub has_cargo_toml: bool,
    pub package_json: P,
    pub has_package_json: bool,
}

impl<P> BuildDirectory<P> {
    /// Tells the language from the files. `Cargo.toml` goes before `package.json`.
    pub fn try_infer_language(self) -> (r: Result<Language<P>, AddError>)
        ensures
            r == if !self.is_dir {
                Err::<Language<P>, AddError>(AddError::NoBuildDirectory)
            } else if self.has_cargo_toml {
                Ok(Language::Rust { cargo_toml: self.cargo_toml })
            } else if self.has_package_json {
                Ok(Language::TypeScript { package_json: self.package_json })
            } else {
                Err(AddError::UnknownLanguage)
            },
    {
        if !self.is_dir {
            return Err(AddError::NoBuildDirectory);
        }
        if self.has_cargo_toml {
            return Ok(Language::Rust { cargo_toml: self.cargo_toml });
        }
        if self.has_package_json {
            return Ok(Language::TypeScript { package_json: self.package_json });
        }
        Err(AddError::UnknownLanguage)
    }
}

} // verus!
