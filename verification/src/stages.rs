//! The stages of a run of the `add` command.
//!
//! Each stage is some work outside of the library. What comes of the work decides the next stage,
//! or ends the run with an error. Work that fails by itself ends the run too.

use crate::error::AddError;
use vstd::prelude::*;
use vstd::string::*;

verus! {

/// Something that a run would have to do and cannot.
#[derive(Debug, PartialEq, Eq, Structural, Clone, Copy)]
pub enum Unsupported {
    /// Generating bindings for TypeScript.
    TypeScriptBindings,
    /// Putting the `deps` module that was worked out into `src/lib.rs`.
    LibUpdate,
}

/// The work to do next.
#[derive(Debug, PartialEq, Eq, Structural, Clone, Copy)]
pub enum Stage {
    /// Find out what the source is.
    InferSource,
    /// Get the component from its source.
    FetchComponent,
    /// Read the WIT of the component.
    DecodeComponent,
    /// Have the user select the interfaces to import.
    SelectInterfaces,
    /// Look for the manifest.
    FindManifest,
    /// Read the manifest.
    LoadManifest,
    /// Determine the component to add the dependency to, asking the user if need be.
    SelectComponent,
    /// Turn the world of the component into one that imports what it exported.
    ImportizeWorld,
    /// See whether there is a WIT file of dependencies.
    CheckWit,
    /// Create the directory of the WIT file.
    CreateWitDirectory,
    /// Merge the world into the WIT file, or make a new file of it.
    MergeWit { into_existing: bool },
    /// Write the WIT file.
    WriteWit,
    /// List the dependency in the manifest, and write it.
    UpdateManifest,
    /// Look the component up in the manifest.
    FindComponent,
    /// Determine the directory of the manifest.
    FindRootDirectory,
    /// Tell the language of the component.
    InferLanguage,
    /// Add `wit-bindgen` to the dependencies in the text of `Cargo.toml`.
    AddWitBindgen,
    /// Write `Cargo.toml`.
    WriteCargoToml,
    /// See whether there is a file `src/lib.rs`.
    CheckLib,
    /// Work out the `deps` module of `src/lib.rs`.
    EditLib,
    /// Nothing: the run has come as far as it can.
    Stopped(Unsupported),
}

/// What comes of the work of a stage.
#[derive(Debug)]
pub enum Outcome {
    /// The work is done.
    Done,
    /// The manifest was found at that path, so many directories up.
    ManifestAt { path: String, distance: usize },
    /// What was looked for is there, or is not.
    Found(bool),
    /// The text was changed, or was not.
    Changed(bool),
    /// The component is written in Rust.
    Rust,
    /// The component is written in TypeScript.
    TypeScript,
}

impl Stage {
    /// Whether that can come of the work of this stage.
    pub open spec fn accepts(self, outcome: Outcome) -> bool {
        match self {
            Stage::FindManifest => outcome is ManifestAt,
            Stage::CheckWit | Stage::FindComponent | Stage::FindRootDirectory
            | Stage::CheckLib => outcome is Found,
            Stage::InferLanguage => outcome is Rust || outcome is TypeScript,
            Stage::AddWitBindgen => outcome is Changed,
            Stage::Stopped(_) => false,
            _ => outcome is Done,
        }
    }

    /// The stage that follows, or nothing if the run fails.
    pub open spec fn following(self, outcome: Outcome) -> Option<Stage> {
        match (self, outcome) {
            (Stage::InferSource, _) => Some(Stage::FetchComponent),
            (Stage::FetchComponent, _) => Some(Stage::DecodeComponent),
            (Stage::DecodeComponent, _) => Some(Stage::SelectInterfaces),
            (Stage::SelectInterfaces, _) => Some(Stage::FindManifest),
            (Stage::FindManifest, Outcome::ManifestAt { path: _, distance }) => if distance > 0 {
                None
            } else {
                Some(Stage::LoadManifest)
            },
            (Stage::LoadManifest, _) => Some(Stage::SelectComponent),
            (Stage::SelectComponent, _) => Some(Stage::ImportizeWorld),
            (Stage::ImportizeWorld, _) => Some(Stage::CheckWit),
            (Stage::CheckWit, Outcome::Found(true)) => Some(
                Stage::MergeWit { into_existing: true },
            ),
            (Stage::CheckWit, Outcome::Found(false)) => Some(Stage::CreateWitDirectory),
            (Stage::CreateWitDirectory, _) => Some(Stage::MergeWit { into_existing: false }),
            (Stage::MergeWit { into_existing: _ }, _) => Some(Stage::WriteWit),
            (Stage::WriteWit, _) => Some(Stage::UpdateManifest),
            (Stage::UpdateManifest, _) => Some(Stage::FindComponent),
            (Stage::FindComponent, Outcome::Found(true)) => Some(Stage::FindRootDirectory),
            (Stage::FindRootDirectory, Outcome::Found(true)) => Some(Stage::InferLanguage),
            (Stage::InferLanguage, Outcome::Rust) => Some(Stage::AddWitBindgen),
            (Stage::InferLanguage, Outcome::TypeScript) => Some(
                Stage::Stopped(Unsupported::TypeScriptBindings),
            ),
            (Stage::AddWitBindgen, Outcome::Changed(true)) => Some(Stage::WriteCargoToml),
            (Stage::AddWitBindgen, Outcome::Changed(false)) => Some(Stage::CheckLib),
            (Stage::WriteCargoToml, _) => Some(Stage::CheckLib),
            (Stage::CheckLib, Outcome::Found(true)) => Some(Stage::EditLib),
            (Stage::EditLib, _) => Some(Stage::Stopped(Unsupported::LibUpdate)),
            _ => None,
        }
    }

    /// Whether `error` is the one with which the run fails in this stage.
    pub open spec fn fails_with(self, outcome: Outcome, error: AddError) -> bool {
        match self {
            Stage::FindManifest => error matches AddError::ManifestElsewhere(path) && path@
                == outcome->path@,
            Stage::FindComponent => error == AddError::NoSuchComponent,
            Stage::FindRootDirectory => error == AddError::ManifestIsRoot,
            Stage::CheckLib => error == AddError::NoLibFile,
            _ => false,
        }
    }

    /// Whether the user may be asked in this stage.
    pub open spec fn asks(self) -> bool {
        self is SelectInterfaces || self is SelectComponent
    }

    /// Whether a file or a directory is written in this stage.
    pub open spec fn writes(self) -> bool {
        self is CreateWitDirectory || self is WriteWit || self is UpdateManifest
            || self is WriteCargoToml
    }

    /// How far a run in this stage has come.
    pub open spec fn rank(self) -> nat {
        match self {
            Stage::InferSource => 0,
            Stage::FetchComponent => 1,
            Stage::DecodeComponent => 2,
            Stage::SelectInterfaces => 3,
            Stage::FindManifest => 4,
            Stage::LoadManifest => 5,
            Stage::SelectComponent => 6,
            Stage::ImportizeWorld => 7,
            Stage::CheckWit => 8,
            Stage::CreateWitDirectory => 9,
            Stage::MergeWit { into_existing: _ } => 10,
            Stage::WriteWit => 11,
            Stage::UpdateManifest => 12,
            Stage::FindComponent => 13,
            Stage::FindRootDirectory => 14,
            Stage::InferLanguage => 15,
            Stage::AddWitBindgen => 16,
            Stage::WriteCargoToml => 17,
            Stage::CheckLib => 18,
            Stage::EditLib => 19,
            Stage::Stopped(_) => 20,
        }
    }

    /// The stage that follows, or the error with which the run fails.
    pub fn next(self, outcome: Outcome) -> (r: Result<Stage, AddError>)
        requires
            self.accepts(outcome),
        ensures
            match r {
                Ok(stage) => self.following(outcome) == Some(stage),
                Err(error) => self.following(outcome) is None && self.fails_with(outcome, error),
            },
    {
        match (self, outcome) {
            (Stage::InferSource, _) => Ok(Stage::FetchComponent),
            (Stage::FetchComponent, _) => Ok(Stage::DecodeComponent),
            (Stage::DecodeComponent, _) => Ok(Stage::SelectInterfaces),
            (Stage::SelectInterfaces, _) => Ok(Stage::FindManifest),
            (Stage::FindManifest, Outcome::ManifestAt { path, distance }) => if distance > 0 {
                Err(AddError::ManifestElsewhere(path))
            } else {
                Ok(Stage::LoadManifest)
            },
            (Stage::LoadManifest, _) => Ok(Stage::SelectComponent),
            (Stage::SelectComponent, _) => Ok(Stage::ImportizeWorld),
            (Stage::ImportizeWorld, _) => Ok(Stage::CheckWit),
            (Stage::CheckWit, Outcome::Found(true)) => Ok(Stage::MergeWit { into_existing: true }),
            (Stage::CheckWit, _) => Ok(Stage::CreateWitDirectory),
            (Stage::CreateWitDirectory, _) => Ok(Stage::MergeWit { into_existing: false }),
            (Stage::MergeWit { into_existing: _ }, _) => Ok(Stage::WriteWit),
            (Stage::WriteWit, _) => Ok(Stage::UpdateManifest),
            (Stage::UpdateManifest, _) => Ok(Stage::FindComponent),
            (Stage::FindComponent, Outcome::Found(true)) => Ok(Stage::FindRootDirectory),
            (Stage::FindComponent, _) => Err(AddError::NoSuchComponent),
            (Stage::FindRootDirectory, Outcome::Found(true)) => Ok(Stage::InferLanguage),
            (Stage::FindRootDirectory, _) => Err(AddError::ManifestIsRoot),
            (Stage::InferLanguage, Outcome::TypeScript) => Ok(
                Stage::Stopped(Unsupported::TypeScriptBindings),
            ),
            (Stage::InferLanguage, _) => Ok(Stage::AddWitBindgen),
            (Stage::AddWitBindgen, Outcome::Changed(true)) => Ok(Stage::WriteCargoToml),
            (Stage::AddWitBindgen, _) => Ok(Stage::CheckLib),
            (Stage::WriteCargoToml, _) => Ok(Stage::CheckLib),
            (Stage::CheckLib, Outcome::Found(true)) => Ok(Stage::EditLib),
            (Stage::CheckLib, _) => Err(AddError::NoLibFile),
            _ => Ok(Stage::Stopped(Unsupported::LibUpdate)),
        }
    }
}

/// The stage that a run is in after these outcomes, or nothing if it has failed or an outcome
/// does not fit.
pub open spec fn stage_after(outcomes: Seq<Outcome>) -> Option<Stage>
    decreases outcomes.len(),
{
    if outcomes.len() == 0 {
        Some(Stage::InferSource)
    } else {
        match stage_after(outcomes.drop_last()) {
            Some(stage) => if stage.accepts(outcomes.last()) {
                stage.following(outcomes.last())
            } else {
                None
            },
            None => None,
        }
    }
}

/// Whether a run with these outcomes has passed through `stage`, or is in it.
pub open spec fn passes(outcomes: Seq<Outcome>, stage: Stage) -> bool {
    exists|n: int| 0 <= n <= outcomes.len() && #[trigger] stage_after(outcomes.take(n)) == Some(stage)
}

/// A run only goes forward, so that it ends.
pub proof fn runs_go_forward(stage: Stage, outcome: Outcome)
    requires
        stage.accepts(outcome),
    ensures
        stage.following(outcome) matches Some(next) ==> stage.rank() < next.rank() <= 20,
{
}

/// A run that has failed stays failed: nothing is done after an error.
pub proof fn failures_are_final(outcomes: Seq<Outcome>, n: int)
    requires
        0 <= n <= outcomes.len(),
        stage_after(outcomes.take(n)) is None,
    ensures
        stage_after(outcomes) is None,
{
    lemma_earlier_stage(outcomes, n);
}

/// A run that is in some stage was in one of no greater rank before, and in one of lesser rank if
/// an outcome came in between.
proof fn lemma_earlier_stage(outcomes: Seq<Outcome>, n: int)
    requires
        0 <= n <= outcomes.len(),
    ensures
        stage_after(outcomes) is Some ==> stage_after(outcomes.take(n)) is Some && stage_after(
            outcomes.take(n),
        )->0.rank() + (outcomes.len() - n) <= stage_after(outcomes)->0.rank(),
    decreases outcomes.len(),
{
    if n == outcomes.len() {
        assert(outcomes.take(n) =~= outcomes);
    } else {
        let fewer = outcomes.drop_last();
        assert(fewer.take(n) =~= outcomes.take(n));
        lemma_earlier_stage(fewer, n);
    }
}

/// The user is asked before anything is written: once a run has come to a stage that writes, it
/// comes to none that asks.
pub proof fn questions_come_before_writes(outcomes: Seq<Outcome>, n: int)
    requires
        0 <= n <= outcomes.len(),
        stage_after(outcomes.take(n)) matches Some(stage) && stage.writes(),
    ensures
        stage_after(outcomes) matches Some(stage) ==> !stage.asks(),
{
    lemma_earlier_stage(outcomes, n);
}

/// Nothing is written unless the manifest was found in the current directory.
pub proof fn writes_need_manifest_in_current_directory(outcomes: Seq<Outcome>)
    requires
        stage_after(outcomes) matches Some(stage) && stage.writes(),
    ensures
        exists|i: int|
            #![trigger outcomes[i]]
            0 <= i < outcomes.len() && outcomes[i] is ManifestAt && outcomes[i]->distance == 0,
{
    lemma_manifest_was_found(outcomes);
}

proof fn lemma_manifest_was_found(outcomes: Seq<Outcome>)
    requires
        stage_after(outcomes) matches Some(stage) && stage.rank() > Stage::FindManifest.rank(),
    ensures
        exists|i: int|
            #![trigger outcomes[i]]
            0 <= i < outcomes.len() && outcomes[i] is ManifestAt && outcomes[i]->distance == 0,
    decreases outcomes.len(),
{
    let fewer = outcomes.drop_last();
    let before = stage_after(fewer)->0;
    if before is FindManifest {
        assert(outcomes[outcomes.len() - 1] == outcomes.last());
    } else {
        lemma_manifest_was_found(fewer);
        let i = choose|i: int|
            #![trigger fewer[i]]
            0 <= i < fewer.len() && fewer[i] is ManifestAt && fewer[i]->distance == 0;
        assert(outcomes[i] == fewer[i]);
    }
}

proof fn lemma_passes_longer(outcomes: Seq<Outcome>, stage: Stage)
    requires
        outcomes.len() > 0,
        passes(outcomes.drop_last(), stage),
    ensures
        passes(outcomes, stage),
{
    let fewer = outcomes.drop_last();
    let n = choose|n: int|
        0 <= n <= fewer.len() && #[trigger] stage_after(fewer.take(n)) == Some(stage);
    assert(fewer.take(n) =~= outcomes.take(n));
}

proof fn lemma_passes_last(outcomes: Seq<Outcome>)
    requires
        stage_after(outcomes) is Some,
    ensures
        passes(outcomes, stage_after(outcomes)->0),
{
    assert(outcomes.take(outcomes.len() as int) =~= outcomes);
}

/// The manifest is updated after the WIT file was written, and all that follows, the bindings
/// included, is done after the manifest was updated.
pub proof fn wit_then_manifest_then_bindings(outcomes: Seq<Outcome>)
    ensures
        stage_after(outcomes) matches Some(stage) ==> {
            &&& stage.rank() >= Stage::UpdateManifest.rank() ==> passes(outcomes, Stage::WriteWit)
            &&& stage.rank() >= Stage::FindComponent.rank() ==> passes(
                outcomes,
                Stage::UpdateManifest,
            )
        },
    decreases outcomes.len(),
{
    if outcomes.len() > 0 && stage_after(outcomes) is Some {
        let fewer = outcomes.drop_last();
        wit_then_manifest_then_bindings(fewer);
        lemma_passes_last(fewer);
        let before = stage_after(fewer)->0;
        lemma_passes_longer(outcomes, before);
        if passes(fewer, Stage::WriteWit) {
            lemma_passes_longer(outcomes, Stage::WriteWit);
        }
        if passes(fewer, Stage::UpdateManifest) {
            lemma_passes_longer(outcomes, Stage::UpdateManifest);
        }
    }
}

/// A WIT file that is there is merged into; where there is none its directory is created first.
pub proof fn wit_file_is_merged_into_or_created(outcomes: Seq<Outcome>, into_existing: bool)
    requires
        stage_after(outcomes) == Some(Stage::MergeWit { into_existing }),
    ensures
        passes(outcomes, Stage::CreateWitDirectory) <==> !into_existing,
{
    let fewer = outcomes.drop_last();
    let before = stage_after(fewer)->0;
    lemma_passes_last(fewer);
    lemma_passes_longer(outcomes, before);
    if into_existing && passes(outcomes, Stage::CreateWitDirectory) {
        let n = choose|n: int|
            0 <= n <= outcomes.len() && #[trigger] stage_after(outcomes.take(n)) == Some(
                Stage::CreateWitDirectory,
            );
        assert(n < outcomes.len()) by {
            assert(outcomes.take(outcomes.len() as int) =~= outcomes);
        }
        assert(fewer.take(n) =~= outcomes.take(n));
        lemma_earlier_stage(fewer, n);
    }
}

/// `Cargo.toml` is written only if its text was changed.
pub proof fn cargo_toml_is_written_only_if_changed(outcomes: Seq<Outcome>)
    requires
        stage_after(outcomes) == Some(Stage::WriteCargoToml),
    ensures
        outcomes.len() > 0,
        outcomes.last() == Outcome::Changed(true),
{
}

/// A run goes on exactly if the manifest is in the current directory. If it is any number of
/// directories up, the run fails with an error that holds the path of the manifest.
pub proof fn only_a_manifest_here_is_used(path: String, distance: usize, error: AddError)
    ensures
        ({
            let outcome = Outcome::ManifestAt { path, distance };
            &&& Stage::FindManifest.accepts(outcome)
            &&& distance == 0 <==> Stage::FindManifest.following(outcome) is Some
            &&& Stage::FindManifest.fails_with(outcome, error) ==> error
                is ManifestElsewhere && error->ManifestElsewhere_0@ == path@
        }),
{
}

/// What is needed and not found ends a run, each with its own error; what is found lets it go on.
pub proof fn what_is_not_found_ends_a_run(found: bool, error: AddError)
    ensures
        Stage::FindComponent.following(Outcome::Found(found)) is Some <==> found,
        Stage::FindRootDirectory.following(Outcome::Found(found)) is Some <==> found,
        Stage::CheckLib.following(Outcome::Found(found)) is Some <==> found,
        Stage::FindComponent.fails_with(Outcome::Found(found), error) <==> error
            is NoSuchComponent,
        Stage::FindRootDirectory.fails_with(Outcome::Found(found), error) <==> error
            is ManifestIsRoot,
        Stage::CheckLib.fails_with(Outcome::Found(found), error) <==> error is NoLibFile,
{
}

/// Where nothing is amiss, a run for a component in Rust does all of its work, in this order, and
/// ends at what cannot be done. The directory of the WIT file is created exactly if the file is
/// not there, and `Cargo.toml` is written exactly if its text was changed.
pub proof fn a_run_without_failure(path: String, wit_exists: bool, cargo_changed: bool)
    ensures
        ({
            let s0 = Stage::InferSource;
            let s1 = s0.following(Outcome::Done)->0;
            let s2 = s1.following(Outcome::Done)->0;
            let s3 = s2.following(Outcome::Done)->0;
            let s4 = s3.following(Outcome::Done)->0;
            let s5 = s4.following(Outcome::ManifestAt { path, distance: 0 })->0;
            let s6 = s5.following(Outcome::Done)->0;
            let s7 = s6.following(Outcome::Done)->0;
            let s8 = s7.following(Outcome::Done)->0;
            let s9 = s8.following(Outcome::Found(wit_exists))->0;
            let s10 = if wit_exists {
                s9
            } else {
                s9.following(Outcome::Done)->0
            };
            let s11 = s10.following(Outcome::Done)->0;
            let s12 = s11.following(Outcome::Done)->0;
            let s13 = s12.following(Outcome::Done)->0;
            let s14 = s13.following(Outcome::Found(true))->0;
            let s15 = s14.following(Outcome::Found(true))->0;
            let s16 = s15.following(Outcome::Rust)->0;
            let s17 = s16.following(Outcome::Changed(cargo_changed))->0;
            let s18 = if cargo_changed {
                s17.following(Outcome::Done)->0
            } else {
                s17
            };
            let s19 = s18.following(Outcome::Found(true))->0;
            &&& s1 is FetchComponent
            &&& s2 is DecodeComponent
            &&& s3 is SelectInterfaces
            &&& s4 is FindManifest
            &&& s5 is LoadManifest
            &&& s6 is SelectComponent
            &&& s7 is ImportizeWorld
            &&& s8 is CheckWit
            &&& !wit_exists ==> s9 is CreateWitDirectory
            &&& s10 == Stage::MergeWit { into_existing: wit_exists }
            &&& s11 is WriteWit
            &&& s12 is UpdateManifest
            &&& s13 is FindComponent
            &&& s14 is FindRootDirectory
            &&& s15 is InferLanguage
            &&& s15.following(Outcome::TypeScript) == Some(
                Stage::Stopped(Unsupported::TypeScriptBindings),
            )
            &&& s16 is AddWitBindgen
            &&& cargo_changed ==> s17 is WriteCargoToml
            &&& s18 is CheckLib
            &&& s19 is EditLib
            &&& s19.following(Outcome::Done) == Some(Stage::Stopped(Unsupported::LibUpdate))
        }),
{
}

/// Every outcome that the work of a stage can have is taken, whatever it holds.
pub proof fn stages_take_their_outcomes(path: String, distance: usize, flag: bool)
    ensures
        Stage::InferSource.accepts(Outcome::Done),
        Stage::FetchComponent.accepts(Outcome::Done),
        Stage::DecodeComponent.accepts(Outcome::Done),
        Stage::SelectInterfaces.accepts(Outcome::Done),
        Stage::FindManifest.accepts(Outcome::ManifestAt { path, distance }),
        Stage::LoadManifest.accepts(Outcome::Done),
        Stage::SelectComponent.accepts(Outcome::Done),
        Stage::ImportizeWorld.accepts(Outcome::Done),
        Stage::CheckWit.accepts(Outcome::Found(flag)),
        Stage::CreateWitDirectory.accepts(Outcome::Done),
        (Stage::MergeWit { into_existing: flag }).accepts(Outcome::Done),
        (Stage::MergeWit { into_existing: flag }).following(Outcome::Done) == Some(Stage::WriteWit),
        Stage::WriteWit.accepts(Outcome::Done),
        Stage::UpdateManifest.accepts(Outcome::Done),
        Stage::FindComponent.accepts(Outcome::Found(flag)),
        Stage::FindRootDirectory.accepts(Outcome::Found(flag)),
        Stage::InferLanguage.accepts(Outcome::Rust),
        Stage::InferLanguage.accepts(Outcome::TypeScript),
        Stage::AddWitBindgen.accepts(Outcome::Changed(flag)),
        Stage::WriteCargoToml.accepts(Outcome::Done),
        Stage::CheckLib.accepts(Outcome::Found(flag)),
        Stage::EditLib.accepts(Outcome::Done),
{
}

} // verus!
