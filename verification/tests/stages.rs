use spin_deps::error::AddError;
use spin_deps::stages::{Outcome, Stage, Unsupported};

fn manifest(distance: usize) -> Outcome {
    Outcome::ManifestAt { path: "../spin.toml".to_string(), distance }
}

fn run(outcomes: Vec<Outcome>) -> Vec<Stage> {
    let mut stages = vec![Stage::InferSource];
    for outcome in outcomes {
        let next = stages[stages.len() - 1].next(outcome).unwrap();
        stages.push(next);
    }
    stages
}

fn up_to_manifest() -> Vec<Outcome> {
    vec![
        Outcome::Done,
        Outcome::Done,
        Outcome::Done,
        Outcome::Done,
        manifest(0),
        Outcome::Done,
        Outcome::Done,
        Outcome::Done,
    ]
}

#[test]
fn a_run_for_rust_goes_through_every_stage() {
    let mut outcomes = up_to_manifest();
    outcomes.extend(vec![
        Outcome::Found(false),
        Outcome::Done,
        Outcome::Done,
        Outcome::Done,
        Outcome::Done,
        Outcome::Found(true),
        Outcome::Found(true),
        Outcome::Rust,
        Outcome::Changed(true),
        Outcome::Done,
        Outcome::Found(true),
        Outcome::Done,
    ]);
    assert_eq!(
        run(outcomes),
        vec![
            Stage::InferSource,
            Stage::FetchComponent,
            Stage::DecodeComponent,
            Stage::SelectInterfaces,
            Stage::FindManifest,
            Stage::LoadManifest,
            Stage::SelectComponent,
            Stage::ImportizeWorld,
            Stage::CheckWit,
            Stage::CreateWitDirectory,
            Stage::MergeWit { into_existing: false },
            Stage::WriteWit,
            Stage::UpdateManifest,
            Stage::FindComponent,
            Stage::FindRootDirectory,
            Stage::InferLanguage,
            Stage::AddWitBindgen,
            Stage::WriteCargoToml,
            Stage::CheckLib,
            Stage::EditLib,
            Stage::Stopped(Unsupported::LibUpdate),
        ]
    );
}

#[test]
fn an_existing_wit_file_is_merged_into() {
    let mut outcomes = up_to_manifest();
    outcomes.extend(vec![Outcome::Found(true), Outcome::Done]);
    let stages = run(outcomes);
    assert!(!stages.contains(&Stage::CreateWitDirectory));
    assert_eq!(stages[9], Stage::MergeWit { into_existing: true });
    assert_eq!(stages[10], Stage::WriteWit);
}

#[test]
fn a_manifest_elsewhere_is_refused() {
    let error = Stage::FindManifest.next(manifest(1)).unwrap_err();
    assert!(matches!(error, AddError::ManifestElsewhere(_)));
    assert_eq!(
        error.message(),
        "No spin.toml in current directory - did you mean '-f ../spin.toml'?"
    );
    assert_eq!(Stage::FindManifest.next(manifest(0)).unwrap(), Stage::LoadManifest);
}

#[test]
fn what_is_not_found_ends_the_run() {
    let error = Stage::FindComponent.next(Outcome::Found(false)).unwrap_err();
    assert!(matches!(error, AddError::NoSuchComponent));
    assert_eq!(error.message(), "component does not exist");
    let error = Stage::FindRootDirectory.next(Outcome::Found(false)).unwrap_err();
    assert!(matches!(error, AddError::ManifestIsRoot));
    assert_eq!(error.message(), "Manifest cannot be the root directory");
    let error = Stage::CheckLib.next(Outcome::Found(false)).unwrap_err();
    assert!(matches!(error, AddError::NoLibFile));
    assert_eq!(error.message(), "src/lib.rs is not a file");
}

#[test]
fn cargo_toml_is_not_written_without_a_change() {
    assert_eq!(Stage::AddWitBindgen.next(Outcome::Changed(false)).unwrap(), Stage::CheckLib);
    assert_eq!(Stage::AddWitBindgen.next(Outcome::Changed(true)).unwrap(), Stage::WriteCargoToml);
}

#[test]
fn bindings_for_typescript_are_not_supported() {
    assert_eq!(
        Stage::InferLanguage.next(Outcome::TypeScript).unwrap(),
        Stage::Stopped(Unsupported::TypeScriptBindings)
    );
}
