use bundle_gen::config::{BuildSpec, BundleSpec, BundleSpecError, BundleType, Reason};
use bundle_gen::deploy::{parse_version, VersionError};

fn build() -> BuildSpec {
    BuildSpec {
        version_file: "VERSION".to_string(),
        required_packages: None,
        build_command: None,
        executables: Some(vec!["demo".to_string()]),
        libraries: None,
        resources: None,
        extra_elf_files: None,
        required_modules: None,
    }
}

fn homebrew_game() -> BundleSpec {
    BundleSpec {
        name: "demo".to_string(),
        bundle_type: BundleType::Game,
        store_id: None,
        homebrew_id: Some("hb1".to_string()),
        exec_command: Some("bin/demo".to_string()),
        background: None,
        prefer_xbox_mode: None,
        launcher: None,
        launcher_tags: None,
        launcher_exec: None,
        runner_patch: None,
        build: build(),
    }
}

fn launcher_only_store() -> BundleSpec {
    BundleSpec {
        name: "launcher".to_string(),
        bundle_type: BundleType::LauncherOnly,
        store_id: Some("store42".to_string()),
        homebrew_id: None,
        exec_command: None,
        background: None,
        prefer_xbox_mode: None,
        launcher: None,
        launcher_tags: Some(vec!["games".to_string()]),
        launcher_exec: Some("bin/launcher".to_string()),
        runner_patch: None,
        build: build(),
    }
}

#[test]
fn trivial_homebrew_game_is_valid() {
    assert!(BundleSpec::check(&homebrew_game()).is_ok());
}

#[test]
fn launcher_only_store_bundle_is_valid() {
    assert!(BundleSpec::check(&launcher_only_store()).is_ok());
}

#[test]
fn both_origins_are_rejected() {
    let mut s = homebrew_game();
    s.store_id = Some("store42".to_string());
    assert!(matches!(BundleSpec::check(&s), Err(BundleSpecError::ConflictingOrigins)));
}

#[test]
fn no_origin_is_rejected() {
    let mut s = homebrew_game();
    s.homebrew_id = None;
    assert!(matches!(BundleSpec::check(&s), Err(BundleSpecError::NoOriginId)));
}

#[test]
fn community_launcher_tags_are_rejected() {
    let mut s = homebrew_game();
    s.launcher_tags = Some(vec!["games".to_string()]);
    assert!(matches!(BundleSpec::check(&s), Err(BundleSpecError::NoHomebrewLaunchers)));
}

#[test]
fn community_launcher_exec_is_rejected() {
    let mut s = homebrew_game();
    s.launcher_exec = Some("bin/l".to_string());
    assert!(matches!(BundleSpec::check(&s), Err(BundleSpecError::NoHomebrewLaunchers)));
}

#[test]
fn community_background_is_rejected() {
    let mut s = homebrew_game();
    s.background = Some(true);
    assert!(matches!(BundleSpec::check(&s), Err(BundleSpecError::NoHomebrewBackgroundBundles)));
    s.background = Some(false);
    assert!(BundleSpec::check(&s).is_ok());
}

#[test]
fn community_launcher_only_is_rejected() {
    let mut s = homebrew_game();
    s.bundle_type = BundleType::LauncherOnly;
    s.exec_command = None;
    assert!(matches!(BundleSpec::check(&s), Err(BundleSpecError::NoHomebrewLaunchers)));
}

#[test]
fn game_without_exec_is_rejected() {
    let mut s = homebrew_game();
    s.exec_command = None;
    assert!(matches!(BundleSpec::check(&s), Err(BundleSpecError::NoExec(Reason::BundleType))));
}

#[test]
fn store_rules_each_error() {
    let mut s = launcher_only_store();
    s.launcher_tags = None;
    assert!(matches!(BundleSpec::check(&s), Err(BundleSpecError::NoLauncherTags)));
    let mut s = launcher_only_store();
    s.launcher_tags = Some(vec![]);
    assert!(matches!(BundleSpec::check(&s), Err(BundleSpecError::NoLauncherTags)));
    let mut s = launcher_only_store();
    s.launcher_exec = None;
    assert!(matches!(
        BundleSpec::check(&s),
        Err(BundleSpecError::NoLauncherExec(Reason::LauncherTags))
    ));
    let mut s = launcher_only_store();
    s.launcher_exec = None;
    s.launcher_tags = None;
    assert!(matches!(
        BundleSpec::check(&s),
        Err(BundleSpecError::NoLauncherExec(Reason::BundleType))
    ));
    let mut s = launcher_only_store();
    s.exec_command = Some("bin/x".to_string());
    assert!(matches!(BundleSpec::check(&s), Err(BundleSpecError::UselessExec)));
}

#[test]
fn reasons_are_described() {
    assert_eq!(Reason::LauncherTags.describe(), "launcher tags");
    assert_eq!(Reason::BundleType.describe(), "bundle type");
}

#[test]
fn store_versions() {
    assert_eq!(parse_version("5"), Ok(5));
    assert_eq!(parse_version("+7"), Ok(7));
    assert_eq!(parse_version("4294967295"), Ok(4294967295));
    assert_eq!(parse_version("0"), Err(VersionError::Zero));
    assert_eq!(parse_version("4294967296"), Err(VersionError::NotANumber));
    assert_eq!(parse_version("abc"), Err(VersionError::NotANumber));
    assert_eq!(parse_version(""), Err(VersionError::NotANumber));
    assert_eq!(parse_version("-1"), Err(VersionError::NotANumber));
}
