//! The bundle specification and its validation rules.
use vstd::prelude::*;

verus! {

/// The kind of a bundle.
#[derive(Debug, Clone, Copy, PartialEq, Eq, Structural)]
pub enum BundleType {
    Game,
    Application,
    LauncherOnly,
}

/// Which other field made a missing field necessary.
#[derive(Debug, Clone, Copy, PartialEq, Eq, Structural)]
pub enum Reason {
    LauncherTags,
    BundleType,
}

impl Reason {
    /// The words naming the field.
    pub fn describe(&self) -> (r: String)
        ensures
            *self == Reason::LauncherTags ==> r@ == "launcher tags"@,
            *self == Reason::BundleType ==> r@ == "bundle type"@,
    {
        match self {
            Reason::LauncherTags => String::from_str("launcher tags"),
            Reason::BundleType => String::from_str("bundle type"),
        }
    }
}

/// Errors found while loading or checking a bundle specification.
#[derive(Debug)]
pub enum BundleSpecError {
    /// The specification file could not be read.
    Io(String),
    /// The specification is not valid YAML for a bundle.
    Yaml(String),
    /// Only one of StoreID or HomebrewID is permitted.
    ConflictingOrigins,
    /// A launcher has no associated launcher tags.
    NoLauncherTags,
    /// No LauncherExec present, but one was expected.
    NoLauncherExec(Reason),
    /// No Exec present, but one was expected.
    NoExec(Reason),
    /// Exec present, but it will never be used given the bundle type.
    UselessExec,
    /// Homebrew bundles cannot be launchers.
    NoHomebrewLaunchers,
    /// Homebrew bundles cannot run in the background.
    NoHomebrewBackgroundBundles,
    /// A bundle must have a unique ID.
    NoOriginId,
}

/// The inputs of the build phase. Paths are relative.
pub struct BuildSpec {
    pub version_file: String,
    pub required_packages: Option<Vec<String>>,
    pub build_command: Option<String>,
    pub executables: Option<Vec<String>>,
    pub libraries: Option<Vec<String>>,
    pub resources: Option<Vec<String>>,
    pub extra_elf_files: Option<Vec<String>>,
    pub required_modules: Option<Vec<String>>,
}

/// The user-visible description of a bundle.
pub struct BundleSpec {
    pub name: String,
    pub bundle_type: BundleType,
    pub store_id: Option<String>,
    pub homebrew_id: Option<String>,
    pub exec_command: Option<String>,
    pub background: Option<bool>,
    pub prefer_xbox_mode: Option<bool>,
    pub launcher: Option<String>,
    pub launcher_tags: Option<Vec<String>>,
    pub launcher_exec: Option<String>,
    pub runner_patch: Option<String>,
    pub build: BuildSpec,
}

/// Whether the launcher tags are present and non-empty.
pub open spec fn has_tags(s: BundleSpec) -> bool {
    match s.launcher_tags {
        Some(v) => v@.len() > 0,
        None => false,
    }
}

/// Whether the bundle kind needs an `Exec`.
pub open spec fn needs_exec(t: BundleType) -> bool {
    t == BundleType::Game || t == BundleType::Application
}

/// The verdict on a store bundle: the first rule that it breaks.
pub open spec fn store_verdict(s: BundleSpec) -> Result<(), BundleSpecError> {
    if s.homebrew_id.is_some() {
        Err(BundleSpecError::ConflictingOrigins)
    } else if !has_tags(s) && s.launcher_exec.is_some() {
        Err(BundleSpecError::NoLauncherTags)
    } else if has_tags(s) && s.launcher_exec.is_none() {
        Err(BundleSpecError::NoLauncherExec(Reason::LauncherTags))
    } else if needs_exec(s.bundle_type) && s.exec_command.is_none() {
        Err(BundleSpecError::NoExec(Reason::BundleType))
    } else if !needs_exec(s.bundle_type) && s.launcher_exec.is_none() {
        Err(BundleSpecError::NoLauncherExec(Reason::BundleType))
    } else if !needs_exec(s.bundle_type) && s.exec_command.is_some() {
        Err(BundleSpecError::UselessExec)
    } else {
        Ok(())
    }
}

/// The verdict on a community (homebrew) bundle: the first rule that it breaks.
pub open spec fn homebrew_verdict(s: BundleSpec) -> Result<(), BundleSpecError> {
    if has_tags(s) || s.launcher_exec.is_some() {
        Err(BundleSpecError::NoHomebrewLaunchers)
    } else if needs_exec(s.bundle_type) && s.exec_command.is_none() {
        Err(BundleSpecError::NoExec(Reason::BundleType))
    } else if !needs_exec(s.bundle_type) {
        Err(BundleSpecError::NoHomebrewLaunchers)
    } else if s.background == Some(true) {
        Err(BundleSpecError::NoHomebrewBackgroundBundles)
    } else {
        Ok(())
    }
}

/// The verdict on a bundle specification.
pub open spec fn verdict(s: BundleSpec) -> Result<(), BundleSpecError> {
    if s.store_id.is_some() {
        store_verdict(s)
    } else if s.homebrew_id.is_some() {
        homebrew_verdict(s)
    } else {
        Err(BundleSpecError::NoOriginId)
    }
}

fn tags_present(tags: &Option<Vec<String>>) -> (r: bool)
    ensures
        r == (match tags {
            Some(v) => v@.len() > 0,
            None => false,
        }),
{
    match tags {
        Some(v) => v.len() > 0,
        None => false,
    }
}

impl BundleSpec {
    fn check_store_bundle(spec: &BundleSpec) -> (r: Result<(), BundleSpecError>)
        ensures
            r == store_verdict(*spec),
    {
        if spec.homebrew_id.is_some() {
            return Err(BundleSpecError::ConflictingOrigins);
        }
        let tags = tags_present(&spec.launcher_tags);
        if !tags {
            if spec.launcher_exec.is_some() {
                return Err(BundleSpecError::NoLauncherTags);
            }
        } else if spec.launcher_exec.is_none() {
            return Err(BundleSpecError::NoLauncherExec(Reason::LauncherTags));
        }
        match spec.bundle_type {
            BundleType::Game | BundleType::Application => {
                if spec.exec_command.is_none() {
                    return Err(BundleSpecError::NoExec(Reason::BundleType));
                }
            },
            BundleType::LauncherOnly => {
                if spec.launcher_exec.is_none() {
                    return Err(BundleSpecError::NoLauncherExec(Reason::BundleType));
                }
                if spec.exec_command.is_some() {
                    return Err(BundleSpecError::UselessExec);
                }
            },
        }
        Ok(())
    }

    fn check_homebrew_bundle(spec: &BundleSpec) -> (r: Result<(), BundleSpecError>)
        ensures
            r == homebrew_verdict(*spec),
    {
        if tags_present(&spec.launcher_tags) || spec.launcher_exec.is_some() {
            return Err(BundleSpecError::NoHomebrewLaunchers);
        }
        match spec.bundle_type {
            BundleType::Game | BundleType::Application => {
                if spec.exec_command.is_none() {
                    return Err(BundleSpecError::NoExec(Reason::BundleType));
                }
            },
            BundleType::LauncherOnly => {
                return Err(BundleSpecError::NoHomebrewLaunchers);
            },
        }
        match spec.background {
            Some(true) => Err(BundleSpecError::NoHomebrewBackgroundBundles),
            _ => Ok(()),
        }
    }

    /// Checks the rules that a bundle specification must obey.
    pub fn check(spec: &BundleSpec) -> (r: Result<(), BundleSpecError>)
        ensures
            r == verdict(*spec),
    {
        if spec.store_id.is_some() {
            BundleSpec::check_store_bundle(spec)
        } else if spec.homebrew_id.is_some() {
            BundleSpec::check_homebrew_bundle(spec)
        } else {
            Err(BundleSpecError::NoOriginId)
        }
    }
}

/// A specification that names both a store and a community identifier, or
/// neither, is rejected.
pub proof fn origin_exclusivity(s: BundleSpec)
    requires
        s.store_id.is_some() == s.homebrew_id.is_some(),
    ensures
        verdict(s).is_err(),
        s.store_id.is_some() ==> verdict(s) == Err::<(), BundleSpecError>(BundleSpecError::ConflictingOrigins),
        s.store_id.is_none() ==> verdict(s) == Err::<(), BundleSpecError>(BundleSpecError::NoOriginId),
{
}

/// A community specification that carries launcher tags, a launcher
/// executable, or asks to run in the background, is rejected.
pub proof fn community_restrictions(s: BundleSpec)
    requires
        s.homebrew_id.is_some(),
        has_tags(s) || s.launcher_exec.is_some() || s.background == Some(true),
    ensures
        verdict(s).is_err(),
{
}

} // verus!
