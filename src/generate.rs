//! The decisions of the bundle generator: errors, path lookup, naming of
//! collected files, and the layout of the bundle.
use vstd::prelude::*;

use crate::config::{BundleSpec, BundleSpecError, BundleType};
use crate::launcher::{launcher_for, make_launcher_sh, shell_split_of};
use crate::ldcache::{entries, texts, LdError};
use crate::manifest::Manifest;
use crate::paths::{base_name, file_name, join, join_path};
use crate::FileEntry;

verus! {

/// Errors of the bundle generator.
#[derive(Debug)]
pub enum BuildError {
    /// A relative path was found under none of the search roots.
    Find(String),
    /// A file operation on the path failed, with the cause.
    IO(String, String),
    /// Writing the named archive entry failed, with the cause.
    ZipIO(String, String),
    /// The current directory could not be found.
    EnvIO(String),
    /// The archive codec failed.
    Zip(String),
    /// A file was expected at the path.
    ExpectedFile(String),
    /// The path has no parent directory.
    NoParent(String),
    /// The dependency resolution failed.
    Ld(LdError),
    /// The manifest could not be written.
    Bundle(String),
    /// The specification could not be loaded or is invalid.
    BundleSpec(BundleSpecError),
    /// The external build step failed.
    Build,
    /// The bundle is neither a store nor a community bundle.
    BundleOriginUnknown,
    /// The output of the program was not valid UTF-8.
    Utf8(String, String),
    /// The field is not permitted in this context.
    InvalidField(String),
    /// The field must be present given the other values.
    MissingField(String),
    /// The command held no program after tokenizing.
    BadCommand(String),
    /// The archive entry was given twice, from different files.
    DuplicateZipFileEntry(String),
}

/// An ordered list of directories in which relative paths are looked up;
/// earlier ones shadow later ones.
pub struct PathContext {
    locations: Vec<String>,
}

impl View for PathContext {
    type V = Seq<Seq<char>>;

    closed spec fn view(&self) -> Seq<Seq<char>> {
        texts(self.locations@)
    }
}

/// The index of the first root under which the path exists, if any.
pub open spec fn first_found(exists: Seq<bool>, k: int) -> Option<int>
    decreases exists.len() - k,
{
    if k < 0 || k >= exists.len() {
        None
    } else if exists[k] {
        Some(k)
    } else {
        first_found(exists, k + 1)
    }
}

impl PathContext {
    pub fn new(locations: Vec<String>) -> (r: Self)
        ensures
            r@ == texts(locations@),
    {
        PathContext { locations }
    }

    /// The path that `target` would have under each root, in order. The
    /// caller tells which of them exist.
    pub fn candidates(&self, target: &str) -> (r: Vec<String>)
        ensures
            r@.len() == self@.len(),
            forall|i: int| 0 <= i < self@.len() ==> (#[trigger] r@[i])@ == join(self@[i], target@),
    {
        let mut r: Vec<String> = Vec::new();
        let mut i: usize = 0;
        while i < self.locations.len()
            invariant
                i <= self.locations@.len(),
                r@.len() == i,
                forall|q: int| 0 <= q < i ==> (#[trigger] r@[q])@ == join(self@[q], target@),
            decreases self.locations@.len() - i,
        {
            r.push(join_path(self.locations[i].as_str(), target));
            i = i + 1;
        }
        r
    }

    /// Finds `target` under the first root where it exists; `exists[i]`
    /// tells whether it exists under the `i`-th root.
    pub fn find_path(&self, target: &str, exists: &Vec<bool>) -> (r: Result<String, BuildError>)
        requires
            exists@.len() == self@.len(),
        ensures
            match first_found(exists@, 0) {
                Some(k) => r matches Ok(p) && p@ == join(self@[k], target@),
                None => r matches Err(BuildError::Find(t)) && t@ == target@,
            },
    {
        let mut i: usize = 0;
        while i < exists.len()
            invariant
                i <= exists@.len() == self@.len(),
                first_found(exists@, 0) == first_found(exists@, i as int),
            decreases exists@.len() - i,
        {
            if exists[i] {
                return Ok(join_path(self.locations[i].as_str(), target));
            }
            i = i + 1;
        }
        Err(BuildError::Find(String::from_str(target)))
    }
}

/// Whether the path ends with a `/`, or with a `.` component after a `/`.
pub open spec fn trailing_noise(s: Seq<char>) -> bool {
    s.len() > 0 && (s.last() == '/' || (s.last() == '.' && s.len() >= 2 && s[s.len() - 2] == '/'))
}

/// A path without the slashes and `.` components that end it.
pub open spec fn trim_slashes(s: Seq<char>) -> Seq<char>
    decreases s.len(),
{
    if trailing_noise(s) {
        trim_slashes(s.drop_last())
    } else {
        s
    }
}

/// The name of a nominated item, as a path names its last component: the
/// slashes and `.` components that end it do not count; there is none for
/// an empty name, `.` or `..`.
pub open spec fn item_name(item: Seq<char>) -> Option<Seq<char>> {
    let b = base_name(trim_slashes(item));
    if b.len() == 0 || b == ".."@ || b == "."@ {
        None
    } else {
        Some(b)
    }
}

/// The archive name of a nominated item under `prefix`: a file, or a
/// directory named without a trailing `/`, keeps its own name below the
/// prefix; a directory named with a trailing `/` has its contents put
/// directly under the prefix.
pub open spec fn item_archive_name(prefix: Seq<char>, item: Seq<char>, is_dir: bool) -> Option<Seq<char>> {
    match item_name(item) {
        None => None,
        Some(b) => if is_dir && item.last() == '/' {
            Some(prefix)
        } else {
            Some(join(prefix, b))
        },
    }
}

fn trim_end_slashes(s: &str) -> (r: usize)
    ensures
        r <= s@.len(),
        s@.subrange(0, r as int) == trim_slashes(s@),
{
    let mut n = s.unicode_len();
    assert(s@.subrange(0, n as int) =~= s@);
    while n > 0 && (s.get_char(n - 1) == '/' || (s.get_char(n - 1) == '.' && n >= 2 && s.get_char(n - 2) == '/'))
        invariant
            n <= s@.len(),
            trim_slashes(s@) == trim_slashes(s@.subrange(0, n as int)),
        decreases n,
    {
        assert(s@.subrange(0, n as int).drop_last() =~= s@.subrange(0, n - 1));
        n = n - 1;
    }
    n
}

/// The archive name of a nominated item (see [`item_archive_name`]).
pub fn entry_name(prefix: &str, item: &str, is_dir: bool) -> (r: Option<String>)
    ensures
        match item_archive_name(prefix@, item@, is_dir) {
            Some(n) => r matches Some(t) && t@ == n,
            None => r.is_none(),
        },
{
    let n = trim_end_slashes(item);
    let trimmed = item.substring_char(0, n);
    let b = file_name(trimmed);
    proof {
        reveal_strlit("..");
    }
    let dots = String::from_str("..");
    proof {
        reveal_strlit(".");
    }
    let dot = String::from_str(".");
    if b.as_str().unicode_len() == 0 || b == dots || b == dot {
        return None;
    }
    let len = item.unicode_len();
    if is_dir && item.get_char(len - 1) == '/' {
        Some(String::from_str(prefix))
    } else {
        Some(join_path(prefix, b.as_str()))
    }
}

/// The files whose needed libraries are resolved: executables, then the
/// extra ELF files, then libraries.
pub fn elf_seeds(executables: &Vec<FileEntry>, extra: &Vec<FileEntry>, libraries: &Vec<FileEntry>) -> (r: Vec<FileEntry>)
    ensures
        entries(r@) == entries(executables@) + entries(extra@) + entries(libraries@),
{
    let mut r: Vec<FileEntry> = Vec::new();
    append_entries(&mut r, executables);
    append_entries(&mut r, extra);
    append_entries(&mut r, libraries);
    r
}

/// What the archive holds: executables, libraries, resources, then the
/// libraries found by the resolution.
pub fn bundle_contents(
    executables: &Vec<FileEntry>,
    libraries: &Vec<FileEntry>,
    resources: &Vec<FileEntry>,
    dependencies: &Vec<FileEntry>,
) -> (r: Vec<FileEntry>)
    ensures
        entries(r@) == entries(executables@) + entries(libraries@) + entries(resources@) + entries(dependencies@),
{
    let mut r: Vec<FileEntry> = Vec::new();
    append_entries(&mut r, executables);
    append_entries(&mut r, libraries);
    append_entries(&mut r, resources);
    append_entries(&mut r, dependencies);
    r
}

fn append_entries(r: &mut Vec<FileEntry>, v: &Vec<FileEntry>)
    ensures
        entries(final(r)@) == entries(old(r)@) + entries(v@),
{
    let mut i: usize = 0;
    while i < v.len()
        invariant
            i <= v@.len(),
            entries(r@) =~= entries(old(r)@) + entries(v@).subrange(0, i as int),
        decreases v@.len() - i,
    {
        let ghost e0 = entries(r@);
        let c = v[i].clone();
        r.push(c);
        assert(entries(r@) =~= e0.push(c@));
        assert(entries(v@).subrange(0, i + 1) =~= entries(v@).subrange(0, i as int).push(v@[i as int]@));
        i = i + 1;
    }
    assert(entries(v@).subrange(0, v@.len() as int) =~= entries(v@));
}

pub open spec fn opt_text(o: Option<String>) -> Option<Seq<char>> {
    match o {
        Some(t) => Some(t@),
        None => None,
    }
}

/// Whether the bundle gets a `run.sh` wrapper: it has a program and no
/// launcher will start it.
pub open spec fn needs_run_script(cfg: BundleSpec) -> bool {
    cfg.exec_command.is_some() && cfg.launcher.is_none()
}

/// The launcher script for a command.
pub open spec fn script_for(command: Seq<char>) -> Option<Seq<char>> {
    launcher_for(command, shell_split_of(command))
}

/// The program that the manifest names.
pub open spec fn program_of(cfg: BundleSpec) -> Option<Seq<char>> {
    match cfg.exec_command {
        Some(e) => if cfg.launcher.is_some() {
            Some(e@)
        } else {
            Some("run.sh"@)
        },
        None => None,
    }
}

/// How composing a bundle's extra files and manifest ends.
pub enum PlanOutcome {
    BadCommand(Seq<char>),
    InvalidField(Seq<char>),
    MissingField(Seq<char>),
    OriginUnknown,
    Ready,
}

pub open spec fn plan_outcome(cfg: BundleSpec) -> PlanOutcome {
    if needs_run_script(cfg) && script_for(cfg.exec_command.unwrap()@).is_none() {
        PlanOutcome::BadCommand(cfg.exec_command.unwrap()@)
    } else if cfg.homebrew_id.is_some() {
        if cfg.launcher_tags.is_some() {
            PlanOutcome::InvalidField("LauncherTags"@)
        } else if cfg.launcher_exec.is_some() {
            PlanOutcome::InvalidField("LauncherExec"@)
        } else if cfg.background.is_some() {
            PlanOutcome::InvalidField("Background"@)
        } else {
            PlanOutcome::Ready
        }
    } else if cfg.store_id.is_some() {
        match cfg.launcher_exec {
            Some(l) => if cfg.launcher_tags.is_none() {
                PlanOutcome::MissingField("LauncherTags"@)
            } else if script_for(l@).is_none() {
                PlanOutcome::BadCommand(l@)
            } else {
                PlanOutcome::Ready
            },
            None => if cfg.launcher_tags.is_some() {
                PlanOutcome::MissingField("LauncherExec"@)
            } else {
                PlanOutcome::Ready
            },
        }
    } else {
        PlanOutcome::OriginUnknown
    }
}

/// The scripts added at the archive root, as (name, text).
pub open spec fn planned_scripts(cfg: BundleSpec) -> Seq<(Seq<char>, Seq<char>)> {
    let run = if needs_run_script(cfg) {
        seq![("run.sh"@, script_for(cfg.exec_command.unwrap()@).unwrap())]
    } else {
        Seq::empty()
    };
    let launch = if cfg.homebrew_id.is_none() && cfg.launcher_exec.is_some() {
        seq![("launch.sh"@, script_for(cfg.launcher_exec.unwrap()@).unwrap())]
    } else {
        Seq::empty()
    };
    run + launch
}

/// The manifest of a bundle that is ready.
pub open spec fn planned_manifest(cfg: BundleSpec, version: Seq<char>, m: Manifest) -> bool {
    &&& m.name@ == cfg.name@
    &&& m.bundle_type == cfg.bundle_type
    &&& opt_text(m.exec_command) == program_of(cfg)
    &&& opt_text(m.version) == Some(version)
    &&& m.prefer_xbox_mode == cfg.prefer_xbox_mode
    &&& opt_text(m.launcher) == opt_text(cfg.launcher)
    &&& if cfg.homebrew_id.is_some() {
        &&& opt_text(m.homebrew_id) == opt_text(cfg.homebrew_id)
        &&& m.store_id.is_none()
        &&& m.background.is_none()
        &&& m.launcher_tags@.len() == 0
        &&& m.launcher_exec.is_none()
    } else {
        &&& opt_text(m.store_id) == opt_text(cfg.store_id)
        &&& m.homebrew_id.is_none()
        &&& m.background == cfg.background
        &&& if cfg.launcher_exec.is_some() {
            &&& opt_text(m.launcher_exec) == Some("launch.sh"@)
            &&& texts(m.launcher_tags@) == texts(cfg.launcher_tags.unwrap()@)
        } else {
            &&& m.launcher_exec.is_none()
            &&& m.launcher_tags@.len() == 0
        }
    }
}

/// What is added to a bundle beside its files: launcher scripts at the
/// archive root, and the manifest.
pub struct BundlePlan {
    /// The scripts to add, as (name, text), each with mode 0755.
    pub scripts: Vec<(String, String)>,
    pub manifest: Manifest,
}

pub open spec fn scripts_view(v: Seq<(String, String)>) -> Seq<(Seq<char>, Seq<char>)> {
    v.map_values(|p: (String, String)| (p.0@, p.1@))
}

fn clone_texts(v: &Vec<String>) -> (r: Vec<String>)
    ensures
        texts(r@) == texts(v@),
{
    let mut r: Vec<String> = Vec::new();
    let mut i: usize = 0;
    while i < v.len()
        invariant
            i <= v@.len(),
            texts(r@) =~= texts(v@).subrange(0, i as int),
        decreases v@.len() - i,
    {
        let ghost t0 = texts(r@);
        let c = v[i].clone();
        r.push(c);
        assert(texts(r@) =~= t0.push(c@));
        assert(texts(v@).subrange(0, i + 1) =~= texts(v@).subrange(0, i as int).push(v@[i as int]@));
        i = i + 1;
    }
    assert(texts(v@).subrange(0, v@.len() as int) =~= texts(v@));
    r
}

fn clone_opt(o: &Option<String>) -> (r: Option<String>)
    ensures
        opt_text(r) == opt_text(*o),
{
    match o {
        Some(t) => Some(t.clone()),
        None => None,
    }
}

/// Composes the launcher scripts and the manifest of a bundle of version
/// `version`.
pub fn plan_bundle(cfg: &BundleSpec, version: &String) -> (r: Result<BundlePlan, BuildError>)
    ensures
        match plan_outcome(*cfg) {
            PlanOutcome::BadCommand(c) => r matches Err(BuildError::BadCommand(x)) && x@ == c,
            PlanOutcome::InvalidField(f) => r matches Err(BuildError::InvalidField(x)) && x@ == f,
            PlanOutcome::MissingField(f) => r matches Err(BuildError::MissingField(x)) && x@ == f,
            PlanOutcome::OriginUnknown => r matches Err(BuildError::BundleOriginUnknown),
            PlanOutcome::Ready => r matches Ok(p) && scripts_view(p.scripts@) == planned_scripts(*cfg)
                && planned_manifest(*cfg, version@, p.manifest),
        },
{
    let mut scripts: Vec<(String, String)> = Vec::new();
    let prog = match &cfg.exec_command {
        Some(exec) => {
            if cfg.launcher.is_some() {
                Some(exec.clone())
            } else {
                let text = make_launcher_sh(exec.as_str())?;
                scripts.push((String::from_str("run.sh"), text));
                Some(String::from_str("run.sh"))
            }
        },
        None => None,
    };
    let ghost run_part = scripts_view(scripts@);
    assert(run_part =~= (if needs_run_script(*cfg) {
        seq![("run.sh"@, script_for(cfg.exec_command.unwrap()@).unwrap())]
    } else {
        Seq::empty()
    }));
    if let Some(homebrew_id) = &cfg.homebrew_id {
        if cfg.launcher_tags.is_some() {
            return Err(BuildError::InvalidField(String::from_str("LauncherTags")));
        } else if cfg.launcher_exec.is_some() {
            return Err(BuildError::InvalidField(String::from_str("LauncherExec")));
        } else if cfg.background.is_some() {
            return Err(BuildError::InvalidField(String::from_str("Background")));
        }
        let manifest = Manifest {
            name: cfg.name.clone(),
            bundle_type: cfg.bundle_type,
            store_id: None,
            homebrew_id: Some(homebrew_id.clone()),
            exec_command: prog,
            version: Some(version.clone()),
            background: None,
            prefer_xbox_mode: cfg.prefer_xbox_mode,
            launcher: clone_opt(&cfg.launcher),
            launcher_tags: Vec::new(),
            launcher_exec: None,
        };
        assert(scripts_view(scripts@) =~= planned_scripts(*cfg));
        Ok(BundlePlan { scripts, manifest })
    } else if let Some(store_id) = &cfg.store_id {
        let mut launcher_exec: Option<String> = None;
        let mut launcher_tags: Vec<String> = Vec::new();
        if let Some(launcher) = &cfg.launcher_exec {
            if let Some(tags) = &cfg.launcher_tags {
                let text = make_launcher_sh(launcher.as_str())?;
                scripts.push((String::from_str("launch.sh"), text));
                launcher_exec = Some(String::from_str("launch.sh"));
                launcher_tags = clone_texts(tags);
            } else {
                return Err(BuildError::MissingField(String::from_str("LauncherTags")));
            }
        } else if cfg.launcher_tags.is_some() {
            return Err(BuildError::MissingField(String::from_str("LauncherExec")));
        }
        let manifest = Manifest {
            name: cfg.name.clone(),
            bundle_type: cfg.bundle_type,
            store_id: Some(store_id.clone()),
            homebrew_id: None,
            exec_command: prog,
            version: Some(version.clone()),
            background: cfg.background,
            prefer_xbox_mode: cfg.prefer_xbox_mode,
            launcher: clone_opt(&cfg.launcher),
            launcher_tags,
            launcher_exec,
        };
        assert(scripts_view(scripts@) =~= planned_scripts(*cfg));
        Ok(BundlePlan { scripts, manifest })
    } else {
        Err(BuildError::BundleOriginUnknown)
    }
}

/// A community bundle that carries launcher tags, a launcher executable or
/// a background flag is refused with `InvalidField` when it is composed
/// (where its own program could be wrapped).
pub proof fn community_fields_refused(cfg: BundleSpec)
    requires
        cfg.homebrew_id.is_some(),
        cfg.launcher_tags.is_some() || cfg.launcher_exec.is_some() || cfg.background.is_some(),
        !(needs_run_script(cfg) && script_for(cfg.exec_command.unwrap()@).is_none()),
    ensures
        plan_outcome(cfg) matches PlanOutcome::InvalidField(_),
{
}

/// The characters of the Unicode property White_Space.
pub open spec fn is_white_space(c: char) -> bool {
    ('\t' <= c && c <= '\r') || c == ' ' || c == '\u{85}' || c == '\u{a0}' || c == '\u{1680}'
        || ('\u{2000}' <= c && c <= '\u{200a}') || c == '\u{2028}' || c == '\u{2029}' || c == '\u{202f}'
        || c == '\u{205f}' || c == '\u{3000}'
}

/// The text without the white space that starts it.
pub open spec fn trim_start_ws(s: Seq<char>) -> Seq<char>
    decreases s.len(),
{
    if s.len() > 0 && is_white_space(s[0]) {
        trim_start_ws(s.drop_first())
    } else {
        s
    }
}

/// The text without the white space that ends it.
pub open spec fn trim_end_ws(s: Seq<char>) -> Seq<char>
    decreases s.len(),
{
    if s.len() > 0 && is_white_space(s.last()) {
        trim_end_ws(s.drop_last())
    } else {
        s
    }
}

/// The text without the white space around it.
pub open spec fn trimmed_of(s: Seq<char>) -> Seq<char> {
    trim_end_ws(trim_start_ws(s))
}

/// Relies on `str::trim`: the text without leading and trailing white space,
/// as the Unicode property White_Space defines it.
#[verifier::external_body]
fn trim_text(s: &str) -> (r: String)
    ensures
        r@ == trimmed_of(s@),
{
    s.trim().to_string()
}

/// The version of a bundle, from the text of its version file, and the name
/// of its archive file, `<stem>_<version>.bundle`.
pub fn bundle_file_name(stem: &str, version_text: &str) -> (r: (String, String))
    ensures
        r.0@ == trimmed_of(version_text@),
        r.1@ == stem@ + "_"@ + trimmed_of(version_text@) + ".bundle"@,
{
    let version = trim_text(version_text);
    let name = output_name(stem, version.as_str());
    (version, name)
}

/// The archive name of a version text that is already trimmed.
pub fn output_name(stem: &str, version: &str) -> (r: String)
    ensures
        r@ == stem@ + "_"@ + version@ + ".bundle"@,
{
    String::from_str(stem).concat("_").concat(version).concat(".bundle")
}

} // verus!
