//! The bundle's metadata document, `bundle.ini`.
use vstd::prelude::*;

use crate::config::BundleType;

verus! {

/// The metadata of a bundle. Unset fields are left out of the document.
pub struct Manifest {
    pub name: String,
    pub bundle_type: BundleType,
    pub store_id: Option<String>,
    pub homebrew_id: Option<String>,
    /// The program that starts the bundle.
    pub exec_command: Option<String>,
    pub version: Option<String>,
    pub background: Option<bool>,
    pub prefer_xbox_mode: Option<bool>,
    /// The launcher that this bundle needs.
    pub launcher: Option<String>,
    /// The tags of the launcher that this bundle provides.
    pub launcher_tags: Vec<String>,
    /// The launcher that this bundle provides.
    pub launcher_exec: Option<String>,
}

pub open spec fn kind_name(t: BundleType) -> Seq<char> {
    match t {
        BundleType::Game => "Game"@,
        BundleType::Application => "Application"@,
        BundleType::LauncherOnly => "LauncherOnly"@,
    }
}

pub open spec fn bool_name(b: bool) -> Seq<char> {
    if b {
        "true"@
    } else {
        "false"@
    }
}

/// A `key=value` line.
pub open spec fn line(key: Seq<char>, value: Seq<char>) -> Seq<char> {
    key + "="@ + value + "\n"@
}

pub open spec fn opt_line(key: Seq<char>, value: Option<String>) -> Seq<char> {
    match value {
        Some(v) => line(key, v@),
        None => Seq::empty(),
    }
}

pub open spec fn opt_bool_line(key: Seq<char>, value: Option<bool>) -> Seq<char> {
    match value {
        Some(b) => line(key, bool_name(b)),
        None => Seq::empty(),
    }
}

/// The items of a list, separated by commas.
pub open spec fn comma_list(v: Seq<String>) -> Seq<char>
    decreases v.len(),
{
    if v.len() == 0 {
        Seq::empty()
    } else if v.len() == 1 {
        v[0]@
    } else {
        comma_list(v.drop_last()) + ","@ + v.last()@
    }
}

/// The document: a `[Bundle]` section with one line per field that is set.
pub open spec fn ini_text(m: Manifest) -> Seq<char> {
    "[Bundle]\n"@ + line("Name"@, m.name@) + line("Type"@, kind_name(m.bundle_type)) + opt_line(
        "StoreID"@,
        m.store_id,
    ) + opt_line("HomebrewID"@, m.homebrew_id) + opt_line("Exec"@, m.exec_command) + opt_line(
        "Version"@,
        m.version,
    ) + opt_bool_line("Background"@, m.background) + opt_bool_line(
        "PreferXBoxMode"@,
        m.prefer_xbox_mode,
    ) + opt_line("Launcher"@, m.launcher) + (if m.launcher_tags@.len() == 0 {
        Seq::empty()
    } else {
        line("LauncherTags"@, comma_list(m.launcher_tags@))
    }) + opt_line("LauncherExec"@, m.launcher_exec)
}

fn push_line(s: &mut String, key: &str, value: &str)
    ensures
        final(s)@ == old(s)@ + line(key@, value@),
{
    s.append(key);
    s.append("=");
    s.append(value);
    s.append("\n");
}

fn push_opt_line(s: &mut String, key: &str, value: &Option<String>)
    ensures
        final(s)@ == old(s)@ + opt_line(key@, *value),
{
    match value {
        Some(v) => push_line(s, key, v.as_str()),
        None => {
            assert(old(s)@ + Seq::<char>::empty() =~= old(s)@);
        },
    }
}

fn push_opt_bool_line(s: &mut String, key: &str, value: Option<bool>)
    ensures
        final(s)@ == old(s)@ + opt_bool_line(key@, value),
{
    match value {
        Some(true) => push_line(s, key, "true"),
        Some(false) => push_line(s, key, "false"),
        None => {
            assert(old(s)@ + Seq::<char>::empty() =~= old(s)@);
        },
    }
}

fn join_commas(v: &Vec<String>) -> (r: String)
    ensures
        r@ == comma_list(v@),
{
    let mut r = String::new();
    let mut i: usize = 0;
    while i < v.len()
        invariant
            i <= v@.len(),
            r@ == comma_list(v@.subrange(0, i as int)),
        decreases v@.len() - i,
    {
        assert(v@.subrange(0, i + 1).drop_last() =~= v@.subrange(0, i as int));
        if i > 0 {
            r.append(",");
        } else {
            assert(r@ =~= Seq::<char>::empty());
        }
        r.append(v[i].as_str());
        i = i + 1;
    }
    assert(v@.subrange(0, v@.len() as int) =~= v@);
    r
}

impl Manifest {
    /// The text of `bundle.ini` for this metadata.
    pub fn to_ini(&self) -> (r: String)
        ensures
            r@ =~= ini_text(*self),
    {
        let mut s = String::from_str("[Bundle]\n");
        push_line(&mut s, "Name", self.name.as_str());
        let t = match self.bundle_type {
            BundleType::Game => "Game",
            BundleType::Application => "Application",
            BundleType::LauncherOnly => "LauncherOnly",
        };
        push_line(&mut s, "Type", t);
        push_opt_line(&mut s, "StoreID", &self.store_id);
        push_opt_line(&mut s, "HomebrewID", &self.homebrew_id);
        push_opt_line(&mut s, "Exec", &self.exec_command);
        push_opt_line(&mut s, "Version", &self.version);
        push_opt_bool_line(&mut s, "Background", self.background);
        push_opt_bool_line(&mut s, "PreferXBoxMode", self.prefer_xbox_mode);
        push_opt_line(&mut s, "Launcher", &self.launcher);
        if self.launcher_tags.len() > 0 {
            let tags = join_commas(&self.launcher_tags);
            push_line(&mut s, "LauncherTags", tags.as_str());
        }
        push_opt_line(&mut s, "LauncherExec", &self.launcher_exec);
        s
    }
}

} // verus!
