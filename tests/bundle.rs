use bundle_gen::config::{BuildSpec, BundleSpec, BundleType};
use bundle_gen::generate::{plan_bundle, BuildError};
use bundle_gen::launcher::{launcher_script, make_launcher_sh, SCRIPT_HEAD};
use bundle_gen::ldcache::{alias_probes, LdError, Resolver};
use bundle_gen::manifest::Manifest;
use bundle_gen::FileEntry;

fn cache(entries: &[(&str, &str)]) -> ldcache_rs::Cache {
    let mut c = ldcache_rs::Cache::default();
    for (name, path) in entries {
        let mut e = ldcache_rs::Entry::default();
        e.libname = vec![name.to_string()];
        e.path = vec![path.to_string()];
        c.entries.insert(name.to_string(), e);
    }
    c
}

fn words(v: &[&str]) -> Vec<String> {
    v.iter().map(|s| s.to_string()).collect()
}

fn names(v: &[FileEntry]) -> Vec<(String, String)> {
    v.iter().map(|e| (e.name.clone(), e.location.clone())).collect()
}

fn build() -> BuildSpec {
    BuildSpec {
        version_file: "VERSION".to_string(),
        required_packages: None,
        build_command: None,
        executables: Some(vec!["demo".to_string()]),
        libraries: None,
        resources: None,
        extra_elf_files: None,
        required_modules: None,
    }
}

fn demo_spec() -> BundleSpec {
    BundleSpec {
        name: "demo".to_string(),
        bundle_type: BundleType::Game,
        store_id: None,
        homebrew_id: Some("hb1".to_string()),
        exec_command: Some("bin/demo".to_string()),
        background: None,
        prefer_xbox_mode: None,
        launcher: None,
        launcher_tags: None,
        launcher_exec: None,
        runner_patch: None,
        build: build(),
    }
}

/// Adds a seed whose probes resolve as `canon_of` says.
fn seed(r: &mut Resolver, e: &FileEntry, canon_of: &dyn Fn(&str) -> Option<String>) {
    let probes = alias_probes(&e.location);
    let canon: Vec<Option<String>> = probes.iter().map(|p| canon_of(p)).collect();
    r.add_seed(e, &canon);
}

fn script(program: &str, args: &str) -> String {
    format!("{}{}\" {} \"$@\"\n\n", SCRIPT_HEAD, program, args)
}

#[test]
fn run_script_text() {
    let s = make_launcher_sh("bin/demo").ok().unwrap();
    assert!(s.starts_with("#!/bin/sh\n"));
    assert!(s.contains("export LD_LIBRARY_PATH=\"${LD_LIBRARY_PATH}:${P}/lib\""));
    assert!(s.ends_with("\"${P}/bin/demo\"  \"$@\"\n\n"));
    assert_eq!(s, script("bin/demo", ""));
}

#[test]
fn script_arguments_are_quoted() {
    let s = make_launcher_sh("bin/demo --full 'a b'").ok().unwrap();
    assert!(s.ends_with("\"${P}/bin/demo\" '--full' 'a b' \"$@\"\n\n"));
    let t = launcher_script("x", Some(words(&["bin/run", "-v"]))).ok().unwrap();
    assert_eq!(t, script("bin/run", "'-v'"));
}

#[test]
fn script_words_are_escaped() {
    let t = launcher_script("x", Some(words(&["bin/a\"$b`c\\", "it's"]))).ok().unwrap();
    assert!(t.ends_with("\"${P}/bin/a\\\"\\$b\\`c\\\\\" 'it'\\''s' \"$@\"\n\n"));
    let s = make_launcher_sh("bin/demo \"don't\"").ok().unwrap();
    assert!(s.ends_with("\"${P}/bin/demo\" 'don'\\''t' \"$@\"\n\n"));
}

#[test]
fn unsplittable_command_is_kept_whole() {
    let s = make_launcher_sh("bin/demo 'open").ok().unwrap();
    assert_eq!(s, script("bin/demo 'open", ""));
}

#[test]
fn empty_command_is_refused() {
    match make_launcher_sh("   ") {
        Err(BuildError::BadCommand(c)) => assert_eq!(c, "   "),
        _ => panic!("expected a bad command"),
    }
    assert!(matches!(launcher_script("", Some(vec![])), Err(BuildError::BadCommand(_))));
}

#[test]
fn trivial_game_bundle() {
    let p = plan_bundle(&demo_spec(), &"0.1".to_string()).ok().unwrap();
    assert_eq!(p.scripts.len(), 1);
    assert_eq!(p.scripts[0].0, "run.sh");
    assert_eq!(p.scripts[0].1, script("bin/demo", ""));
    assert_eq!(p.manifest.exec_command, Some("run.sh".to_string()));
    assert_eq!(p.manifest.version, Some("0.1".to_string()));
    assert_eq!(p.manifest.homebrew_id, Some("hb1".to_string()));
    let ini = p.manifest.to_ini();
    assert_eq!(ini, "[Bundle]\nName=demo\nType=Game\nHomebrewID=hb1\nExec=run.sh\nVersion=0.1\n");
}

#[test]
fn external_launcher_keeps_exec() {
    let mut s = demo_spec();
    s.launcher = Some("retro".to_string());
    let p = plan_bundle(&s, &"1".to_string()).ok().unwrap();
    assert!(p.scripts.is_empty());
    assert_eq!(p.manifest.exec_command, Some("bin/demo".to_string()));
    assert_eq!(p.manifest.launcher, Some("retro".to_string()));
}

#[test]
fn launcher_only_store_bundle() {
    let s = BundleSpec {
        name: "launcher".to_string(),
        bundle_type: BundleType::LauncherOnly,
        store_id: Some("store42".to_string()),
        homebrew_id: None,
        exec_command: None,
        background: None,
        prefer_xbox_mode: Some(true),
        launcher: None,
        launcher_tags: Some(vec!["games".to_string()]),
        launcher_exec: Some("bin/launcher".to_string()),
        runner_patch: None,
        build: build(),
    };
    let p = plan_bundle(&s, &"3".to_string()).ok().unwrap();
    assert_eq!(p.scripts.len(), 1);
    assert_eq!(p.scripts[0].0, "launch.sh");
    assert_eq!(p.scripts[0].1, script("bin/launcher", ""));
    assert_eq!(p.manifest.exec_command, None);
    assert_eq!(p.manifest.launcher_exec, Some("launch.sh".to_string()));
    assert_eq!(p.manifest.launcher_tags, vec!["games".to_string()]);
    assert_eq!(
        p.manifest.to_ini(),
        "[Bundle]\nName=launcher\nType=LauncherOnly\nStoreID=store42\nVersion=3\nPreferXBoxMode=true\nLauncherTags=games\nLauncherExec=launch.sh\n"
    );
}

#[test]
fn community_launcher_fields_are_invalid() {
    let mut s = demo_spec();
    s.launcher_tags = Some(vec![]);
    match plan_bundle(&s, &"1".to_string()) {
        Err(BuildError::InvalidField(f)) => assert_eq!(f, "LauncherTags"),
        _ => panic!("expected an invalid field"),
    }
    let mut s = demo_spec();
    s.launcher_exec = Some("bin/l".to_string());
    match plan_bundle(&s, &"1".to_string()) {
        Err(BuildError::InvalidField(f)) => assert_eq!(f, "LauncherExec"),
        _ => panic!("expected an invalid field"),
    }
    let mut s = demo_spec();
    s.background = Some(true);
    match plan_bundle(&s, &"1".to_string()) {
        Err(BuildError::InvalidField(f)) => assert_eq!(f, "Background"),
        _ => panic!("expected an invalid field"),
    }
}

#[test]
fn store_launcher_fields_must_pair() {
    let mut s = demo_spec();
    s.homebrew_id = None;
    s.store_id = Some("s1".to_string());
    s.launcher_exec = Some("bin/l".to_string());
    match plan_bundle(&s, &"1".to_string()) {
        Err(BuildError::MissingField(f)) => assert_eq!(f, "LauncherTags"),
        _ => panic!("expected a missing field"),
    }
    s.launcher_exec = None;
    s.launcher_tags = Some(vec!["t".to_string()]);
    match plan_bundle(&s, &"1".to_string()) {
        Err(BuildError::MissingField(f)) => assert_eq!(f, "LauncherExec"),
        _ => panic!("expected a missing field"),
    }
}

#[test]
fn origin_unknown_and_bad_command() {
    let mut s = demo_spec();
    s.homebrew_id = None;
    assert!(matches!(plan_bundle(&s, &"1".to_string()), Err(BuildError::BundleOriginUnknown)));
    let mut s = demo_spec();
    s.exec_command = Some("  ".to_string());
    assert!(matches!(plan_bundle(&s, &"1".to_string()), Err(BuildError::BadCommand(_))));
}

#[test]
fn manifest_lists_and_flags() {
    let m = Manifest {
        name: "n".to_string(),
        bundle_type: BundleType::Application,
        store_id: Some("s".to_string()),
        homebrew_id: None,
        exec_command: None,
        version: None,
        background: Some(false),
        prefer_xbox_mode: None,
        launcher: Some("l".to_string()),
        launcher_tags: vec!["a".to_string(), "b".to_string()],
        launcher_exec: Some("launch.sh".to_string()),
    };
    assert_eq!(
        m.to_ini(),
        "[Bundle]\nName=n\nType=Application\nStoreID=s\nBackground=false\nLauncher=l\nLauncherTags=a,b\nLauncherExec=launch.sh\n"
    );
}

#[test]
fn alias_probes_at_the_root() {
    assert_eq!(alias_probes(&"/libz.so".to_string()), vec!["/libz", "/libz.so"]);
}

#[test]
fn alias_probe_paths() {
    let p = alias_probes(&"/usr/lib/libfoo.so.1.2".to_string());
    assert_eq!(
        p,
        vec![
            "/usr/lib/libfoo",
            "/usr/lib/libfoo.so",
            "/usr/lib/libfoo.so.1",
            "/usr/lib/libfoo.so.1.2"
        ]
    );
}

#[test]
fn baseline_library_is_not_shipped() {
    let base = cache(&[("libc.so.6", "/lib/libc.so.6")]);
    let build = cache(&[("libc.so.6", "/lib/libc.so.6")]);
    let mut r = Resolver::new();
    seed(&mut r, &FileEntry::new("/w/demo".to_string(), "bin/demo".to_string()), &|_| None);
    assert_eq!(r.next_path(), Some("/w/demo".to_string()));
    assert!(r.process(&words(&["libc.so.6"]), &base, &build).is_ok());
    assert!(r.is_done());
    assert!(r.into_entries().is_empty());
}

/// Runs the resolver to the end, as the caller of the library does, with
/// the needed names of each file and the canonical form of each path given.
fn run(
    r: &mut Resolver,
    needed: &dyn Fn(&str) -> Vec<String>,
    canon_of: &dyn Fn(&str) -> Option<String>,
    base: &ldcache_rs::Cache,
    build: &ldcache_rs::Cache,
) -> Result<(), LdError> {
    loop {
        if let Some(lib) = r.next_pending() {
            let canon: Vec<Option<String>> = alias_probes(&lib).iter().map(|p| canon_of(p)).collect();
            r.add_lib_aliases(&lib, &canon);
        } else if let Some(item) = r.next_path() {
            r.process(&needed(&item), base, build)?;
        } else {
            return Ok(());
        }
    }
}

#[test]
fn private_library_ships_with_aliases() {
    let base = cache(&[("libc.so.6", "/lib/libc.so.6")]);
    let lib = "/usr/lib/libfoo.so.1.2.3";
    let build = cache(&[("libfoo.so.1", lib)]);
    let mut r = Resolver::new();
    seed(&mut r, &FileEntry::new("/w/demo".to_string(), "bin/demo".to_string()), &|_| None);
    let needed = |p: &str| {
        if p == "/w/demo" {
            words(&["libc.so.6", "libfoo.so.1"])
        } else {
            words(&["libc.so.6"])
        }
    };
    let canon_of = |p: &str| {
        if p == "/usr/lib/libfoo.so" || p == "/usr/lib/libfoo.so.1" || p == lib {
            Some(lib.to_string())
        } else {
            None
        }
    };
    assert!(run(&mut r, &needed, &canon_of, &base, &build).is_ok());
    let mut got = names(&r.into_entries());
    got.sort();
    assert_eq!(
        got,
        vec![
            ("lib/libfoo.so".to_string(), lib.to_string()),
            ("lib/libfoo.so.1".to_string(), lib.to_string()),
            ("lib/libfoo.so.1.2.3".to_string(), lib.to_string()),
        ]
    );
}

#[test]
fn seed_library_ships_its_aliases_when_needed() {
    let base = cache(&[("libc.so.6", "/lib/libc.so.6")]);
    let build = cache(&[]);
    let lib = "/usr/lib/libfoo.so.1.2.3";
    let mut r = Resolver::new();
    seed(&mut r, &FileEntry::new("/w/demo".to_string(), "bin/demo".to_string()), &|_| None);
    seed(&mut r, &FileEntry::new(lib.to_string(), "lib/libfoo.so.1.2.3".to_string()), &|p| {
        if p == "/usr/lib/libfoo.so" || p == "/usr/lib/libfoo.so.1" || p == lib {
            Some(lib.to_string())
        } else {
            None
        }
    });
    assert_eq!(r.next_path(), Some(lib.to_string()));
    assert!(r.process(&words(&["libc.so.6"]), &base, &build).is_ok());
    assert_eq!(r.next_path(), Some("/w/demo".to_string()));
    assert!(r.process(&words(&["libc.so.6", "libfoo.so.1", "libfoo.so"]), &base, &build).is_ok());
    assert!(r.next_path().is_none());
    assert_eq!(
        names(&r.into_entries()),
        vec![
            ("lib/libfoo.so.1".to_string(), lib.to_string()),
            ("lib/libfoo.so".to_string(), lib.to_string())
        ]
    );
}

#[test]
fn build_cache_library_is_shipped_once() {
    let base = cache(&[]);
    let build = cache(&[("libz.so.1", "/usr/lib/libz.so.1.2"), ("libz.so", "/usr/lib/libz.so.1.2")]);
    let mut r = Resolver::new();
    seed(&mut r, &FileEntry::new("/w/demo".to_string(), "bin/demo".to_string()), &|_| None);
    r.next_path();
    assert!(r.process(&words(&["libz.so.1", "libz.so.1", "libz.so"]), &base, &build).is_ok());
    assert_eq!(r.next_path(), Some("/usr/lib/libz.so.1.2".to_string()));
    assert!(r.next_path().is_none());
    assert_eq!(
        names(&r.into_entries()),
        vec![("lib/libz.so.1".to_string(), "/usr/lib/libz.so.1.2".to_string())]
    );
}

#[test]
fn seed_is_not_shipped_again() {
    let base = cache(&[]);
    let build = cache(&[("libq.so", "/w/libq.so")]);
    let mut r = Resolver::new();
    seed(&mut r, &FileEntry::new("/w/demo".to_string(), "bin/demo".to_string()), &|_| None);
    seed(&mut r, &FileEntry::new("/w/libq.so".to_string(), "lib/libq.so".to_string()), &|_| None);
    r.next_path();
    r.next_path();
    assert!(r.process(&words(&["libq.so"]), &base, &build).is_ok());
    assert!(r.into_entries().is_empty());
}

#[test]
fn missing_dependency() {
    let base = cache(&[("libc.so.6", "/lib/libc.so.6")]);
    let build = cache(&[]);
    let mut r = Resolver::new();
    seed(&mut r, &FileEntry::new("/w/demo".to_string(), "bin/demo".to_string()), &|_| None);
    r.next_path();
    match r.process(&words(&["libc.so.6", "libmissing.so.7"]), &base, &build) {
        Err(LdError::MissingDependency(d)) => assert_eq!(d, "libmissing.so.7"),
        _ => panic!("expected a missing dependency"),
    }
}

#[test]
fn scanning_other_formats() {
    let base = cache(&[]);
    let build = cache(&[]);
    let mut r = Resolver::new();
    seed(&mut r, &FileEntry::new("/w/run".to_string(), "_unused/run".to_string()), &|_| None);
    r.next_path();
    let script = b"#!/bin/sh\necho this is a shell script, not an object file\n".to_vec();
    assert!(r.scan(&script, &base, &build).is_ok());
    assert!(matches!(r.scan(&b"#!".to_vec(), &base, &build), Err(LdError::Elf(_))));
    assert!(r.into_entries().is_empty());
}
