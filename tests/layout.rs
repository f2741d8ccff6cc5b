use bundle_gen::archive::{entry_options, less_than, plan_archive, ArchiveOp};
use bundle_gen::generate::{bundle_contents, bundle_file_name, elf_seeds, entry_name, output_name, BuildError, PathContext};
use bundle_gen::paths::{file_name, join_path, parent_name};
use bundle_gen::FileEntry;

fn fe(location: &str, name: &str) -> FileEntry {
    FileEntry::new(location.to_string(), name.to_string())
}

fn shown(ops: &[ArchiveOp]) -> Vec<String> {
    ops.iter()
        .map(|o| match &o.location {
            Some(l) => format!("{}<{}", o.name, l),
            None => format!("{}/", o.name),
        })
        .collect()
}

#[test]
fn path_pieces() {
    assert_eq!(file_name("/usr/lib/libfoo.so.1"), "libfoo.so.1");
    assert_eq!(file_name("demo"), "demo");
    assert_eq!(parent_name("/usr/lib/libfoo.so.1"), "/usr/lib");
    assert_eq!(parent_name("demo"), "");
    assert_eq!(parent_name("/demo"), "/");
    assert_eq!(join_path("/", "demo"), "/demo");
    assert_eq!(join_path("res/", "a.txt"), "res/a.txt");
    assert_eq!(join_path("res", "a.txt"), "res/a.txt");
    assert_eq!(join_path("", "a.txt"), "a.txt");
}

#[test]
fn trailing_slash_directory_expands_into_prefix() {
    assert_eq!(entry_name("res", "assets/", true), Some("res".to_string()));
    assert_eq!(entry_name("res", "assets", true), Some("res/assets".to_string()));
    assert_eq!(entry_name("res", "data/assets", true), Some("res/assets".to_string()));
    assert_eq!(entry_name("bin", "build/demo", false), Some("bin/demo".to_string()));
    assert_eq!(entry_name("bin", "", false), None);
    assert_eq!(entry_name("bin", "a/..", false), None);
    assert_eq!(entry_name("bin", ".", true), None);
    assert_eq!(entry_name("bin", "./", true), None);
    assert_eq!(entry_name("res", "x/.", true), Some("res/x".to_string()));
    assert_eq!(entry_name("res", "x/./", true), Some("res".to_string()));
}

#[test]
fn trailing_slash_layouts_differ() {
    let flat = entry_name("res", "assets/", true).unwrap();
    let nested = entry_name("res", "assets", true).unwrap();
    let a = plan_archive(&vec![fe("/w/assets/x.png", &join_path(&flat, "x.png"))]).ok().unwrap();
    let b = plan_archive(&vec![fe("/w/assets/x.png", &join_path(&nested, "x.png"))]).ok().unwrap();
    assert_eq!(shown(&a), vec!["res/", "res/x.png</w/assets/x.png"]);
    assert_eq!(shown(&b), vec!["res/", "res/assets/", "res/assets/x.png</w/assets/x.png"]);
}

#[test]
fn path_context_prefers_earlier_roots() {
    let pc = PathContext::new(vec!["/cwd".to_string(), "/spec".to_string()]);
    assert_eq!(pc.candidates("VERSION"), vec!["/cwd/VERSION", "/spec/VERSION"]);
    assert_eq!(pc.find_path("VERSION", &vec![true, true]).ok(), Some("/cwd/VERSION".to_string()));
    assert_eq!(pc.find_path("VERSION", &vec![false, true]).ok(), Some("/spec/VERSION".to_string()));
    match pc.find_path("VERSION", &vec![false, false]) {
        Err(BuildError::Find(t)) => assert_eq!(t, "VERSION"),
        _ => panic!("expected a lookup failure"),
    }
}

#[test]
fn archive_is_sorted_with_directories() {
    let ops = plan_archive(&vec![
        fe("/b/c", "res/a/c.txt"),
        fe("/b/demo", "bin/demo"),
        fe("/b/b", "res/a/b.txt"),
        fe("/b/top", "res/top"),
    ])
    .ok()
    .unwrap();
    assert_eq!(
        shown(&ops),
        vec![
            "bin/",
            "bin/demo</b/demo",
            "res/",
            "res/a/",
            "res/a/b.txt</b/b",
            "res/a/c.txt</b/c",
            "res/top</b/top",
        ]
    );
}

#[test]
fn layout_depends_only_on_the_entries() {
    let a = plan_archive(&vec![fe("/1", "a/b/c"), fe("/2", "a/d"), fe("/3", "e")]).ok().unwrap();
    let b = plan_archive(&vec![fe("/3", "e"), fe("/2", "a/d"), fe("/1", "a/b/c"), fe("/3", "e")]).ok().unwrap();
    assert_eq!(shown(&a), shown(&b));
    assert_eq!(shown(&a), vec!["a/", "a/b/", "a/b/c</1", "a/d</2", "e</3"]);
}

#[test]
fn equal_duplicates_collapse() {
    let ops = plan_archive(&vec![
        fe("/usr/lib/libfoo.so.1.2.3", "lib/libfoo.so.1"),
        fe("/usr/lib/libfoo.so.1.2.3", "lib/libfoo.so.1"),
    ])
    .ok()
    .unwrap();
    assert_eq!(shown(&ops), vec!["lib/", "lib/libfoo.so.1</usr/lib/libfoo.so.1.2.3"]);
}

#[test]
fn duplicate_name_conflict() {
    match plan_archive(&vec![fe("/a/demo", "bin/demo"), fe("/b/demo", "bin/demo")]) {
        Err(BuildError::DuplicateZipFileEntry(n)) => assert_eq!(n, "bin/demo"),
        _ => panic!("expected a duplicate entry"),
    }
}

#[test]
fn first_conflict_is_named() {
    let files = vec![
        fe("/a/x", "x"),
        fe("/a/y", "y"),
        fe("/b/y", "y"),
        fe("/b/x", "x"),
    ];
    match plan_archive(&files) {
        Err(BuildError::DuplicateZipFileEntry(n)) => assert_eq!(n, "y"),
        _ => panic!("expected a duplicate entry"),
    }
}

#[test]
fn empty_archive_plan() {
    assert!(plan_archive(&vec![]).ok().unwrap().is_empty());
}

#[test]
fn name_order_is_by_character() {
    assert!(less_than("a", "b"));
    assert!(less_than("a", "ab"));
    assert!(!less_than("ab", "a"));
    assert!(!less_than("a", "a"));
    assert!(less_than("B", "a"));
}

#[test]
fn entry_options_keep_mode_and_mark_large_files() {
    let o = entry_options(10, 0o755);
    assert_eq!(o.permissions, 0o755);
    assert!(!o.large_file);
    assert!(!entry_options((1u64 << 32) - 1, 0o644).large_file);
    assert!(entry_options(1u64 << 32, 0o644).large_file);
}

#[test]
fn version_and_output_name() {
    let (v, n) = bundle_file_name("demo", " 0.1\n");
    assert_eq!(v, "0.1");
    assert_eq!(n, "demo_0.1.bundle");
    assert_eq!(output_name("demo", "2"), "demo_2.bundle");
}

#[test]
fn seed_and_content_order() {
    let e = vec![fe("/x/demo", "bin/demo")];
    let x = vec![fe("/x/plugin", "_unused/plugin")];
    let l = vec![fe("/x/libq.so", "lib/libq.so")];
    let r = vec![fe("/x/a.png", "res/a.png")];
    let d = vec![fe("/usr/lib/libz.so.1", "lib/libz.so.1")];
    let s: Vec<String> = elf_seeds(&e, &x, &l).iter().map(|f| f.name.clone()).collect();
    assert_eq!(s, vec!["bin/demo", "_unused/plugin", "lib/libq.so"]);
    let c: Vec<String> = bundle_contents(&e, &l, &r, &d).iter().map(|f| f.name.clone()).collect();
    assert_eq!(c, vec!["bin/demo", "lib/libq.so", "res/a.png", "lib/libz.so.1"]);
}
