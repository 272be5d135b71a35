use lazy_java::resources::{copy_needed, external_entry, name_extension, output_entry, source_entry, OutputAction, ResourceAction};
use lazy_java::args::{LazyJavaArgs, LazyJavaCommand, LazyJavaGlobalArgs, SyncArgs};
use lazy_java::config::{Config, ConfigProject, ConfigResources, ConfigSetup};
use lazy_java::context::{find_root, join_path, Context, DirLevel, FolderFacts, RootError};
use lazy_java::errors::ContextError;
use lazy_java::find_main::find_main_classes;
use lazy_java::dep_graph::SourceFile;
use lazy_java::javac::{compile_command, join_with};
use lazy_java::maven::create_maven_url;
use lazy_java::metadata::{
    find_modified_files, hash_files, metadata_after_build, required_full_build, BuildFingerprint, BuildMetadata, FileStamp,
};

#[test]
fn new_creates_default_metadata() {
    let meta = BuildMetadata::new();
    assert_eq!(meta.java_version, "");
    assert_eq!(meta.lib_hash, 0);
    assert_eq!(meta.bin_hash, 0);
    assert_eq!(meta.local_libs_hash, 0);
    assert!(!meta.build_passed);
}

fn meta_at(time: u128) -> BuildMetadata {
    let mut m = BuildMetadata::new();
    m.time_stamp = time;
    m.java_version = "21".to_string();
    m
}

#[test]
fn modified_files_are_those_newer_than_the_build() {
    let files = vec![
        FileStamp { path: "a".to_string(), modified: 5 },
        FileStamp { path: "b".to_string(), modified: 10 },
        FileStamp { path: "c".to_string(), modified: 11 },
    ];
    assert_eq!(find_modified_files(&meta_at(10), &files), vec!["c".to_string()]);
    assert_eq!(find_modified_files(&meta_at(0), &files).len(), 3);
}

fn fingerprint() -> BuildFingerprint {
    BuildFingerprint { lib_hash: 0, lib_annotations_hash: 0, local_libs_hash: 0, java_version: "21".to_string(), same_src: true }
}

#[test]
fn full_build_when_anything_changed() {
    let m = meta_at(1);
    assert!(required_full_build(false, None, &fingerprint()));
    assert!(!required_full_build(false, Some(&m), &fingerprint()));
    assert!(required_full_build(true, Some(&m), &fingerprint()));
    let mut f = fingerprint();
    f.lib_hash = 7;
    assert!(required_full_build(false, Some(&m), &f));
    let mut f = fingerprint();
    f.java_version = "17".to_string();
    assert!(required_full_build(false, Some(&m), &f));
    let mut f = fingerprint();
    f.same_src = false;
    assert!(required_full_build(false, Some(&m), &f));
}

#[test]
fn failed_build_keeps_the_previous_time() {
    let prev = meta_at(42);
    let src = "src".to_string();
    let ok = metadata_after_build(true, Some(&prev), 100, "21", &src, 1, 2, 3, 4);
    assert_eq!(ok.time_stamp, 100);
    assert!(ok.build_passed);
    assert_eq!(ok.bin_hash, 3);
    let failed = metadata_after_build(false, Some(&prev), 100, "21", &src, 1, 2, 3, 4);
    assert_eq!(failed.time_stamp, 42);
    assert!(!failed.build_passed);
    let first = metadata_after_build(false, None, 100, "21", &src, 1, 2, 3, 4);
    assert_eq!(first.time_stamp, 0);
}

#[test]
fn hash_files_is_deterministic_and_sensitive() {
    let paths = vec!["lib.jar".to_string()];
    let a = hash_files(&paths, &vec![Some(b"AAAA".to_vec())]);
    let b = hash_files(&paths, &vec![Some(b"AAAA".to_vec())]);
    let c = hash_files(&paths, &vec![Some(b"BBBB".to_vec())]);
    assert_eq!(a, b);
    assert_ne!(a, c);
}

#[test]
fn maven_url_turns_group_dots_into_folders() {
    assert_eq!(
        create_maven_url("org.apache.commons", "commons-lang3"),
        "https://repo1.maven.org/maven2/org/apache/commons/commons-lang3/"
    );
}

#[test]
fn javac_command_lists_flags_then_arguments_then_sources() {
    let args = vec!["-g".to_string()];
    let sources = vec!["A.java".to_string(), "B.java".to_string()];
    let cmd = compile_command(Some("out"), Some("cp"), None, Some("gen"), Some("17"), &args, &sources);
    assert_eq!(cmd, vec!["-d", "out", "-classpath", "cp", "-s", "gen", "--release", "17", "-g", "A.java", "B.java"]);
    assert_eq!(join_with(':', &vec!["a".to_string(), "b".to_string(), "c".to_string()]), "a:b:c");
    assert_eq!(join_with(':', &Vec::new()), "");
}

fn args(source: Option<&str>) -> LazyJavaArgs {
    LazyJavaArgs {
        command: LazyJavaCommand::Sync { args: SyncArgs { dry_run: false } },
        global_args: LazyJavaGlobalArgs { verbose: 0, source: source.map(|s| s.to_string()), build: None, lib: None },
    }
}

fn config(bin: Option<&str>) -> Config {
    Config {
        project: ConfigProject { name: "demo".to_string(), group: None, artifact: None, version: None },
        setup: ConfigSetup {
            src: Some("java".to_string()),
            bin: bin.map(|s| s.to_string()),
            lib: None,
            target: None,
            main_class: None,
            release: None,
            exclude: Vec::new(),
        },
        resources: ConfigResources { exclude: Vec::new(), external: Vec::new() },
        processors: Vec::new(),
        dependencies: Vec::new(),
    }
}

#[test]
fn context_prefers_command_line_then_config_then_default() {
    let ctx = Context::new(&args(Some("cli-src")), "/w".to_string(), "/w/proj".to_string(), config(Some("/abs/out")));
    assert_eq!(ctx.relative_src, "cli-src");
    assert_eq!(ctx.src, "/w/proj/cli-src");
    assert_eq!(ctx.bin, "/abs/out");
    assert_eq!(ctx.lib, "/w/proj/lib");
    let ctx = Context::new(&args(None), "/w".to_string(), "/w/proj/".to_string(), config(None));
    assert_eq!(ctx.src, "/w/proj/java");
    assert_eq!(ctx.bin, "/w/proj/bin");
    assert_eq!(join_path(&"".to_string(), &"x".to_string()), "x");
}

#[test]
fn context_checks_folders_in_order() {
    let ctx = Context::new(&args(None), "/w".to_string(), "/w".to_string(), config(None));
    let yes = |p: &str| FolderFacts { exists: true, absolute: p.to_string() };
    let no = |p: &str| FolderFacts { exists: false, absolute: p.to_string() };
    assert!(ctx.assert_build_lib_src(&yes("/s"), &yes("/b"), &yes("/l")).is_ok());
    assert!(matches!(ctx.assert_build_lib_src(&yes("/s"), &no("/b"), &no("/l")), Err(ContextError::NoBuild(p)) if p == "/b"));
    assert!(matches!(ctx.assert_src_exists(false, &"/s".to_string()), Err(ContextError::NoSource(_))));
}

#[test]
fn find_root_stops_at_the_first_marker() {
    let level = |p: &str, names: &[&str]| DirLevel { path: p.to_string(), listing: Ok(names.iter().map(|n| n.to_string()).collect()) };
    let levels = vec![level("/a/b", &["src", "README"]), level("/a", &["pom.xml"]), level("/", &[".git"])];
    assert_eq!(find_root(&levels).unwrap(), "/a");
    assert!(matches!(find_root(&vec![level("/x", &["y"])]), Err(RootError::NotFound)));
    let broken = vec![DirLevel { path: "/z".to_string(), listing: Err("denied".to_string()) }, level("/", &[".git"])];
    assert!(matches!(find_root(&broken), Err(RootError::Io(m)) if m == "denied"));
}

#[test]
fn main_classes_are_found_per_main_method() {
    let files = vec![
        SourceFile {
            path: "src/App.java".to_string(),
            file_name: "App.java".to_string(),
            contents: "public class App {\n public static void main(String[] a) {\n }\n}\n".to_string(),
        },
        SourceFile { path: "src/Lib.java".to_string(), file_name: "Lib.java".to_string(), contents: "class Lib { }\n".to_string() },
    ];
    let mains = find_main_classes(&files).unwrap();
    assert_eq!(mains.len(), 1);
    assert_eq!(mains[0].classname, "App");
    assert_eq!(mains[0].path, "src/App.java");
}

#[test]
fn file_extensions_follow_the_last_dot() {
    assert_eq!(name_extension(&"Main.java".to_string()).as_deref(), Some("java"));
    assert_eq!(name_extension(&"archive.tar.gz".to_string()).as_deref(), Some("gz"));
    assert_eq!(name_extension(&"trailing.".to_string()).as_deref(), Some(""));
    assert_eq!(name_extension(&".bashrc".to_string()), None);
    assert_eq!(name_extension(&"Makefile".to_string()), None);
    assert_eq!(name_extension(&"..".to_string()), None);
    assert_eq!(name_extension(&"..x".to_string()).as_deref(), Some("x"));
}

#[test]
fn source_tree_entries_are_copied_unless_java_or_excluded() {
    let none: Vec<String> = Vec::new();
    let s = |x: &str| x.to_string();
    assert_eq!(source_entry(&none, &s("src/app.properties"), &s("app.properties"), false), Some(ResourceAction::Copy));
    assert_eq!(source_entry(&none, &s("src/Main.java"), &s("Main.java"), false), Some(ResourceAction::Skip));
    assert_eq!(source_entry(&none, &s("src/pkg"), &s("pkg"), true), Some(ResourceAction::Descend));
    let exclude = vec![s("*.md")];
    assert_eq!(source_entry(&exclude, &s("src/README.md"), &s("README.md"), false), Some(ResourceAction::Skip));
    assert_eq!(source_entry(&exclude, &s("src/notes.txt"), &s("notes.txt"), false), Some(ResourceAction::Copy));
    let by_name = vec![s("generated")];
    assert_eq!(source_entry(&by_name, &s("/abs/src/generated"), &s("generated"), true), Some(ResourceAction::Skip));
}

#[test]
fn external_entries_follow_the_external_globs() {
    let s = |x: &str| x.to_string();
    let external = vec![s("config/*.yml")];
    assert_eq!(external_entry(&external, &s("config/app.yml"), &s("app.yml"), false, false), Some(ResourceAction::Copy));
    assert_eq!(external_entry(&external, &s("config/app.json"), &s("app.json"), false, false), Some(ResourceAction::Skip));
    assert_eq!(external_entry(&external, &s("config"), &s("config"), true, false), Some(ResourceAction::Descend));
    assert_eq!(external_entry(&external, &s(".git"), &s(".git"), true, false), Some(ResourceAction::Skip));
    assert_eq!(external_entry(&external, &s("src"), &s("src"), true, true), Some(ResourceAction::Skip));
}

#[test]
fn stale_copies_are_refreshed() {
    assert!(copy_needed(false, 0, 0));
    assert!(copy_needed(true, 5, 3));
    assert!(!copy_needed(true, 3, 3));
    assert!(!copy_needed(true, 2, 3));
}

#[test]
fn class_files_and_resources_stay_in_the_class_folder() {
    let s = |x: &str| x.to_string();
    let kept = vec![s("bin/app.properties")];
    assert_eq!(output_entry(false, &s("Main.class"), &s("bin/Main.class"), &kept), OutputAction::Keep);
    assert_eq!(output_entry(false, &s("app.properties"), &s("bin/app.properties"), &kept), OutputAction::Keep);
    assert_eq!(output_entry(false, &s("old.txt"), &s("bin/old.txt"), &kept), OutputAction::Remove);
    assert_eq!(output_entry(true, &s("pkg"), &s("bin/pkg"), &kept), OutputAction::Descend);
}

fn walk(entries: &[(u64, &str)]) -> Vec<lazy_java::metadata::WalkEntry> {
    let mut v = vec![lazy_java::metadata::WalkEntry { len: Some(4096), relative: Some(String::new()) }];
    for (len, rel) in entries {
        v.push(lazy_java::metadata::WalkEntry { len: Some(*len), relative: Some(rel.to_string()) });
    }
    v
}

#[test]
fn hash_directory_is_deterministic() {
    let tree = [(5, "a.txt"), (5, "b.txt"), (4096, "sub"), (1, "sub/c.txt")];
    assert_eq!(lazy_java::metadata::hash_directory(&walk(&tree)), lazy_java::metadata::hash_directory(&walk(&tree)));
}

#[test]
fn hash_directory_changes_when_file_added() {
    let before = lazy_java::metadata::hash_directory(&walk(&[(5, "a.txt")]));
    let after = lazy_java::metadata::hash_directory(&walk(&[(5, "a.txt"), (5, "b.txt")]));
    assert_ne!(before, after);
}

#[test]
fn hash_directory_changes_when_file_removed() {
    let before = lazy_java::metadata::hash_directory(&walk(&[(5, "a.txt"), (5, "b.txt")]));
    let after = lazy_java::metadata::hash_directory(&walk(&[(5, "a.txt")]));
    assert_ne!(before, after);
}

#[test]
fn hash_files_changes_when_content_changes() {
    let paths = vec!["/tmp/lib.jar".to_string()];
    let before = hash_files(&paths, &vec![Some(b"AAAA".to_vec())]);
    let after = hash_files(&paths, &vec![Some(b"BBBB".to_vec())]);
    assert_ne!(before, after);
}

#[test]
fn hash_files_is_deterministic() {
    let paths = vec!["/tmp/lib.jar".to_string()];
    let contents = vec![Some(b"hello-world".to_vec())];
    assert_eq!(hash_files(&paths, &contents), hash_files(&paths, &contents));
}

#[test]
fn hash_files_changes_when_file_added() {
    let before = hash_files(&vec!["/tmp/a.jar".to_string()], &vec![Some(b"A".to_vec())]);
    let after = hash_files(
        &vec!["/tmp/a.jar".to_string(), "/tmp/b.jar".to_string()],
        &vec![Some(b"A".to_vec()), Some(b"B".to_vec())],
    );
    assert_ne!(before, after);
}

#[test]
fn hash_files_changes_when_file_removed() {
    let before = hash_files(
        &vec!["/tmp/a.jar".to_string(), "/tmp/b.jar".to_string()],
        &vec![Some(b"A".to_vec()), Some(b"B".to_vec())],
    );
    let after = hash_files(&vec!["/tmp/a.jar".to_string()], &vec![Some(b"A".to_vec())]);
    assert_ne!(before, after);
}
