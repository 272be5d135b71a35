use lazy_java::errors::LockFileError;
use lazy_java::lock_file::{LockFile, LockFilePackageLocal, LockFilePackageRemote, LocalRootPackage};
use lazy_java::maven::{DependencyType, MavenId, Scope};

fn id(s: &str) -> MavenId {
    let p: Vec<&str> = s.split(':').collect();
    MavenId::new(p[0], p[1], p[2])
}

fn package(coord: &str, deps: &[&str]) -> LockFilePackageRemote {
    LockFilePackageRemote {
        id: id(coord),
        file_name: String::new(),
        url: String::new(),
        dependencies: deps.iter().map(|d| id(d)).collect(),
        packaging: DependencyType::Jar,
        root: false,
        scope: Scope::Compile,
        path: None,
        annotations: Vec::new(),
    }
}

fn root(coord: &str, deps: &[&str]) -> LockFilePackageRemote {
    let mut p = package(coord, deps);
    p.root = true;
    p
}

fn lockfile(packages: Vec<LockFilePackageRemote>) -> LockFile {
    LockFile { packages, local_packages: Vec::new() }
}

fn coords(lock: &LockFile) -> Vec<String> {
    lock.packages.iter().map(|p| p.id.to_display_string()).collect()
}

#[test]
fn transitive_chain() {
    let mut lock = lockfile(vec![
        package("g:a:1.0", &["g:b:1.0"]),
        package("g:b:2.0", &["g:c:1.0"]),
        package("g:c:3.0", &[]),
    ]);

    lock.remove_package("g", "a").unwrap();

    assert!(lock.packages.is_empty());
}

#[test]
fn shared_dependency_transitive() {
    let mut lock = lockfile(vec![
        package("g:a:1.0", &["g:b:1.0", "g:c:1.0"]),
        package("g:b:2.0", &["g:c:1.0"]),
        package("g:c:3.0", &[]),
    ]);

    lock.remove_package("g", "a").unwrap();

    assert!(lock.packages.is_empty());
}

#[test]
fn package_not_found() {
    let mut lock = lockfile(vec![package("g:a:1.0", &[])]);

    let result = lock.remove_package("g", "nonexistent");

    assert!(result.is_err());
    assert_eq!(lock.packages.len(), 1);
}

#[test]
fn transitive_cleans_dependancy_lists() {
    let mut lock = lockfile(vec![
        package("g:x:1.0", &["g:a:1.0"]),
        package("g:a:1.0", &["g:b:1.0", "g:c:1.0"]),
        package("g:b:2.0", &["g:c:1.0"]),
        package("g:c:3.0", &[]),
    ]);

    lock.remove_package("g", "x").unwrap();

    assert!(lock.packages.is_empty());
}

#[test]
fn removing_missing_package_reports_not_found() {
    let mut lock = lockfile(vec![root("g:a:1.0", &[])]);
    assert!(matches!(lock.remove_package("g", "b"), Err(LockFileError::PackageNotFound)));
    assert_eq!(coords(&lock), vec!["g:a:1.0".to_string()]);
}

#[test]
fn remove_returns_the_first_match_and_keeps_roots() {
    let mut lock = lockfile(vec![
        root("g:app:1.0", &["g:lib:1.0"]),
        package("g:lib:1.0", &[]),
        root("g:tool:2.0", &["g:lib:1.0"]),
    ]);
    let removed = lock.remove_package("g", "app").unwrap();
    assert_eq!(removed.id.to_display_string(), "g:app:1.0");
    assert_eq!(coords(&lock), vec!["g:lib:1.0".to_string(), "g:tool:2.0".to_string()]);
    assert_eq!(lock.packages[1].dependencies.len(), 1);
}

#[test]
fn unneeded_packages_are_dropped_and_roots_kept() {
    let mut lock = lockfile(vec![
        root("g:app:1.0", &["g:lib:1.0"]),
        package("g:lib:1.0", &["g:gone:1.0"]),
        package("g:orphan:1.0", &["g:lib:1.0"]),
    ]);
    lock.remove_unneed_packages();
    assert_eq!(coords(&lock), vec!["g:app:1.0".to_string(), "g:lib:1.0".to_string()]);
    assert!(lock.packages[1].dependencies.is_empty());
}

#[test]
fn a_cycle_of_dependencies_keeps_itself() {
    let mut lock = lockfile(vec![
        package("g:a:1.0", &["g:b:1.0"]),
        package("g:b:1.0", &["g:a:1.0"]),
    ]);
    lock.remove_unneed_packages();
    assert_eq!(lock.packages.len(), 2);
}

#[test]
fn add_package_merges_by_group_and_artifact() {
    let mut lock = lockfile(vec![root("g:a:1.0", &[]), package("g:b:1.0", &[])]);
    let n = lock.add_package(vec![root("g:a:2.0", &["g:b:3.0"]), package("g:b:3.0", &[]), package("g:c:1.0", &[])]);
    assert_eq!(n, 3);
    assert_eq!(
        coords(&lock),
        vec!["g:a:2.0".to_string(), "g:b:3.0".to_string(), "g:c:1.0".to_string()]
    );
}

#[test]
fn add_package_keeps_a_root_against_a_non_root() {
    let mut lock = lockfile(vec![root("g:a:1.0", &[])]);
    lock.add_package(vec![package("g:a:9.0", &[])]);
    assert_eq!(coords(&lock), vec!["g:a:1.0".to_string()]);
    assert!(lock.packages[0].root);
}

#[test]
fn add_package_keeps_a_newer_version() {
    let mut lock = lockfile(vec![package("g:a:2.0", &[])]);
    lock.add_package(vec![package("g:a:1.5", &[])]);
    assert_eq!(coords(&lock), vec!["g:a:2.0".to_string()]);
}

#[test]
fn contains_package_compares_the_whole_coordinate() {
    let lock = lockfile(vec![package("g:a:1.0", &[])]);
    assert!(lock.contains_package(&id("g:a:1.0")));
    assert!(!lock.contains_package(&id("g:a:2.0")));
}

#[test]
fn package_paths_follow_the_scopes() {
    let mut compile = package("g:a:1.0", &[]);
    compile.path = Some("lib/a.jar".to_string());
    let mut test = package("g:t:1.0", &[]);
    test.scope = Scope::Test;
    test.path = Some("lib/t.jar".to_string());
    let mut runtime = package("g:r:1.0", &[]);
    runtime.scope = Scope::Runtime;
    runtime.path = Some("lib/r.jar".to_string());
    runtime.annotations = vec!["p.Processor".to_string()];
    let mut lock = lockfile(vec![compile, test, runtime]);
    lock.local_packages.push(LockFilePackageLocal {
        file_name: "local.jar".to_string(),
        packaging: DependencyType::Jar,
        root: true,
        scope: Scope::Compile,
        path: "/abs/local.jar".to_string(),
        annotations: vec!["q.Proc".to_string()],
    });
    assert_eq!(lock.compile_time_packages(), vec!["lib/a.jar".to_string(), "/abs/local.jar".to_string()]);
    assert_eq!(lock.runtime_packages(), vec!["lib/a.jar".to_string(), "lib/r.jar".to_string(), "/abs/local.jar".to_string()]);
    assert_eq!(lock.processor_compile_time_packages(), vec!["/abs/local.jar".to_string()]);
    assert_eq!(lock.package_paths_with_scopes(&[Scope::Test]), vec!["lib/t.jar".to_string()]);
    assert_eq!(lock.processor_package_paths_with_scopes(&[Scope::Runtime]), vec!["lib/r.jar".to_string()]);
}

fn jar_with(entries: &[(&str, &str)]) -> Vec<u8> {
    let mut w = zip::ZipWriter::new(std::io::Cursor::new(Vec::new()));
    for (name, text) in entries {
        w.start_file(name.to_string(), zip::write::SimpleFileOptions::default()
            .compression_method(zip::CompressionMethod::Stored)).unwrap();
        std::io::Write::write_all(&mut w, text.as_bytes()).unwrap();
    }
    w.finish().unwrap().into_inner()
}

#[test]
fn validate_local_package_builds_a_root_entry() {
    let local = LocalRootPackage { scope: None, path: "/abs/dep.jar".to_string() };
    let jar = jar_with(&[(
        "META-INF/services/javax.annotation.processing.Processor",
        "# processors\n x.P \n\ny.Q\n",
    )]);
    let entry = LockFile::validate_local_package(&local, Some("dep.jar".to_string()), Ok(jar)).unwrap();
    assert_eq!(entry.file_name, "dep.jar");
    assert!(entry.root);
    assert_eq!(entry.scope, Scope::Compile);
    assert_eq!(entry.annotations, vec!["x.P".to_string(), "y.Q".to_string()]);
    assert!(matches!(
        LockFile::validate_local_package(&local, None, Ok(Vec::new())),
        Err(LockFileError::IoError(_))
    ));
    assert!(matches!(
        LockFile::validate_local_package(&local, Some("dep.jar".to_string()), Err("denied".to_string())),
        Err(LockFileError::IoError(m)) if m == "denied"
    ));
    assert!(matches!(
        LockFile::validate_local_package(&local, Some("dep.jar".to_string()), Ok(b"not a zip".to_vec())),
        Err(LockFileError::RemoteProcesserParsingError(_))
    ));
}

#[test]
fn a_jar_without_service_file_declares_no_processors() {
    let jar = jar_with(&[("a/B.class", "x")]);
    assert!(lazy_java::annotations::process_annotations(&jar).unwrap().is_empty());
}

#[test]
fn add_package_compares_qualified_versions_without_failing() {
    let mut lock = lockfile(vec![package("g:a:1.ga.1", &[])]);
    lock.add_package(vec![package("g:a:1.0.2", &[])]);
    assert_eq!(coords(&lock), vec!["g:a:1.0.2".to_string()]);
    let mut lock = lockfile(vec![package("g:a:1.0.2", &[])]);
    lock.add_package(vec![package("g:a:1.final.1", &[])]);
    assert_eq!(coords(&lock), vec!["g:a:1.0.2".to_string()]);
}

#[test]
fn processor_lines_are_trimmed_of_unicode_whitespace() {
    let jar = jar_with(&[(
        "META-INF/services/javax.annotation.processing.Processor",
        "\u{3000}\tx.P\u{a0}\r\n  # note\n\u{2003}\n y.Q",
    )]);
    let found = lazy_java::annotations::process_annotations(&jar).unwrap();
    assert_eq!(found, vec!["x.P".to_string(), "y.Q".to_string()]);
}

fn local_entry(path: &str) -> LockFilePackageLocal {
    LockFilePackageLocal {
        file_name: path.rsplit('/').next().unwrap().to_string(),
        packaging: DependencyType::Jar,
        root: true,
        scope: Scope::Compile,
        path: path.to_string(),
        annotations: Vec::new(),
    }
}

#[test]
fn sync_keeps_exactly_the_configured_local_jars() {
    let mut lock = lockfile(Vec::new());
    lock.local_packages = vec![local_entry("/abs/a.jar"), local_entry("/abs/c.jar")];
    let roots = vec![
        LocalRootPackage { scope: None, path: "/abs/a.jar".to_string() },
        LocalRootPackage { scope: Some(Scope::Test), path: "/abs/b.jar".to_string() },
    ];
    let missing = lock.missing_local_packages(&roots);
    assert_eq!(missing.len(), 1);
    assert_eq!(missing[0].path, "/abs/b.jar");
    assert_eq!(missing[0].scope, Some(Scope::Test));
    let new_locals = vec![local_entry("/abs/b.jar")];
    lock.sync_with_root_packages(&Vec::new(), Vec::new(), &roots, new_locals).unwrap();
    let paths: Vec<String> = lock.local_packages.iter().map(|l| l.path.clone()).collect();
    assert_eq!(paths, vec!["/abs/a.jar".to_string(), "/abs/b.jar".to_string()]);
}

#[test]
fn a_local_jar_without_file_name_is_reported() {
    let local = LocalRootPackage { scope: None, path: "/".to_string() };
    assert!(matches!(
        LockFile::validate_local_package(&local, None, Ok(Vec::new())),
        Err(LockFileError::IoError(m)) if m == "resolving filename of local package: could not resolve filename"
    ));
}
