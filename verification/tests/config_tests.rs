use lazy_java::config::{
    ConfigDependencyTomlEditView, ConfigProcessorDefinitionTomlEditView, ConfigTomlEdit, LocalPathFacts,
    NamedDependencyView, ProcessorType,
};
use lazy_java::errors::ConfigError;
use lazy_java::lock_file::{LockFile, LockFilePackageRemote};
use lazy_java::maven::{DependencyType, MavenId, Scope};
use lazy_java::metadata::hash_local_libs;

fn remote(group: Option<&str>, version: Option<&str>, path: Option<&str>) -> ConfigDependencyTomlEditView {
    ConfigDependencyTomlEditView {
        group: group.map(|s| s.to_string()),
        version: version.map(|s| s.to_string()),
        scope: None,
        path: path.map(|s| s.to_string()),
    }
}

fn named(name: &str, view: ConfigDependencyTomlEditView) -> NamedDependencyView {
    NamedDependencyView { name: name.to_string(), view }
}

fn facts_ok(path: &str) -> LocalPathFacts {
    LocalPathFacts { exists: true, is_jar: true, canonical: Ok(path.to_string()) }
}

#[test]
fn remote_dependency_needs_group_and_version() {
    let ok = remote(Some("org.x"), Some("1.0"), None).to_remote_dependency().unwrap().unwrap();
    assert_eq!(ok.group, "org.x");
    assert_eq!(ok.version, "1.0");
    assert!(remote(None, None, Some("a.jar")).to_remote_dependency().unwrap().is_none());
    assert!(matches!(remote(Some("g"), None, None).to_remote_dependency(), Err(ConfigError::MissingValue(v)) if v == "version"));
    assert!(matches!(remote(None, Some("1"), None).to_remote_dependency(), Err(ConfigError::MissingValue(v)) if v == "group"));
    assert!(matches!(remote(Some("g"), Some("1"), Some("x.jar")).to_remote_dependency(), Err(ConfigError::UnexpectedValue(v)) if v == "path"));
}

#[test]
fn local_dependency_checks_the_file() {
    let local = remote(None, None, Some("libs/a.jar"));
    let dep = local.to_local_dependency(&facts_ok("/p/libs/a.jar")).unwrap().unwrap();
    assert_eq!(dep.path, "/p/libs/a.jar");
    let missing = LocalPathFacts { exists: false, is_jar: true, canonical: Ok(String::new()) };
    assert!(matches!(local.to_local_dependency(&missing), Err(ConfigError::LocalDependencyNotFound(p)) if p == "libs/a.jar"));
    let not_jar = LocalPathFacts { exists: true, is_jar: false, canonical: Ok(String::new()) };
    assert!(matches!(local.to_local_dependency(&not_jar), Err(ConfigError::LocalDependencyNotJar(_))));
    assert!(matches!(remote(Some("g"), None, Some("a.jar")).to_local_dependency(&facts_ok("x")), Err(ConfigError::UnexpectedValue(v)) if v == "group"));
    assert!(remote(Some("g"), Some("1"), None).to_local_dependency(&facts_ok("x")).unwrap().is_none());
}

#[test]
fn processor_definition_reports_the_first_missing_key() {
    let full = ConfigProcessorDefinitionTomlEditView {
        kind: Some(ProcessorType::Annotation),
        path: Some("proc".to_string()),
        package: Some("p".to_string()),
    };
    let d = full.to_processer_definition().unwrap();
    assert_eq!(d.kind, ProcessorType::Annotation);
    assert_eq!(d.path, "proc");
    let no_path = ConfigProcessorDefinitionTomlEditView { kind: Some(ProcessorType::Processor), path: None, package: None };
    assert!(matches!(no_path.to_processer_definition(), Err(ConfigError::MissingValue(v)) if v == "path"));
    let nothing = ConfigProcessorDefinitionTomlEditView { kind: None, path: None, package: None };
    assert!(matches!(nothing.to_processer_definition(), Err(ConfigError::MissingValue(v)) if v == "kind"));
}

fn config() -> ConfigTomlEdit {
    ConfigTomlEdit {
        dependencies: Some(vec![
            named("commons-lang3", remote(Some("org.apache.commons"), Some("3.14"), None)),
            named("local", remote(None, None, Some("libs/l.jar"))),
            named("guava", remote(Some("com.google"), Some("33"), None)),
        ]),
    }
}

#[test]
fn root_and_local_lists_split_the_dependencies() {
    let c = config();
    let roots = c.root_package_list().unwrap();
    assert_eq!(roots.len(), 2);
    assert_eq!(roots[0].id.group, "org.apache.commons");
    assert_eq!(roots[0].id.artifact, "commons-lang3");
    assert_eq!(roots[1].package.version, "33");
    let facts = vec![facts_ok("unused"), facts_ok("/p/libs/l.jar"), facts_ok("unused")];
    let locals = c.local_package_list(&facts).unwrap();
    assert_eq!(locals.len(), 1);
    assert_eq!(locals[0].path, "/p/libs/l.jar");
    assert!(ConfigTomlEdit { dependencies: None }.root_package_list().unwrap().is_empty());
    let bad = ConfigTomlEdit { dependencies: Some(vec![named("x", remote(Some("g"), None, None))]) };
    assert!(matches!(bad.root_package_list(), Err(ConfigError::MissingValue(_))));
}

#[test]
fn config_file_must_exist() {
    assert!(ConfigTomlEdit::assert_config_file_exists(&"/p/lazy-java.toml".to_string(), true).is_ok());
    assert!(matches!(
        ConfigTomlEdit::assert_config_file_exists(&"/p/lazy-java.toml".to_string(), false),
        Err(ConfigError::NoConfig(p)) if p == "/p/lazy-java.toml"
    ));
}

fn locked(coord: &str, root: bool, deps: &[&str]) -> LockFilePackageRemote {
    let p: Vec<&str> = coord.split(':').collect();
    LockFilePackageRemote {
        id: MavenId::new(p[0], p[1], p[2]),
        file_name: format!("{}-{}.jar", p[1], p[2]),
        url: String::new(),
        dependencies: deps
            .iter()
            .map(|d| {
                let q: Vec<&str> = d.split(':').collect();
                MavenId::new(q[0], q[1], q[2])
            })
            .collect(),
        packaging: DependencyType::Jar,
        root,
        scope: Scope::Compile,
        path: None,
        annotations: Vec::new(),
    }
}

#[test]
fn sync_adds_new_roots_and_drops_stale_ones() {
    let c = ConfigTomlEdit {
        dependencies: Some(vec![named("b", remote(Some("g"), Some("1.0"), None))]),
    };
    let mut lock = LockFile {
        packages: vec![locked("g:a:1.0", true, &["g:x:1.0"]), locked("g:x:1.0", false, &[])],
        local_packages: Vec::new(),
    };
    let resolved = vec![vec![locked("g:b:1.0", true, &["g:y:1.0"]), locked("g:y:1.0", false, &[])]];
    c.sync_lock_file(&mut lock, &vec![facts_ok("unused")], resolved, Vec::new()).unwrap();
    let names: Vec<String> = lock.packages.iter().map(|p| p.id.to_display_string()).collect();
    assert_eq!(names, vec!["g:b:1.0".to_string(), "g:y:1.0".to_string()]);
}

#[test]
fn missing_roots_marks_roots_the_lock_file_lacks() {
    let c = ConfigTomlEdit {
        dependencies: Some(vec![
            named("a", remote(Some("g"), Some("1.0"), None)),
            named("b", remote(Some("g"), Some("1.0"), None)),
        ]),
    };
    let lock = LockFile { packages: vec![locked("g:a:1.0", true, &[])], local_packages: Vec::new() };
    let roots = c.root_package_list().unwrap();
    assert_eq!(lock.missing_roots(&roots), vec![false, true]);
}

#[test]
fn local_libs_hash_follows_the_local_jars() {
    let c = config();
    let facts = vec![facts_ok("unused"), facts_ok("/p/libs/l.jar"), facts_ok("unused")];
    let a = hash_local_libs(&c, &facts, &vec![Some(b"A".to_vec())]).unwrap();
    let b = hash_local_libs(&c, &facts, &vec![Some(b"B".to_vec())]).unwrap();
    assert_ne!(a, b);
    let bad = vec![facts_ok("unused"), LocalPathFacts { exists: false, is_jar: true, canonical: Ok(String::new()) }, facts_ok("x")];
    assert!(hash_local_libs(&c, &bad, &Vec::new()).is_err());
}

#[test]
fn add_then_remove_gives_the_version_back() {
    let mut c = ConfigTomlEdit { dependencies: None };
    c.add_package(&"org.x".to_string(), &"lib".to_string(), &"1.2".to_string());
    let deps = c.dependencies.as_ref().unwrap();
    assert_eq!(deps.len(), 1);
    assert_eq!(deps[0].name, "lib");
    assert_eq!(deps[0].view.group.as_deref(), Some("org.x"));
    assert_eq!(deps[0].view.version.as_deref(), Some("1.2"));
    assert_eq!(c.remove_package(&"org.x".to_string(), &"lib".to_string()).unwrap(), "1.2");
    assert!(c.dependencies.as_ref().unwrap().is_empty());
}

#[test]
fn add_replaces_the_table_of_the_same_name() {
    let mut c = config();
    let before = c.dependencies.as_ref().unwrap().len();
    let name = c.dependencies.as_ref().unwrap()[0].name.clone();
    c.add_package(&"org.new".to_string(), &name, &"9".to_string());
    let deps = c.dependencies.as_ref().unwrap();
    assert_eq!(deps.len(), before);
    assert_eq!(deps[0].view.group.as_deref(), Some("org.new"));
    assert_eq!(deps[0].view.version.as_deref(), Some("9"));
    assert!(deps[0].view.scope.is_none());
    c.add_package(&"org.new".to_string(), &"fresh".to_string(), &"1".to_string());
    assert_eq!(c.dependencies.as_ref().unwrap().len(), before + 1);
}

#[test]
fn remove_of_an_unknown_package_fails() {
    let mut c = ConfigTomlEdit { dependencies: Some(vec![named("lib", remote(Some("org.x"), Some("1"), None))]) };
    assert!(matches!(c.remove_package(&"org.y".to_string(), &"lib".to_string()), Err(ConfigError::PackageNotFound)));
    assert!(matches!(c.remove_package(&"org.x".to_string(), &"other".to_string()), Err(ConfigError::PackageNotFound)));
    assert_eq!(c.dependencies.as_ref().unwrap().len(), 1);
    let mut empty = ConfigTomlEdit { dependencies: None };
    assert!(matches!(empty.remove_package(&"g".to_string(), &"a".to_string()), Err(ConfigError::PackageNotFound)));
    assert!(empty.dependencies.is_none());
}

fn pom_dep(group: &str, artifact: &str, version: Option<&str>) -> lazy_java::import::PomDependency {
    lazy_java::import::PomDependency {
        group_id: group.to_string(),
        artifact_id: artifact.to_string(),
        version: version.map(|v| v.to_string()),
    }
}

#[test]
fn import_takes_versions_from_the_dependency_or_its_management() {
    let pom = lazy_java::import::ImportedPom {
        group_id: "org.demo".to_string(),
        artifact_id: "app".to_string(),
        version: "1.0".to_string(),
        dependencies: Some(vec![
            pom_dep("org.a", "alpha", Some("2.1")),
            pom_dep("org.b", "beta", None),
            pom_dep("org.c", "gamma", None),
        ]),
        managed: Some(vec![pom_dep("org.b", "beta", Some("3.0")), pom_dep("org.b", "beta", Some("3.5"))]),
    };
    let imported = lazy_java::import::import_pom(&pom);
    assert_eq!(imported.project.name, "app");
    assert_eq!(imported.project.group.as_deref(), Some("org.demo"));
    assert_eq!(imported.project.version.as_deref(), Some("1.0"));
    let deps = imported.config.dependencies.as_ref().unwrap();
    assert_eq!(deps.len(), 2);
    assert_eq!(deps[0].name, "alpha");
    assert_eq!(deps[0].view.version.as_deref(), Some("2.1"));
    assert_eq!(deps[1].name, "beta");
    assert_eq!(deps[1].view.group.as_deref(), Some("org.b"));
    assert_eq!(deps[1].view.version.as_deref(), Some("3.5"));
    assert_eq!(imported.skipped, vec![("org.c".to_string(), "gamma".to_string())]);
}

#[test]
fn import_without_dependencies_leaves_the_section_out() {
    let pom = lazy_java::import::ImportedPom {
        group_id: "g".to_string(),
        artifact_id: "a".to_string(),
        version: "1".to_string(),
        dependencies: None,
        managed: None,
    };
    let imported = lazy_java::import::import_pom(&pom);
    assert!(imported.config.dependencies.is_none());
    assert!(imported.skipped.is_empty());
}

#[test]
fn an_existing_config_is_written_only_when_overwriting() {
    assert!(lazy_java::import::config_write_wanted(false, false));
    assert!(lazy_java::import::config_write_wanted(false, true));
    assert!(!lazy_java::import::config_write_wanted(true, false));
    assert!(lazy_java::import::config_write_wanted(true, true));
}

fn test_pom() -> lazy_java::import::ImportedPom {
    lazy_java::import::ImportedPom {
        group_id: "com.example".to_string(),
        artifact_id: "test".to_string(),
        version: "1.0".to_string(),
        dependencies: None,
        managed: None,
    }
}

#[test]
fn existing_toml_without_overwrite_is_preserved() {
    assert!(!lazy_java::import::config_write_wanted(true, false), "should not overwrite");
}

#[test]
fn existing_toml_with_overwrite_flag_is_replaced() {
    assert!(lazy_java::import::config_write_wanted(true, true));
    let imported = lazy_java::import::import_pom(&test_pom());
    assert_eq!(imported.project.name, "test", "should overwrite with pom data");
}
