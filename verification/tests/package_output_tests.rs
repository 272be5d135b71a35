use lazy_java::config::{ConfigProcessorDefinition, NamedProcessor, ProcessorType};
use lazy_java::config::ConfigProject;
use lazy_java::errors::{BuildError, GenerateError, LockFileError};
use lazy_java::jar::{build_manifest, entry_point};
use lazy_java::lock_fetch::collect_downloads;
use lazy_java::lock_file::{LockFile, LockFilePackageLocal, LockFilePackageRemote};
use lazy_java::maven::{DependencyType, MavenId, Scope};
use lazy_java::pom::MavenPom;
use lazy_java::services::{merge_service_lines, text_less};

fn remote(coord: &str, root: bool, annotations: &[&str]) -> LockFilePackageRemote {
    let p: Vec<&str> = coord.split(':').collect();
    LockFilePackageRemote {
        id: MavenId::new(p[0], p[1], p[2]),
        file_name: format!("{}-{}.jar", p[1], p[2]),
        url: String::new(),
        dependencies: Vec::new(),
        packaging: DependencyType::Jar,
        root,
        scope: Scope::Compile,
        path: None,
        annotations: annotations.iter().map(|a| a.to_string()).collect(),
    }
}

#[test]
fn entry_point_prefers_the_command_line() {
    assert_eq!(entry_point(&Some("A".to_string()), &Some("B".to_string())).unwrap(), "A");
    assert_eq!(entry_point(&None, &Some("B".to_string())).unwrap(), "B");
    assert!(matches!(entry_point(&None, &None), Err(BuildError::NoMainClass)));
}

#[test]
fn manifest_without_libraries_has_no_class_path() {
    let m = build_manifest("com.example.Main", &Vec::new());
    assert_eq!(m, "Manifest-Version: 1.0\nMain-Class: com.example.Main\n\n");
}

#[test]
fn manifest_wraps_the_class_path_at_72_bytes() {
    let long = "lib/".to_string() + &"x".repeat(60) + ".jar";
    let cp = vec!["lib/a.jar".to_string(), long.clone(), "lib/b.jar".to_string()];
    let m = build_manifest("Main", &cp);
    let expected = format!("Manifest-Version: 1.0\nMain-Class: Main\nClass-Path: lib/a.jar \n {} \n lib/b.jar \n\n", long);
    assert_eq!(m, expected);
    for line in m.lines() {
        assert!(line.len() <= 72);
    }
}

#[test]
fn services_are_sorted_and_listed_once() {
    let lines = merge_service_lines("z.example.Impl\nz.example.Impl\na.example.Impl\n");
    assert_eq!(lines, vec!["a.example.Impl".to_string(), "z.example.Impl".to_string()]);
    assert!(text_less(&"ab".to_string(), &"b".to_string()));
    assert!(text_less(&"a".to_string(), &"ab".to_string()));
    assert!(!text_less(&"b".to_string(), &"b".to_string()));
}

#[test]
fn downloads_fail_together() {
    let ok = collect_downloads(vec![Ok((0, vec![1u8])), Ok((1, vec![2u8]))]).unwrap();
    assert_eq!(ok.len(), 2);
    assert_eq!(ok[1].0, 1);
    let failed = collect_downloads(vec![Ok((0, vec![1u8])), Err(LockFileError::DownloadFailed("404 Not Found".to_string()))]);
    assert!(matches!(failed, Err(LockFileError::FetchError(errs)) if errs.len() == 1));
}

#[test]
fn validation_plan_removes_strays_and_lists_missing_jars() {
    let lock = LockFile { packages: vec![remote("g:a:1.0", true, &[]), remote("g:b:1.0", false, &[])], local_packages: Vec::new() };
    let plan = lock.plan_validation(
        &vec!["a-1.0.jar".to_string(), "stray.jar".to_string()],
        &vec!["a-1.0.jar".to_string()],
    );
    assert_eq!(plan.remove_from_lib, vec!["stray.jar".to_string()]);
    assert_eq!(plan.remove_from_annotations, vec!["a-1.0.jar".to_string()]);
    assert_eq!(plan.missing, vec![1usize]);
}

#[test]
fn record_download_of_an_invalid_jar_fails() {
    let mut lock = LockFile { packages: vec![remote("g:a:1.0", true, &[])], local_packages: Vec::new() };
    assert!(matches!(lock.record_download(0, &b"nope".to_vec()), Err(LockFileError::RemoteProcesserParsingError(_))));
}

fn project(group: Option<&str>) -> Option<ConfigProject> {
    Some(ConfigProject {
        name: "demo".to_string(),
        group: group.map(|s| s.to_string()),
        artifact: Some("demo".to_string()),
        version: Some("1.0".to_string()),
    })
}

#[test]
fn pom_lists_roots_and_locals_by_coordinate() {
    let lock = LockFile {
        packages: vec![
            remote("z:last:1.0", true, &[]),
            remote("a:transitive:1.0", false, &[]),
            remote("a:first:2.0", true, &["proc.P"]),
        ],
        local_packages: vec![LockFilePackageLocal {
            file_name: "mine.jar".to_string(),
            packaging: DependencyType::Jar,
            root: true,
            scope: Scope::Compile,
            path: "libs/mine.jar".to_string(),
            annotations: Vec::new(),
        }],
    };
    let pom = MavenPom::create_pom(&project(Some("com.demo")), &"21".to_string(), &lock).unwrap();
    assert_eq!(pom.group_id, "com.demo");
    assert_eq!(pom.properties[0].value, "21");
    let deps = pom.dependencies.unwrap().dependency;
    let coords: Vec<String> = deps.iter().map(|d| format!("{}:{}", d.group_id, d.artifact_id)).collect();
    assert_eq!(coords, vec!["a:first", "local-mine.jar-group:local-mine.jar-artifact", "z:last"]);
    assert_eq!(deps[1].system_path.as_deref(), Some("${project.basedir}/libs/mine.jar"));
    assert_eq!(deps[1].scope, Scope::System);
    let build = pom.build.unwrap();
    let plugin = &build.plugins.unwrap().plugin[0];
    assert_eq!(plugin.artifact_id.as_deref(), Some("maven-compiler-plugin"));
    let paths = &plugin.configuration.as_ref().unwrap().annotation_processor_paths.as_ref().unwrap().path;
    assert_eq!(paths.len(), 1);
    assert_eq!(paths[0].artifact_id, "first");
}

#[test]
fn pom_needs_the_project_coordinate() {
    let lock = LockFile::new();
    assert!(matches!(
        MavenPom::create_pom(&project(None), &"21".to_string(), &lock),
        Err(GenerateError::MissingValue { value_name, .. }) if value_name == "group"
    ));
    assert!(matches!(
        MavenPom::create_pom(&None, &"21".to_string(), &lock),
        Err(GenerateError::MissingValue { value_name, .. }) if value_name == "project"
    ));
    let pom = MavenPom::create_pom(&project(Some("g")), &"17".to_string(), &lock).unwrap();
    assert!(pom.build.is_none());
}

#[test]
fn service_lines_split_at_line_endings() {
    let lines = merge_service_lines("b.Impl\r\na.Impl\n\nc.Impl\r");
    assert_eq!(lines, vec!["".to_string(), "a.Impl".to_string(), "b.Impl".to_string(), "c.Impl\r".to_string()]);
    assert!(merge_service_lines("").is_empty());
}

#[test]
fn pom_keeps_the_lock_order_of_equal_coordinates() {
    let lock = LockFile {
        packages: vec![remote("g:a:2.0", true, &[]), remote("b:x:1.0", true, &[]), remote("g:a:1.0", true, &[])],
        local_packages: Vec::new(),
    };
    let pom = MavenPom::create_pom(&project(Some("com.demo")), &"21".to_string(), &lock).unwrap();
    let deps = pom.dependencies.unwrap().dependency;
    let versions: Vec<String> = deps.iter().map(|d| d.version.clone().unwrap()).collect();
    assert_eq!(versions, vec!["1.0".to_string(), "2.0".to_string(), "1.0".to_string()]);
    assert_eq!(deps[1].group_id, "g");
    assert_eq!(deps[2].group_id, "g");
}

#[test]
fn service_file_lists_the_project_processors() {
    let proc = |name: &str, kind: ProcessorType| NamedProcessor {
        name: name.to_string(),
        definition: ConfigProcessorDefinition { kind, path: format!("proc/{}.java", name), package: "com.p".to_string() },
    };
    let text = lazy_java::services::processor_service_file(&vec![
        proc("First", ProcessorType::Processor),
        proc("Marker", ProcessorType::Annotation),
        proc("Second", ProcessorType::Processor),
    ]);
    assert_eq!(text, "com.p.First\ncom.p.Second");
    assert_eq!(lazy_java::services::processor_service_file(&Vec::new()), "");
}
