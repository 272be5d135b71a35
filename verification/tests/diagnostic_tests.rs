use lazy_java::diagnostic::Diagnostic;
use lazy_java::errors::{BuildError, ConfigError, CreateError, GenerateError, GraphError, LockFileError};
use lazy_java::text::decimal;

#[test]
fn numbers_are_written_in_decimal() {
    assert_eq!(decimal(0), "0");
    assert_eq!(decimal(7), "7");
    assert_eq!(decimal(10), "10");
    assert_eq!(decimal(4096), "4096");
}

#[test]
fn missing_config_names_the_path() {
    let d = ConfigError::NoConfig("/p/lazy-java.toml".to_string()).diagnostic();
    assert_eq!(d.title, "lazy-java.toml file not found");
    assert_eq!(d.message.as_deref(), Some("Could not find lazy-java.toml file at /p/lazy-java.toml."));
    assert!(d.notes.is_empty());
    assert_eq!(d.help.as_deref(), Some("Create a lazy-java.toml file or specify a valid project root."));
}

#[test]
fn config_field_errors_quote_the_field() {
    let d = ConfigError::MissingValue("group".to_string()).diagnostic();
    assert_eq!(d.message.as_deref(), Some("Could not parse lazy-java.toml, missing field 'group'."));
    let d = ConfigError::UnexpectedValue("path".to_string()).diagnostic();
    assert_eq!(d.title, "Unexpected value in lazy-java.toml ");
    assert_eq!(d.message.as_deref(), Some("Could not parse lazy-java.toml, unexpected field 'path'."));
    let d = ConfigError::LocalDependencyNotJar("libs/a.zip".to_string()).diagnostic();
    assert_eq!(d.message.as_deref(), Some("The local dependency libs/a.zip does not have a .jar extension"));
    assert_eq!(d.notes, vec!["Currently only .jar files are supported as local dependencies".to_string()]);
    let d = ConfigError::ParseError("bad toml".to_string()).diagnostic();
    assert_eq!(d.title, "Failed to parse lazy-java.toml");
    assert_eq!(d.message, None);
    assert_eq!(d.notes, vec!["bad toml".to_string()]);
}

#[test]
fn fetch_errors_count_and_list_the_failures() {
    let e = LockFileError::FetchError(vec![
        LockFileError::DownloadFailed("404 Not Found".to_string()),
        LockFileError::RequestError("timed out".to_string()),
    ]);
    let d = e.diagnostic();
    assert_eq!(d.title, "Failed to fetch packages");
    assert_eq!(d.message.as_deref(), Some("Encountered 2 errors while fetching packages."));
    assert_eq!(d.notes, vec!["Could not download package".to_string(), "Error fetching file from maven".to_string()]);
    assert_eq!(d.help, None);
    let wrapped = ConfigError::LockFileError(LockFileError::DownloadFailed("404 Not Found".to_string())).diagnostic();
    assert_eq!(wrapped.message.as_deref(), Some("Downloading failed with code 404 Not Found"));
}

#[test]
fn outside_errors_are_reported_by_their_text() {
    let d = LockFileError::IoError("reading lazy-java.lock: denied".to_string()).diagnostic();
    assert_eq!(d.title, "reading lazy-java.lock: denied");
    assert_eq!(d.message, None);
    assert!(d.notes.is_empty());
}

#[test]
fn build_and_generate_errors() {
    let d = BuildError::GraphError(GraphError::NotFound("A.java".to_string())).diagnostic();
    assert_eq!(d.notes, vec!["File A.java, does not exist while resolving file to id".to_string()]);
    let d = BuildError::NoMainClass.diagnostic();
    assert_eq!(d.title, "No main class specified");
    let d = GenerateError::MissingValue { value_name: "group".to_string(), generated_value: "pom.xml".to_string() }
        .diagnostic();
    assert_eq!(d.message.as_deref(), Some("Field group is required to generate pom.xml"));
    assert_eq!(d.help.as_deref(), Some("Set the group field in the config to generate pom.xml"));
    let d = CreateError::NoGit.diagnostic();
    assert_eq!(d.help.as_deref(), Some("Install git and ensure it is accessible from the command line."));
}

#[test]
fn reports_are_built_up_in_order() {
    let d = Diagnostic::new("t").message("m".to_string()).note("a".to_string()).note("b".to_string()).help("h".to_string());
    assert_eq!(d.title, "t");
    assert_eq!(d.message.as_deref(), Some("m"));
    assert_eq!(d.notes, vec!["a".to_string(), "b".to_string()]);
    assert_eq!(d.help.as_deref(), Some("h"));
}

#[test]
fn example_class_greets_the_user() {
    let text = lazy_java::project_files::example_class("Main");
    assert!(text.starts_with("\n/* Created with LazyJava */ \npublic class Main {\n"));
    assert!(text.contains("System.out.println(\"Hello world!\");"));
    assert!(text.ends_with("    }\n}\n"));
}
