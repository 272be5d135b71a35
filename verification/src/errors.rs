//! The error kinds of the library. Errors that come from the file system or
//! from outside parsers carry their message as text.

use vstd::prelude::*;

verus! {

/// What can go wrong when reading, changing or syncing the lock file.
#[derive(Debug)]
pub enum LockFileError {
    ParseFailed(String),
    SerializeFailed(String),
    DownloadFailed(String),
    IoError(String),
    RequestError(String),
    PackageNotFound,
    FetchError(Vec<LockFileError>),
    MavenError(String),
    RemoteProcesserParsingError(String),
    LocalProcessorParsingError(String),
}

/// What can go wrong when building or querying the source dependency graph.
#[derive(Debug)]
pub enum GraphError {
    NotFound(String),
    IOError(String),
    CreationError(String),
}

/// What can go wrong when reading the project's config or acting on it.
#[derive(Debug)]
pub enum ConfigError {
    DuplicateLocalDependencies(String),
    MissingValue(String),
    ParseError(String),
    NoConfig(String),
    LockFileError(LockFileError),
    MavenError(String),
    IoError(String),
    PackageNotFound,
    UnexpectedValue(String),
    LocalDependencyNotFound(String),
    LocalDependencyNotJar(String),
}

/// The characters of a `ConfigError` (an error of the lock file is known by
/// its kind alone).
pub enum ConfigErrorView {
    DuplicateLocalDependencies(Seq<char>),
    MissingValue(Seq<char>),
    ParseError(Seq<char>),
    NoConfig(Seq<char>),
    LockFileError,
    MavenError(Seq<char>),
    IoError(Seq<char>),
    PackageNotFound,
    UnexpectedValue(Seq<char>),
    LocalDependencyNotFound(Seq<char>),
    LocalDependencyNotJar(Seq<char>),
}

impl View for ConfigError {
    type V = ConfigErrorView;

    open spec fn view(&self) -> ConfigErrorView {
        match self {
            ConfigError::DuplicateLocalDependencies(s) => ConfigErrorView::DuplicateLocalDependencies(s@),
            ConfigError::MissingValue(s) => ConfigErrorView::MissingValue(s@),
            ConfigError::ParseError(s) => ConfigErrorView::ParseError(s@),
            ConfigError::NoConfig(s) => ConfigErrorView::NoConfig(s@),
            ConfigError::LockFileError(_) => ConfigErrorView::LockFileError,
            ConfigError::MavenError(s) => ConfigErrorView::MavenError(s@),
            ConfigError::IoError(s) => ConfigErrorView::IoError(s@),
            ConfigError::PackageNotFound => ConfigErrorView::PackageNotFound,
            ConfigError::UnexpectedValue(s) => ConfigErrorView::UnexpectedValue(s@),
            ConfigError::LocalDependencyNotFound(s) => ConfigErrorView::LocalDependencyNotFound(s@),
            ConfigError::LocalDependencyNotJar(s) => ConfigErrorView::LocalDependencyNotJar(s@),
        }
    }
}

/// What can go wrong when locating the project and its folders.
#[derive(Debug)]
pub enum ContextError {
    NoCurrentDir(String),
    NoRoot(String),
    NoSource(String),
    NoBuild(String),
    NoLib(String),
}

/// What can go wrong when building.
#[derive(Debug)]
pub enum BuildError {
    ProcessorCompilationErrors,
    MainCompilationErrors,
    JarCreationError,
    GraphError(GraphError),
    ConfigError(ConfigError),
    MetadataSerializeError(String),
    IoError(String),
    NoMainClass,
}

/// What can go wrong when generating files for other build tools.
#[derive(Debug)]
pub enum GenerateError {
    MissingValue { value_name: String, generated_value: String },
    SerialError(String),
    LockFileError(LockFileError),
    IOError(String),
}

/// What can go wrong when cleaning the build folder.
#[derive(Debug)]
pub enum CleanError {
    NoBuildFolder { path: String, os_error: String },
    IOError(String),
    NoRemove { path: String, os_error: String },
    NoCreate { path: String, os_error: String },
}

/// What can go wrong when creating a project.
#[derive(Debug)]
pub enum CreateError {
    ProjectNameError,
    CreateDirectoryError,
    IoError(String),
    NoGit,
}

} // verus!
