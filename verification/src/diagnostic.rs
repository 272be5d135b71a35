//! What the user is told of an error: a title, a message, notes and a line
//! of help.
//!
//! An error that carries the text of an error raised outside the library
//! (an I/O error, a parse or serialisation error, a Maven error) is reported
//! under that text as its title.

use vstd::prelude::*;
use crate::errors::{BuildError, ConfigError, CreateError, GenerateError, GraphError, LockFileError};
use crate::text::{append, concat, decimal, decimal_text, owned, views};

verus! {

/// A report of an error.
#[derive(Debug)]
pub struct Diagnostic {
    pub title: String,
    pub message: Option<String>,
    pub notes: Vec<String>,
    pub help: Option<String>,
}

/// The characters of a report.
pub struct DiagnosticView {
    pub title: Seq<char>,
    pub message: Option<Seq<char>>,
    pub notes: Seq<Seq<char>>,
    pub help: Option<Seq<char>>,
}

/// The characters of an optional string.
pub open spec fn opt_text(s: Option<String>) -> Option<Seq<char>> {
    match s {
        Some(x) => Some(x@),
        None => None,
    }
}

impl View for Diagnostic {
    type V = DiagnosticView;

    open spec fn view(&self) -> DiagnosticView {
        DiagnosticView {
            title: self.title@,
            message: opt_text(self.message),
            notes: views(self.notes@),
            help: opt_text(self.help),
        }
    }
}

/// A report from its parts.
pub open spec fn report(
    title: Seq<char>,
    message: Option<Seq<char>>,
    notes: Seq<Seq<char>>,
    help: Option<Seq<char>>,
) -> DiagnosticView {
    DiagnosticView { title, message, notes, help }
}

/// The report of an error raised outside the library: its text as title.
pub open spec fn outside_report(text: Seq<char>) -> DiagnosticView {
    report(text, None, Seq::<Seq<char>>::empty(), None)
}

impl Diagnostic {
    /// A report with this title and nothing else.
    pub fn new(title: &str) -> (d: Diagnostic)
        ensures
            d@ == report(title@, None, Seq::<Seq<char>>::empty(), None),
    {
        let d = Diagnostic { title: owned(title), message: None, notes: Vec::new(), help: None };
        assert(views(d.notes@) =~= Seq::<Seq<char>>::empty());
        d
    }

    /// The report with this message.
    pub fn message(self, message: String) -> (d: Diagnostic)
        ensures
            d@ == report(self@.title, Some(message@), self@.notes, self@.help),
    {
        Diagnostic { message: Some(message), ..self }
    }

    /// The report with this note added after the others.
    pub fn note(self, note: String) -> (d: Diagnostic)
        ensures
            d@ == report(self@.title, self@.message, self@.notes.push(note@), self@.help),
    {
        let mut d = self;
        let ghost before = d.notes@;
        d.notes.push(note);
        assert(views(d.notes@) =~= views(before).push(note@));
        d
    }

    /// The report with this line of help.
    pub fn help(self, help: String) -> (d: Diagnostic)
        ensures
            d@ == report(self@.title, self@.message, self@.notes, Some(help@)),
    {
        Diagnostic { help: Some(help), ..self }
    }
}

/// The report of an error raised outside the library.
fn outside(text: &String) -> (d: Diagnostic)
    ensures
        d@ == outside_report(text@),
{
    Diagnostic::new(text.as_str())
}

/// `a`, then `b`, then `c`.
fn text3(a: &str, b: &String, c: &str) -> (r: String)
    ensures
        r@ == a@ + b@ + c@,
{
    let mut r = concat(a, b.as_str());
    append(&mut r, c);
    r
}

/// `a`, then `b`.
fn text2(a: &str, b: &String) -> (r: String)
    ensures
        r@ == a@ + b@,
{
    concat(a, b.as_str())
}

/// The message of a lock file error.
pub open spec fn lock_file_error_text(e: LockFileError) -> Seq<char> {
    match e {
        LockFileError::ParseFailed(m) => m@,
        LockFileError::SerializeFailed(m) => m@,
        LockFileError::DownloadFailed(_) => "Could not download package"@,
        LockFileError::IoError(m) => m@,
        LockFileError::RequestError(_) => "Error fetching file from maven"@,
        LockFileError::PackageNotFound => "Unable to remove package because it is not included in this project"@,
        LockFileError::FetchError(_) => "Encountered errors when fetching packages"@,
        LockFileError::MavenError(_) => "Encountered an error when fetching maven"@,
        LockFileError::RemoteProcesserParsingError(_) => "Error when processing downloaded file"@,
        LockFileError::LocalProcessorParsingError(_) => "Error processing local dependency"@,
    }
}

/// The messages of a list of lock file errors.
pub open spec fn lock_file_error_texts(errors: Seq<LockFileError>) -> Seq<Seq<char>> {
    errors.map_values(|e: LockFileError| lock_file_error_text(e))
}

/// The report of a lock file error.
pub open spec fn lock_file_error_report(e: LockFileError) -> DiagnosticView {
    match e {
        LockFileError::LocalProcessorParsingError(name) => report(
            "Failed to process local jar"@,
            Some("Processing local dependency `"@ + name@ + "` failed"@),
            Seq::<Seq<char>>::empty(),
            Some("Ensure that the file is a valid jar"@),
        ),
        LockFileError::DownloadFailed(code) => report(
            "Downloading dependency failed"@,
            Some("Downloading failed with code "@ + code@),
            Seq::<Seq<char>>::empty(),
            None,
        ),
        LockFileError::ParseFailed(m) => outside_report(m@),
        LockFileError::SerializeFailed(m) => outside_report(m@),
        LockFileError::IoError(m) => outside_report(m@),
        LockFileError::RequestError(m) => report(
            "Failed to fetch from Maven"@,
            Some("An error occurred while fetching a file from Maven."@),
            seq![m@],
            Some("Check your network connection and try again."@),
        ),
        LockFileError::PackageNotFound => report(
            "Package not found"@,
            Some("This package is not included in the project."@),
            Seq::<Seq<char>>::empty(),
            Some("Check that the package is declared in your dependencies."@),
        ),
        LockFileError::FetchError(errors) => report(
            "Failed to fetch packages"@,
            Some("Encountered "@ + decimal_text(errors@.len()) + " errors while fetching packages."@),
            lock_file_error_texts(errors@),
            None,
        ),
        LockFileError::MavenError(m) => outside_report(m@),
        LockFileError::RemoteProcesserParsingError(m) => report(
            "Failed to process downloaded file"@,
            Some("An error occurred while processing the downloaded archive."@),
            seq![m@],
            Some("The downloaded file may be corrupt or incomplete."@),
        ),
    }
}

impl LockFileError {
    /// The message of the error (see `lock_file_error_text`).
    pub fn to_text(&self) -> (r: String)
        ensures
            r@ == lock_file_error_text(*self),
    {
        match self {
            LockFileError::ParseFailed(m) => m.clone(),
            LockFileError::SerializeFailed(m) => m.clone(),
            LockFileError::DownloadFailed(_) => owned("Could not download package"),
            LockFileError::IoError(m) => m.clone(),
            LockFileError::RequestError(_) => owned("Error fetching file from maven"),
            LockFileError::PackageNotFound => owned(
                "Unable to remove package because it is not included in this project",
            ),
            LockFileError::FetchError(_) => owned("Encountered errors when fetching packages"),
            LockFileError::MavenError(_) => owned("Encountered an error when fetching maven"),
            LockFileError::RemoteProcesserParsingError(_) => owned("Error when processing downloaded file"),
            LockFileError::LocalProcessorParsingError(_) => owned("Error processing local dependency"),
        }
    }

    /// The report of the error (see `lock_file_error_report`).
    pub fn diagnostic(&self) -> (d: Diagnostic)
        ensures
            d@ == lock_file_error_report(*self),
    {
        match self {
            LockFileError::LocalProcessorParsingError(name) => Diagnostic::new("Failed to process local jar").message(
                text3("Processing local dependency `", name, "` failed"),
            ).help(owned("Ensure that the file is a valid jar")),
            LockFileError::DownloadFailed(code) => Diagnostic::new("Downloading dependency failed").message(
                text2("Downloading failed with code ", code),
            ),
            LockFileError::ParseFailed(m) => outside(m),
            LockFileError::SerializeFailed(m) => outside(m),
            LockFileError::IoError(m) => outside(m),
            LockFileError::RequestError(m) => Diagnostic::new("Failed to fetch from Maven").message(
                owned("An error occurred while fetching a file from Maven."),
            ).help(owned("Check your network connection and try again.")).note(m.clone()),
            LockFileError::PackageNotFound => Diagnostic::new("Package not found").message(
                owned("This package is not included in the project."),
            ).help(owned("Check that the package is declared in your dependencies.")),
            LockFileError::FetchError(errors) => {
                let count = decimal(errors.len());
                let mut message = concat("Encountered ", count.as_str());
                append(&mut message, " errors while fetching packages.");
                let mut diag = Diagnostic::new("Failed to fetch packages").message(message);
                let ghost start = diag@;
                assert(lock_file_error_texts(errors@.take(0)) =~= Seq::<Seq<char>>::empty());
                let mut i: usize = 0;
                while i < errors.len()
                    invariant
                        i <= errors@.len(),
                        diag@ == report(
                            start.title,
                            start.message,
                            lock_file_error_texts(errors@.take(i as int)),
                            start.help,
                        ),
                    decreases errors@.len() - i,
                {
                    let text = errors[i].to_text();
                    diag = diag.note(text);
                    assert(lock_file_error_texts(errors@.take(i as int + 1)) =~= lock_file_error_texts(
                        errors@.take(i as int),
                    ).push(lock_file_error_text(errors@[i as int])));
                    i = i + 1;
                }
                assert(errors@.take(errors@.len() as int) =~= errors@);
                diag
            },
            LockFileError::MavenError(m) => outside(m),
            LockFileError::RemoteProcesserParsingError(m) => Diagnostic::new("Failed to process downloaded file").message(
                owned("An error occurred while processing the downloaded archive."),
            ).help(owned("The downloaded file may be corrupt or incomplete.")).note(m.clone()),
        }
    }
}

/// The report of a config error.
pub open spec fn config_error_report(e: ConfigError) -> DiagnosticView {
    match e {
        ConfigError::DuplicateLocalDependencies(name) => report(
            "Duplicate local dependencies found"@,
            Some("Found more then one local dependency tagged `"@ + name@ + "`"@),
            Seq::<Seq<char>>::empty(),
            Some("Remove one dependency or rename it"@),
        ),
        ConfigError::LocalDependencyNotFound(path) => report(
            "Local dependency path does not exist"@,
            Some("Could not find the local dependency "@ + path@),
            Seq::<Seq<char>>::empty(),
            Some("Ensure that the path given exists and is a jar file"@),
        ),
        ConfigError::LocalDependencyNotJar(path) => report(
            "Local dependency is not a jar file"@,
            Some("The local dependency "@ + path@ + " does not have a .jar extension"@),
            seq!["Currently only .jar files are supported as local dependencies"@],
            Some("Point the dependency at a valid .jar file"@),
        ),
        ConfigError::MissingValue(field) => report(
            "Missing lazy-java.toml value"@,
            Some("Could not parse lazy-java.toml, missing field '"@ + field@ + "'."@),
            Seq::<Seq<char>>::empty(),
            None,
        ),
        ConfigError::UnexpectedValue(field) => report(
            "Unexpected value in lazy-java.toml "@,
            Some("Could not parse lazy-java.toml, unexpected field '"@ + field@ + "'."@),
            Seq::<Seq<char>>::empty(),
            None,
        ),
        ConfigError::ParseError(m) => report("Failed to parse lazy-java.toml"@, None, seq![m@], None),
        ConfigError::NoConfig(path) => report(
            "lazy-java.toml file not found"@,
            Some("Could not find lazy-java.toml file at "@ + path@ + "."@),
            Seq::<Seq<char>>::empty(),
            Some("Create a lazy-java.toml file or specify a valid project root."@),
        ),
        ConfigError::LockFileError(err) => lock_file_error_report(err),
        ConfigError::MavenError(m) => outside_report(m@),
        ConfigError::IoError(m) => outside_report(m@),
        ConfigError::PackageNotFound => report(
            "Package not found"@,
            Some("Could not remove package because it is not included in lazy-java.toml file."@),
            Seq::<Seq<char>>::empty(),
            None,
        ),
    }
}

impl ConfigError {
    /// The report of the error (see `config_error_report`).
    pub fn diagnostic(&self) -> (d: Diagnostic)
        ensures
            d@ == config_error_report(*self),
    {
        match self {
            ConfigError::DuplicateLocalDependencies(name) => Diagnostic::new("Duplicate local dependencies found").message(
                text3("Found more then one local dependency tagged `", name, "`"),
            ).help(owned("Remove one dependency or rename it")),
            ConfigError::LocalDependencyNotFound(path) => Diagnostic::new("Local dependency path does not exist").message(
                text2("Could not find the local dependency ", path),
            ).help(owned("Ensure that the path given exists and is a jar file")),
            ConfigError::LocalDependencyNotJar(path) => Diagnostic::new("Local dependency is not a jar file").message(
                text3("The local dependency ", path, " does not have a .jar extension"),
            ).note(owned("Currently only .jar files are supported as local dependencies")).help(
                owned("Point the dependency at a valid .jar file"),
            ),
            ConfigError::MissingValue(field) => Diagnostic::new("Missing lazy-java.toml value").message(
                text3("Could not parse lazy-java.toml, missing field '", field, "'."),
            ),
            ConfigError::UnexpectedValue(field) => Diagnostic::new("Unexpected value in lazy-java.toml ").message(
                text3("Could not parse lazy-java.toml, unexpected field '", field, "'."),
            ),
            ConfigError::ParseError(m) => Diagnostic::new("Failed to parse lazy-java.toml").note(m.clone()),
            ConfigError::NoConfig(path) => Diagnostic::new("lazy-java.toml file not found").message(
                text3("Could not find lazy-java.toml file at ", path, "."),
            ).help(owned("Create a lazy-java.toml file or specify a valid project root.")),
            ConfigError::LockFileError(err) => err.diagnostic(),
            ConfigError::MavenError(m) => outside(m),
            ConfigError::IoError(m) => outside(m),
            ConfigError::PackageNotFound => Diagnostic::new("Package not found").message(
                owned("Could not remove package because it is not included in lazy-java.toml file."),
            ),
        }
    }
}

/// The message of a graph error.
pub open spec fn graph_error_text(e: GraphError) -> Seq<char> {
    match e {
        GraphError::NotFound(p) => "File "@ + p@ + ", does not exist while resolving file to id"@,
        GraphError::IOError(_) => "Io Error occured in the graph"@,
        GraphError::CreationError(m) => "Error creating dependancy graph, "@ + m@,
    }
}

impl GraphError {
    /// The message of the error (see `graph_error_text`).
    pub fn to_text(&self) -> (r: String)
        ensures
            r@ == graph_error_text(*self),
    {
        match self {
            GraphError::NotFound(p) => text3("File ", p, ", does not exist while resolving file to id"),
            GraphError::IOError(_) => owned("Io Error occured in the graph"),
            GraphError::CreationError(m) => text2("Error creating dependancy graph, ", m),
        }
    }
}

/// The report of a build error.
pub open spec fn build_error_report(e: BuildError) -> DiagnosticView {
    match e {
        BuildError::ProcessorCompilationErrors => report(
            "Annotation processor compilation failed"@,
            Some("Errors occurred while compiling the annotation processors."@),
            Seq::<Seq<char>>::empty(),
            Some("Check the annotation processor sources for compile errors."@),
        ),
        BuildError::MainCompilationErrors => report(
            "Compilation failed"@,
            Some("Errors occurred while compiling the java sources."@),
            Seq::<Seq<char>>::empty(),
            Some("Fix the compile errors and try again."@),
        ),
        BuildError::JarCreationError => report(
            "Jar creation failed"@,
            Some("An error occurred while creating the jar file."@),
            Seq::<Seq<char>>::empty(),
            Some("Check that the jar tool is available and the target directory is writable."@),
        ),
        BuildError::GraphError(err) => report(
            "Dependency graph error"@,
            Some("An error occurred while building the dependency graph."@),
            seq![graph_error_text(err)],
            None,
        ),
        BuildError::ConfigError(err) => config_error_report(err),
        BuildError::MetadataSerializeError(m) => outside_report(m@),
        BuildError::IoError(m) => outside_report(m@),
        BuildError::NoMainClass => report(
            "No main class specified"@,
            Some("No main class was specified for the jar."@),
            Seq::<Seq<char>>::empty(),
            Some("Provide one in the command line or insert into the lazy-java.toml file."@),
        ),
    }
}

impl BuildError {
    /// The report of the error (see `build_error_report`).
    pub fn diagnostic(&self) -> (d: Diagnostic)
        ensures
            d@ == build_error_report(*self),
    {
        match self {
            BuildError::ProcessorCompilationErrors => Diagnostic::new("Annotation processor compilation failed").message(
                owned("Errors occurred while compiling the annotation processors."),
            ).help(owned("Check the annotation processor sources for compile errors.")),
            BuildError::MainCompilationErrors => Diagnostic::new("Compilation failed").message(
                owned("Errors occurred while compiling the java sources."),
            ).help(owned("Fix the compile errors and try again.")),
            BuildError::JarCreationError => Diagnostic::new("Jar creation failed").message(
                owned("An error occurred while creating the jar file."),
            ).help(owned("Check that the jar tool is available and the target directory is writable.")),
            BuildError::GraphError(err) => Diagnostic::new("Dependency graph error").message(
                owned("An error occurred while building the dependency graph."),
            ).note(err.to_text()),
            BuildError::ConfigError(err) => err.diagnostic(),
            BuildError::MetadataSerializeError(m) => outside(m),
            BuildError::IoError(m) => outside(m),
            BuildError::NoMainClass => Diagnostic::new("No main class specified").message(
                owned("No main class was specified for the jar."),
            ).help(owned("Provide one in the command line or insert into the lazy-java.toml file.")),
        }
    }
}

/// The report of an error met while generating files for other tools.
pub open spec fn generate_error_report(e: GenerateError) -> DiagnosticView {
    match e {
        GenerateError::MissingValue { value_name, generated_value } => report(
            "Missing required value"@,
            Some("Field "@ + value_name@ + " is required to generate "@ + generated_value@),
            Seq::<Seq<char>>::empty(),
            Some("Set the "@ + value_name@ + " field in the config to generate "@ + generated_value@),
        ),
        GenerateError::SerialError(m) => outside_report(m@),
        GenerateError::LockFileError(err) => report(
            "Failed to operate on the lock file"@,
            Some(lock_file_error_text(err)),
            Seq::<Seq<char>>::empty(),
            None,
        ),
        GenerateError::IOError(m) => outside_report(m@),
    }
}

impl GenerateError {
    /// The report of the error (see `generate_error_report`).
    pub fn diagnostic(&self) -> (d: Diagnostic)
        ensures
            d@ == generate_error_report(*self),
    {
        match self {
            GenerateError::MissingValue { value_name, generated_value } => {
                let mut message = text3("Field ", value_name, " is required to generate ");
                append(&mut message, generated_value.as_str());
                let mut help = text3("Set the ", value_name, " field in the config to generate ");
                append(&mut help, generated_value.as_str());
                Diagnostic::new("Missing required value").message(message).help(help)
            },
            GenerateError::SerialError(m) => outside(m),
            GenerateError::LockFileError(err) => Diagnostic::new("Failed to operate on the lock file").message(
                err.to_text(),
            ),
            GenerateError::IOError(m) => outside(m),
        }
    }
}

/// The report of an error met while creating a project.
pub open spec fn create_error_report(e: CreateError) -> DiagnosticView {
    match e {
        CreateError::ProjectNameError => report(
            "Failed to prompt user"@,
            Some("Could not get the project name from the user."@),
            Seq::<Seq<char>>::empty(),
            None,
        ),
        CreateError::CreateDirectoryError => report(
            "Failed to create directory"@,
            Some("Could not create the project directory."@),
            Seq::<Seq<char>>::empty(),
            None,
        ),
        CreateError::IoError(m) => outside_report(m@),
        CreateError::NoGit => report(
            "Git not found"@,
            Some("Git is not installed or not available in your PATH."@),
            Seq::<Seq<char>>::empty(),
            Some("Install git and ensure it is accessible from the command line."@),
        ),
    }
}

impl CreateError {
    /// The report of the error (see `create_error_report`).
    pub fn diagnostic(&self) -> (d: Diagnostic)
        ensures
            d@ == create_error_report(*self),
    {
        match self {
            CreateError::ProjectNameError => Diagnostic::new("Failed to prompt user").message(
                owned("Could not get the project name from the user."),
            ),
            CreateError::CreateDirectoryError => Diagnostic::new("Failed to create directory").message(
                owned("Could not create the project directory."),
            ),
            CreateError::IoError(m) => outside(m),
            CreateError::NoGit => Diagnostic::new("Git not found").message(
                owned("Git is not installed or not available in your PATH."),
            ).help(owned("Install git and ensure it is accessible from the command line.")),
        }
    }
}

} // verus!
