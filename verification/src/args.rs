//! The command line of the tool, as parsed values.

use vstd::prelude::*;

verus! {

/// Everything given on the command line.
#[derive(Debug)]
pub struct LazyJavaArgs {
    pub command: LazyJavaCommand,
    pub global_args: LazyJavaGlobalArgs,
}

/// The operation to execute.
#[derive(Debug)]
#[allow(inconsistent_fields)]
pub enum LazyJavaCommand {
    Run { args: RunArgs },
    Build { args: BuildCommand },
    Clean {},
    Find { args: FindArgs },
    Create { args: CreateArgs },
    Add { args: AddArgs },
    Remove { args: RemoveArgs },
    Sync { args: SyncArgs },
}

/// Compile and run a main class.
#[derive(Debug)]
pub struct RunArgs {
    pub class: Option<String>,
    pub args: Vec<String>,
    pub no_build: bool,
    pub build_args: BuildArgs,
}

/// How to compile.
#[derive(Debug)]
pub struct BuildArgs {
    pub build_all: bool,
    pub javac_args: Vec<String>,
}

/// Compile, or one of the build's reports.
#[derive(Debug)]
pub struct BuildCommand {
    pub command: Option<BuildSubCommand>,
    pub args: BuildArgs,
}

/// The reports of the build.
#[derive(Debug, Clone, Copy, PartialEq, Eq, Structural)]
pub enum BuildSubCommand {
    Modified {},
    Dependancies {},
    Dependants {},
    Stale {},
    Classpath {},
}

/// Find the main classes.
#[derive(Debug)]
pub struct FindArgs {}

/// Create a project.
#[derive(Debug)]
pub struct CreateArgs {
    pub name: Option<String>,
    pub init_git: Option<bool>,
    pub bare: bool,
}

/// Add a dependency.
#[derive(Debug)]
pub struct AddArgs {
    pub group: String,
    pub artifact: String,
    pub artifact_version: Option<String>,
    pub dry_run: bool,
}

/// Remove a dependency.
#[derive(Debug)]
pub struct RemoveArgs {
    pub group: String,
    pub artifact: String,
    pub dry_run: bool,
}

/// Bring the library folder in line with the lock file.
#[derive(Debug)]
pub struct SyncArgs {
    pub dry_run: bool,
}

/// Options that every command takes.
#[derive(Debug)]
pub struct LazyJavaGlobalArgs {
    pub verbose: u8,
    pub source: Option<String>,
    pub build: Option<String>,
    pub lib: Option<String>,
}

} // verus!
