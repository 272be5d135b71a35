//! Where the project lives: its root, found by the markers a project root
//! carries, and its source, class and library folders, as the command line
//! and the config name them.

use vstd::prelude::*;
use crate::args::LazyJavaArgs;
use crate::config::Config;
use crate::errors::ContextError;
use crate::text::owned;

verus! {

/// The default source folder.
pub const SRC_FOLDER: &'static str = "src";

/// The default folder for compiled classes.
pub const BUILD_FOLDER: &'static str = "bin";

/// The default library folder.
pub const LIB_FOLDER: &'static str = "lib";

/// The project's folders, absolute and as given, and its config.
#[derive(Debug)]
pub struct Context {
    pub src: String,
    pub bin: String,
    pub lib: String,
    pub root: String,
    pub current: String,
    pub relative_src: String,
    pub relative_bin: String,
    pub relative_lib: String,
    pub config: Config,
}

/// The first of the command line's choice, the config's choice and the
/// default.
pub open spec fn pick(arg: Option<String>, conf: Option<String>, default: Seq<char>) -> Seq<char> {
    match arg {
        Some(a) => a@,
        None => match conf {
            Some(c) => c@,
            None => default,
        },
    }
}

/// `rel` taken relative to `base`, as a path on a system with `/` as
/// separator: an absolute `rel` stands alone; otherwise a `/` goes between
/// them unless `base` is empty or already ends in one.
pub open spec fn joined(base: Seq<char>, rel: Seq<char>) -> Seq<char> {
    if rel.len() > 0 && rel[0] == '/' {
        rel
    } else if base.len() == 0 || base.last() == '/' {
        base + rel
    } else {
        base + seq!['/'] + rel
    }
}

/// `rel` taken relative to `base` (see `joined`).
pub fn join_path(base: &String, rel: &String) -> (r: String)
    ensures
        r@ == joined(base@, rel@),
{
    let n = rel.as_str().unicode_len();
    if n > 0 && rel.as_str().get_char(0) == '/' {
        return rel.clone();
    }
    let m = base.as_str().unicode_len();
    let mut r = base.clone();
    if !(m == 0 || base.as_str().get_char(m - 1) == '/') {
        crate::text::push_char(&mut r, '/');
    }
    r.append(rel.as_str());
    r
}

impl Context {
    /// The source folder as given: the command line's, else the config's,
    /// else `src`.
    pub fn src_path(args: &LazyJavaArgs, config: &Config) -> (r: String)
        ensures
            r@ == pick(args.global_args.source, config.setup.src, SRC_FOLDER@),
    {
        match &args.global_args.source {
            Some(s) => s.clone(),
            None => match &config.setup.src {
                Some(s) => s.clone(),
                None => owned(SRC_FOLDER),
            },
        }
    }

    /// The class folder as given: the command line's, else the config's,
    /// else `bin`.
    pub fn bin_path(args: &LazyJavaArgs, config: &Config) -> (r: String)
        ensures
            r@ == pick(args.global_args.build, config.setup.bin, BUILD_FOLDER@),
    {
        match &args.global_args.build {
            Some(s) => s.clone(),
            None => match &config.setup.bin {
                Some(s) => s.clone(),
                None => owned(BUILD_FOLDER),
            },
        }
    }

    /// The library folder as given: the command line's, else the config's,
    /// else `lib`.
    pub fn lib_path(args: &LazyJavaArgs, config: &Config) -> (r: String)
        ensures
            r@ == pick(args.global_args.lib, config.setup.lib, LIB_FOLDER@),
    {
        match &args.global_args.lib {
            Some(s) => s.clone(),
            None => match &config.setup.lib {
                Some(s) => s.clone(),
                None => owned(LIB_FOLDER),
            },
        }
    }

    /// The context of a project whose root is `root`, run from `current`:
    /// each folder as given (see `src_path`, `bin_path`, `lib_path`) and
    /// taken relative to the root.
    pub fn new(args: &LazyJavaArgs, current: String, root: String, config: Config) -> (c: Context)
        ensures
            c.relative_src@ == pick(args.global_args.source, config.setup.src, SRC_FOLDER@),
            c.relative_bin@ == pick(args.global_args.build, config.setup.bin, BUILD_FOLDER@),
            c.relative_lib@ == pick(args.global_args.lib, config.setup.lib, LIB_FOLDER@),
            c.src@ == joined(root@, c.relative_src@),
            c.bin@ == joined(root@, c.relative_bin@),
            c.lib@ == joined(root@, c.relative_lib@),
            c.root@ == root@,
            c.current@ == current@,
            c.config == config,
    {
        let relative_src = Self::src_path(args, &config);
        let relative_lib = Self::lib_path(args, &config);
        let relative_bin = Self::bin_path(args, &config);
        let lib = join_path(&root, &relative_lib);
        let src = join_path(&root, &relative_src);
        let bin = join_path(&root, &relative_bin);
        Context { relative_bin, relative_lib, relative_src, src, bin, lib, root, current, config }
    }

    /// Fails with `NoSource(absolute)` when the source folder does not exist
    /// (`absolute` is its absolute path).
    pub fn assert_src_exists(&self, exists: bool, absolute: &String) -> (r: Result<(), ContextError>)
        ensures
            r is Ok <==> exists,
            r matches Err(e) ==> (e matches ContextError::NoSource(p) && p@ == absolute@),
    {
        if !exists {
            return Err(ContextError::NoSource(absolute.clone()));
        }
        Ok(())
    }

    /// Fails with `NoBuild(absolute)` when the class folder does not exist.
    pub fn assert_bin_exists(&self, exists: bool, absolute: &String) -> (r: Result<(), ContextError>)
        ensures
            r is Ok <==> exists,
            r matches Err(e) ==> (e matches ContextError::NoBuild(p) && p@ == absolute@),
    {
        if !exists {
            return Err(ContextError::NoBuild(absolute.clone()));
        }
        Ok(())
    }

    /// Fails with `NoLib(absolute)` when the library folder does not exist.
    pub fn assert_lib_exists(&self, exists: bool, absolute: &String) -> (r: Result<(), ContextError>)
        ensures
            r is Ok <==> exists,
            r matches Err(e) ==> (e matches ContextError::NoLib(p) && p@ == absolute@),
    {
        if !exists {
            return Err(ContextError::NoLib(absolute.clone()));
        }
        Ok(())
    }

    /// Checks the source, class and library folders in that order, failing
    /// for the first that does not exist.
    pub fn assert_build_lib_src(&self, src: &FolderFacts, bin: &FolderFacts, lib: &FolderFacts) -> (r: Result<
        (),
        ContextError,
    >)
        ensures
            r is Ok <==> src.exists && bin.exists && lib.exists,
            !src.exists ==> (r matches Err(ContextError::NoSource(p)) && p@ == src.absolute@),
            src.exists && !bin.exists ==> (r matches Err(ContextError::NoBuild(p)) && p@ == bin.absolute@),
            src.exists && bin.exists && !lib.exists ==> (r matches Err(ContextError::NoLib(p)) && p@
                == lib.absolute@),
    {
        match self.assert_src_exists(src.exists, &src.absolute) {
            Ok(()) => {},
            Err(e) => {
                return Err(e);
            },
        }
        match self.assert_bin_exists(bin.exists, &bin.absolute) {
            Ok(()) => {},
            Err(e) => {
                return Err(e);
            },
        }
        match self.assert_lib_exists(lib.exists, &lib.absolute) {
            Ok(()) => {},
            Err(e) => {
                return Err(e);
            },
        }
        Ok(())
    }
}

/// Whether a folder exists, and its absolute path.
#[derive(Debug)]
pub struct FolderFacts {
    pub exists: bool,
    pub absolute: String,
}

/// One folder on the way from where the tool runs up to the file system's
/// root: its path, and the names of its entries (or the error met listing
/// it).
#[derive(Debug)]
pub struct DirLevel {
    pub path: String,
    pub listing: Result<Vec<String>, String>,
}

/// Why no project root was found.
#[derive(Debug)]
pub enum RootError {
    Io(String),
    NotFound,
}

/// The names whose presence marks a project root.
pub open spec fn is_root_marker(name: Seq<char>) -> bool {
    name == ".git"@ || name == "pom.xml"@ || name == ".idea"@ || name == "build.gradle"@ || name
        == "build.gradle.kts"@
}

/// Some entry of the listing marks a project root.
pub open spec fn has_marker(names: Seq<String>) -> bool {
    exists|i: int| 0 <= i < names.len() && is_root_marker(#[trigger] names[i]@)
}

/// The outcome of searching the first `upto` levels: the first level that
/// cannot be listed or carries a marker decides; `None` when none does.
pub open spec fn root_search(levels: Seq<DirLevel>, upto: int) -> Option<Result<Seq<char>, Seq<char>>>
    decreases upto,
{
    if upto <= 0 {
        None
    } else {
        match root_search(levels, upto - 1) {
            Some(r) => Some(r),
            None => match levels[upto - 1].listing {
                Err(msg) => Some(Err(msg@)),
                Ok(names) => if has_marker(names@) {
                    Some(Ok(levels[upto - 1].path@))
                } else {
                    None
                },
            },
        }
    }
}

/// Whether a name marks a project root.
fn marks_root(name: &String) -> (b: bool)
    ensures
        b == is_root_marker(name@),
{
    *name == owned(".git") || *name == owned("pom.xml") || *name == owned(".idea") || *name == owned(
        "build.gradle",
    ) || *name == owned("build.gradle.kts")
}

/// The project root: the first folder, from where the tool runs upwards
/// (`levels[0]` is that folder, each next one its parent), that holds one
/// of `.git`, `pom.xml`, `.idea`, `build.gradle` or `build.gradle.kts`.
/// Fails with the error of the first folder that cannot be listed before
/// that, or `NotFound` when no folder has a marker.
pub fn find_root(levels: &Vec<DirLevel>) -> (r: Result<String, RootError>)
    ensures
        match root_search(levels@, levels@.len() as int) {
            Some(Ok(p)) => (r matches Ok(s) && s@ == p),
            Some(Err(m)) => (r matches Err(RootError::Io(s)) && s@ == m),
            None => r matches Err(RootError::NotFound),
        },
{
    let mut i: usize = 0;
    while i < levels.len()
        invariant
            i <= levels@.len(),
            root_search(levels@, i as int) is None,
        decreases levels@.len() - i,
    {
        match &levels[i].listing {
            Err(msg) => {
                proof {
                    lemma_search_decided(levels@, i + 1, levels@.len() as int);
                }
                return Err(RootError::Io(msg.clone()));
            },
            Ok(names) => {
                let mut k: usize = 0;
                while k < names.len()
                    invariant
                        i < levels@.len(),
                        root_search(levels@, i as int) is None,
                        levels@[i as int].listing == Ok::<Vec<String>, String>(*names),
                        k <= names@.len(),
                        forall|j: int| 0 <= j < k ==> !is_root_marker(#[trigger] names@[j]@),
                    decreases names@.len() - k,
                {
                    if marks_root(&names[k]) {
                        proof {
                            assert(has_marker(names@));
                            lemma_search_decided(levels@, i + 1, levels@.len() as int);
                        }
                        return Ok(levels[i].path.clone());
                    }
                    k = k + 1;
                }
                assert(!has_marker(names@));
            },
        }
        i = i + 1;
    }
    Err(RootError::NotFound)
}

proof fn lemma_search_decided(levels: Seq<DirLevel>, a: int, b: int)
    requires
        0 < a <= b,
        root_search(levels, a) is Some,
    ensures
        root_search(levels, b) == root_search(levels, a),
    decreases b - a,
{
    if a < b {
        lemma_search_decided(levels, a, b - 1);
    }
}

} // verus!
