//! Resources: the files besides the Java sources that a build copies into the
//! class folder, and the files there that no longer belong.
//!
//! The file system is walked by the caller; these functions decide, entry by
//! entry, what becomes of it.

use vstd::prelude::*;
use crate::text::{owned, views};

verus! {

/// Whether the glob set built from the valid globs of `patterns` matches
/// `candidate` (a path); `None` when that set cannot be built.
pub uninterp spec fn glob_set_match(patterns: Seq<Seq<char>>, candidate: Seq<char>) -> Option<bool>;

/// Whether the glob set built from `patterns` matches `candidate`.
///
/// Trusted: builds a `globset::GlobSet` with `GlobSetBuilder` from the
/// patterns that `globset::Glob::new` accepts (the others are left out) and
/// calls `GlobSet::is_match`; `None` when `GlobSetBuilder::build` fails. The
/// contract names the result, and states the one fact the source shows
/// plainly: a set built from no pattern is built and matches nothing.
#[verifier::external_body]
fn globs_match(patterns: &Vec<String>, candidate: &String) -> (r: Option<bool>)
    ensures
        r == glob_set_match(views(patterns@), candidate@),
        patterns@.len() == 0 ==> r == Some(false),
{
    let mut builder = globset::GlobSetBuilder::new();
    for p in patterns.iter() {
        if let Ok(g) = globset::Glob::new(p) {
            builder.add(g);
        }
    }
    match builder.build() {
        Ok(set) => Some(set.is_match(candidate)),
        Err(_) => None,
    }
}

/// Position `k` holds the last `.` of `name`.
pub open spec fn last_dot(name: Seq<char>, k: int) -> bool {
    &&& 0 <= k < name.len()
    &&& name[k] == '.'
    &&& forall|j: int| k < j < name.len() ==> name[j] != '.'
}

/// The extension of a file name, as `Path::extension` documents it: none
/// without a `.`, none for a name that begins with its only `.` (and none
/// for `..`); else what follows the last `.`.
pub open spec fn extension_of(name: Seq<char>) -> Option<Seq<char>> {
    if name == seq!['.', '.'] {
        None
    } else if exists|k: int| last_dot(name, k) {
        let k = choose|k: int| last_dot(name, k);
        if k == 0 {
            None
        } else {
            Some(name.subrange(k + 1, name.len() as int))
        }
    } else {
        None
    }
}

/// The extension of a file name (see `extension_of`).
pub fn name_extension(name: &String) -> (r: Option<String>)
    ensures
        match r {
            Some(e) => extension_of(name@) == Some(e@),
            None => extension_of(name@) is None,
        },
{
    let s = name.as_str();
    let n = s.unicode_len();
    if n == 2 && s.get_char(0) == '.' && s.get_char(1) == '.' {
        assert(name@ =~= seq!['.', '.']);
        return None;
    }
    assert(name@ != seq!['.', '.']) by {
        if name@ == seq!['.', '.'] {
            assert(name@[0] == '.' && name@[1] == '.');
        }
    }
    let mut i: usize = n;
    while i > 0
        invariant
            i <= n,
            n == name@.len(),
            s@ == name@,
            name@ != seq!['.', '.'],
            forall|j: int| i <= j < n ==> name@[j] != '.',
        decreases i,
    {
        if s.get_char(i - 1) == '.' {
            let k = i - 1;
            proof {
                assert(last_dot(name@, k as int));
                let c = choose|c: int| last_dot(name@, c);
                if c < k {
                    assert(name@[k as int] == '.');
                } else if k < c {
                    assert(name@[c] == '.');
                }
            }
            if k == 0 {
                return None;
            }
            let e = s.substring_char(k + 1, n);
            return Some(e.to_owned());
        }
        i = i - 1;
    }
    proof {
        if exists|c: int| last_dot(name@, c) {
            let c = choose|c: int| last_dot(name@, c);
            assert(name@[c] == '.');
        }
    }
    None
}

/// Whether a file name has exactly this extension.
fn has_extension(name: &String, ext: &str) -> (r: bool)
    ensures
        r == (extension_of(name@) == Some(ext@)),
{
    match name_extension(name) {
        Some(e) => e == owned(ext),
        None => false,
    }
}

/// What becomes of an entry while resources are gathered.
#[derive(Debug, Clone, Copy, PartialEq, Eq, Structural)]
pub enum ResourceAction {
    /// Left alone.
    Skip,
    /// A folder to walk into.
    Descend,
    /// A resource, copied into the class folder.
    Copy,
}

/// What becomes of an entry of the source tree: an excluded entry is
/// skipped, a folder is walked, and a file is copied unless it is a Java
/// source.
pub open spec fn source_action(excluded: bool, is_dir: bool, name: Seq<char>) -> ResourceAction {
    if excluded {
        ResourceAction::Skip
    } else if is_dir {
        ResourceAction::Descend
    } else if extension_of(name) == Some("java"@) {
        ResourceAction::Skip
    } else {
        ResourceAction::Copy
    }
}

/// The action for an entry of the source tree, given whether the exclusion
/// globs matched it (see `source_action`).
pub fn source_entry_action(excluded: bool, is_dir: bool, name: &String) -> (r: ResourceAction)
    ensures
        r == source_action(excluded, is_dir, name@),
{
    if excluded {
        ResourceAction::Skip
    } else if is_dir {
        ResourceAction::Descend
    } else if has_extension(name, "java") {
        ResourceAction::Skip
    } else {
        ResourceAction::Copy
    }
}

/// The action for an entry of the source tree at `path`, named `name`: it
/// is excluded when a glob of `exclude` matches its path or else its name;
/// `None` when the exclusion globs cannot be built into a set.
pub fn source_entry(exclude: &Vec<String>, path: &String, name: &String, is_dir: bool) -> (r: Option<ResourceAction>)
    ensures
        match glob_set_match(views(exclude@), path@) {
            None => r is None,
            Some(true) => r == Some(source_action(true, is_dir, name@)),
            Some(false) => match glob_set_match(views(exclude@), name@) {
                None => r is None,
                Some(m) => r == Some(source_action(m, is_dir, name@)),
            },
        },
        exclude@.len() == 0 ==> r == Some(source_action(false, is_dir, name@)),
{
    let excluded = match globs_match(exclude, path) {
        None => {
            return None;
        },
        Some(true) => true,
        Some(false) => match globs_match(exclude, name) {
            None => {
                return None;
            },
            Some(m) => m,
        },
    };
    Some(source_entry_action(excluded, is_dir, name))
}

/// What becomes of an entry of the project folder while external resources
/// are gathered: the source, target and class folders are skipped, as are
/// folders whose name begins with `.`; other folders are walked; a file is
/// copied when the external globs match its path relative to the root.
pub open spec fn external_action(project_folder: bool, is_dir: bool, name: Seq<char>, matched: bool) -> ResourceAction {
    if project_folder {
        ResourceAction::Skip
    } else if is_dir {
        if name.len() > 0 && name[0] == '.' {
            ResourceAction::Skip
        } else {
            ResourceAction::Descend
        }
    } else if matched {
        ResourceAction::Copy
    } else {
        ResourceAction::Skip
    }
}

/// The action for an entry of the project folder, given whether the
/// external globs matched it (see `external_action`).
pub fn external_entry_action(project_folder: bool, is_dir: bool, name: &String, matched: bool) -> (r: ResourceAction)
    ensures
        r == external_action(project_folder, is_dir, name@, matched),
{
    if project_folder {
        ResourceAction::Skip
    } else if is_dir {
        let s = name.as_str();
        if s.unicode_len() > 0 && s.get_char(0) == '.' {
            ResourceAction::Skip
        } else {
            ResourceAction::Descend
        }
    } else if matched {
        ResourceAction::Copy
    } else {
        ResourceAction::Skip
    }
}

/// The action for an entry of the project folder named `name`, whose path
/// relative to the root is `relative`; `project_folder` tells whether it
/// is the source, target or class folder; `None` when the external globs
/// cannot be built into a set.
pub fn external_entry(
    external: &Vec<String>,
    relative: &String,
    name: &String,
    is_dir: bool,
    project_folder: bool,
) -> (r: Option<ResourceAction>)
    ensures
        match glob_set_match(views(external@), relative@) {
            None => r is None,
            Some(m) => r == Some(external_action(project_folder, is_dir, name@, m)),
        },
{
    match globs_match(external, relative) {
        None => None,
        Some(matched) => Some(external_entry_action(project_folder, is_dir, name, matched)),
    }
}

/// Whether a resource is copied: when its copy is missing, or older than
/// the resource (by modification time).
pub fn copy_needed(copy_exists: bool, source_modified: u128, copy_modified: u128) -> (r: bool)
    ensures
        r == (!copy_exists || source_modified > copy_modified),
{
    !copy_exists || source_modified > copy_modified
}

/// What becomes of an entry of the class folder once the resources are
/// copied.
#[derive(Debug, Clone, Copy, PartialEq, Eq, Structural)]
pub enum OutputAction {
    /// A folder to walk into.
    Descend,
    /// A class file or a resource: it stays.
    Keep,
    /// A file that is neither: it is removed.
    Remove,
}

/// Folders are walked; a file stays when it is a class file or one of the
/// resources just copied, and is removed otherwise.
pub open spec fn output_action(is_dir: bool, name: Seq<char>, path: Seq<char>, resources: Seq<Seq<char>>) -> OutputAction {
    if is_dir {
        OutputAction::Descend
    } else if extension_of(name) == Some("class"@) || resources.contains(path) {
        OutputAction::Keep
    } else {
        OutputAction::Remove
    }
}

/// The action for an entry of the class folder at `path`, named `name`,
/// given the paths of the copied resources.
pub fn output_entry(is_dir: bool, name: &String, path: &String, resources: &Vec<String>) -> (r: OutputAction)
    ensures
        r == output_action(is_dir, name@, path@, views(resources@)),
{
    if is_dir {
        return OutputAction::Descend;
    }
    if has_extension(name, "class") {
        return OutputAction::Keep;
    }
    let mut i: usize = 0;
    while i < resources.len()
        invariant
            i <= resources@.len(),
            !is_dir,
            extension_of(name@) != Some("class"@),
            forall|j: int| 0 <= j < i ==> resources@[j]@ != path@,
        decreases resources@.len() - i,
    {
        if resources[i] == *path {
            assert(views(resources@)[i as int] == path@);
            assert(views(resources@).contains(path@));
            return OutputAction::Keep;
        }
        i = i + 1;
    }
    proof {
        if views(resources@).contains(path@) {
            let k = choose|k: int| 0 <= k < views(resources@).len() && views(resources@)[k] == path@;
            assert(resources@[k]@ == path@);
        }
    }
    OutputAction::Remove
}

} // verus!
