//! The lock file: every resolved remote package and every local jar of the
//! project, with the queries the build asks of it.

use vstd::prelude::*;
use crate::maven::{DependencyType, MavenId, MavenIdView, PartialMavenId, Scope};
use crate::text::{clone_strings, views};

verus! {

/// The abstract contents of a remote package entry.
pub struct RemotePackageView {
    pub id: MavenIdView,
    pub file_name: Seq<char>,
    pub url: Seq<char>,
    pub dependencies: Seq<MavenIdView>,
    pub packaging: DependencyType,
    pub root: bool,
    pub scope: Scope,
    pub path: Option<Seq<char>>,
    pub annotations: Seq<Seq<char>>,
}

/// The views of a sequence of coordinates.
pub open spec fn id_views(v: Seq<MavenId>) -> Seq<MavenIdView> {
    v.map_values(|d: MavenId| d@)
}

/// The view of an optional string.
pub open spec fn opt_view(o: Option<String>) -> Option<Seq<char>> {
    match o {
        Some(s) => Some(s@),
        None => None,
    }
}

/// A package fetched from a Maven repository.
#[derive(Debug)]
pub struct LockFilePackageRemote {
    pub id: MavenId,
    pub file_name: String,
    pub url: String,
    pub dependencies: Vec<MavenId>,
    pub packaging: DependencyType,
    pub root: bool,
    pub scope: Scope,
    pub path: Option<String>,
    pub annotations: Vec<String>,
}

impl View for LockFilePackageRemote {
    type V = RemotePackageView;

    open spec fn view(&self) -> RemotePackageView {
        RemotePackageView {
            id: self.id@,
            file_name: self.file_name@,
            url: self.url@,
            dependencies: id_views(self.dependencies@),
            packaging: self.packaging,
            root: self.root,
            scope: self.scope,
            path: opt_view(self.path),
            annotations: views(self.annotations@),
        }
    }
}

/// A copy of an optional string.
pub fn copy_opt_string(o: &Option<String>) -> (r: Option<String>)
    ensures
        opt_view(r) == opt_view(*o),
{
    match o {
        Some(s) => Some(s.clone()),
        None => None,
    }
}

/// A copy of a list of coordinates.
pub fn copy_ids(v: &Vec<MavenId>) -> (r: Vec<MavenId>)
    ensures
        id_views(r@) == id_views(v@),
{
    let mut r: Vec<MavenId> = Vec::new();
    let mut i: usize = 0;
    while i < v.len()
        invariant
            i <= v.len(),
            r@.len() == i,
            forall|j: int| 0 <= j < i ==> r@[j]@ == v@[j]@,
        decreases v.len() - i,
    {
        let c = v[i].copy();
        r.push(c);
        i = i + 1;
    }
    assert(id_views(r@) =~= id_views(v@));
    r
}

/// Whether `v` holds a coordinate equal to `id`.
pub fn ids_contain(v: &Vec<MavenId>, id: &MavenId) -> (b: bool)
    ensures
        b == id_views(v@).contains(id@),
{
    let mut i: usize = 0;
    while i < v.len()
        invariant
            i <= v.len(),
            forall|j: int| 0 <= j < i ==> v@[j]@ != id@,
        decreases v.len() - i,
    {
        if v[i].same_as(id) {
            assert(id_views(v@)[i as int] == id@);
            return true;
        }
        i = i + 1;
    }
    assert(!id_views(v@).contains(id@)) by {
        if id_views(v@).contains(id@) {
            let k = choose|k: int| 0 <= k < id_views(v@).len() && id_views(v@)[k] == id@;
            assert(v@[k]@ == id@);
        }
    }
    false
}

impl LockFilePackageRemote {
    /// A copy of the entry.
    pub fn copy(&self) -> (r: LockFilePackageRemote)
        ensures
            r@ == self@,
    {
        LockFilePackageRemote {
            id: self.id.copy(),
            file_name: self.file_name.clone(),
            url: self.url.clone(),
            dependencies: copy_ids(&self.dependencies),
            packaging: self.packaging,
            root: self.root,
            scope: self.scope,
            path: copy_opt_string(&self.path),
            annotations: clone_strings(&self.annotations),
        }
    }

    /// Whether this package lists `id` among its dependencies.
    pub fn depends_on(&self, id: &MavenId) -> (b: bool)
        ensures
            b == self@.dependencies.contains(id@),
    {
        ids_contain(&self.dependencies, id)
    }
}

/// The abstract contents of a local jar entry.
pub struct LocalPackageView {
    pub file_name: Seq<char>,
    pub packaging: DependencyType,
    pub root: bool,
    pub scope: Scope,
    pub path: Seq<char>,
    pub annotations: Seq<Seq<char>>,
}

/// A jar on the local disk that the project depends on.
#[derive(Debug)]
pub struct LockFilePackageLocal {
    pub file_name: String,
    pub packaging: DependencyType,
    pub root: bool,
    pub scope: Scope,
    pub path: String,
    pub annotations: Vec<String>,
}

impl View for LockFilePackageLocal {
    type V = LocalPackageView;

    open spec fn view(&self) -> LocalPackageView {
        LocalPackageView {
            file_name: self.file_name@,
            packaging: self.packaging,
            root: self.root,
            scope: self.scope,
            path: self.path@,
            annotations: views(self.annotations@),
        }
    }
}

impl LockFilePackageLocal {
    /// A copy of the entry.
    pub fn copy(&self) -> (r: LockFilePackageLocal)
        ensures
            r@ == self@,
    {
        LockFilePackageLocal {
            file_name: self.file_name.clone(),
            packaging: self.packaging,
            root: self.root,
            scope: self.scope,
            path: self.path.clone(),
            annotations: clone_strings(&self.annotations),
        }
    }
}

/// The views of remote entries.
pub open spec fn remote_views(v: Seq<LockFilePackageRemote>) -> Seq<RemotePackageView> {
    v.map_values(|p: LockFilePackageRemote| p@)
}

/// The views of local entries.
pub open spec fn local_views(v: Seq<LockFilePackageLocal>) -> Seq<LocalPackageView> {
    v.map_values(|p: LockFilePackageLocal| p@)
}

/// A dependency that the project's config names directly, by coordinate.
#[derive(Debug)]
pub struct RootPackage {
    pub scope: Option<Scope>,
    pub group: String,
    pub version: String,
}

/// A dependency that the project's config names directly, by path.
#[derive(Debug)]
pub struct LocalRootPackage {
    pub scope: Option<Scope>,
    pub path: String,
}

/// The name of the lock file in the project root.
pub const LOCK_FILE_NAME: &'static str = "lazy-java.lock";

/// All packages of the project.
#[derive(Debug)]
pub struct LockFile {
    pub packages: Vec<LockFilePackageRemote>,
    pub local_packages: Vec<LockFilePackageLocal>,
}

impl LockFile {
    /// The remote entries.
    pub open spec fn remote(&self) -> Seq<RemotePackageView> {
        remote_views(self.packages@)
    }

    /// The local entries.
    pub open spec fn local(&self) -> Seq<LocalPackageView> {
        local_views(self.local_packages@)
    }

    /// The lock file as stored, or an empty one when the project has none
    /// yet (`stored` is what was read from disk).
    pub fn fetch(stored: Option<LockFile>) -> (l: LockFile)
        ensures
            match stored {
                Some(s) => l == s,
                None => l.remote() == Seq::<RemotePackageView>::empty() && l.local()
                    == Seq::<LocalPackageView>::empty(),
            },
    {
        match stored {
            Some(l) => l,
            None => LockFile::new(),
        }
    }

    /// A lock file with no packages.
    pub fn new() -> (l: LockFile)
        ensures
            l.remote() == Seq::<RemotePackageView>::empty(),
            l.local() == Seq::<LocalPackageView>::empty(),
    {
        let l = LockFile { packages: Vec::new(), local_packages: Vec::new() };
        assert(l.remote() =~= Seq::<RemotePackageView>::empty());
        assert(l.local() =~= Seq::<LocalPackageView>::empty());
        l
    }
}

} // verus!
