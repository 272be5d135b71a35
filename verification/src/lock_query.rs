//! What the build asks of the lock file: which packages it holds and which
//! jar paths belong on a class path.

use vstd::prelude::*;
use crate::lock_file::{LockFile, LocalPackageView, RemotePackageView, local_views, remote_views};
use crate::maven::{MavenId, Scope};
use crate::text::views;

verus! {

/// The paths of the remote entries whose scope is in `scopes` and that have a
/// path (and, when `processors` is set, at least one annotation processor),
/// in order.
pub open spec fn remote_paths(pk: Seq<RemotePackageView>, scopes: Seq<Scope>, processors: bool) -> Seq<Seq<char>>
    decreases pk.len(),
{
    if pk.len() == 0 {
        Seq::<Seq<char>>::empty()
    } else {
        let r = remote_paths(pk.drop_last(), scopes, processors);
        let p = pk.last();
        if scopes.contains(p.scope) && (!processors || p.annotations.len() > 0) && p.path is Some {
            r.push(p.path->0)
        } else {
            r
        }
    }
}

/// The paths of the local entries whose scope is in `scopes` (and, when
/// `processors` is set, that have an annotation processor), in order.
pub open spec fn local_paths(pk: Seq<LocalPackageView>, scopes: Seq<Scope>, processors: bool) -> Seq<Seq<char>>
    decreases pk.len(),
{
    if pk.len() == 0 {
        Seq::<Seq<char>>::empty()
    } else {
        let r = local_paths(pk.drop_last(), scopes, processors);
        let p = pk.last();
        if scopes.contains(p.scope) && (!processors || p.annotations.len() > 0) {
            r.push(p.path)
        } else {
            r
        }
    }
}

/// The scopes whose jars are needed to compile.
pub open spec fn compile_scopes() -> Seq<Scope> {
    seq![Scope::System, Scope::Provided, Scope::Compile]
}

/// The scopes whose jars are needed to run.
pub open spec fn runtime_scopes() -> Seq<Scope> {
    seq![Scope::System, Scope::Runtime, Scope::Compile]
}

/// The scope is one of those whose jars are needed to compile.
pub open spec fn compile_scope(s: Scope) -> bool {
    s == Scope::System || s == Scope::Provided || s == Scope::Compile
}

/// The scope is one of those whose jars are needed to run.
pub open spec fn runtime_scope(s: Scope) -> bool {
    s == Scope::System || s == Scope::Runtime || s == Scope::Compile
}

proof fn lemma_scope_lists()
    ensures
        forall|s: Scope| #[trigger] compile_scopes().contains(s) <==> compile_scope(s),
        forall|s: Scope| #[trigger] runtime_scopes().contains(s) <==> runtime_scope(s),
{
    assert forall|s: Scope| #[trigger] compile_scopes().contains(s) <==> compile_scope(s) by {
        if compile_scope(s) {
            if s == Scope::System {
                assert(compile_scopes()[0] == s);
            } else if s == Scope::Provided {
                assert(compile_scopes()[1] == s);
            } else {
                assert(compile_scopes()[2] == s);
            }
        }
    }
    assert forall|s: Scope| #[trigger] runtime_scopes().contains(s) <==> runtime_scope(s) by {
        if runtime_scope(s) {
            if s == Scope::System {
                assert(runtime_scopes()[0] == s);
            } else if s == Scope::Runtime {
                assert(runtime_scopes()[1] == s);
            } else {
                assert(runtime_scopes()[2] == s);
            }
        }
    }
}

proof fn lemma_remote_paths_members(pk: Seq<RemotePackageView>, scopes: Seq<Scope>, processors: bool, q: Seq<char>)
    ensures
        remote_paths(pk, scopes, processors).contains(q) <==> exists|i: int|
            0 <= i < pk.len() && scopes.contains((#[trigger] pk[i]).scope) && (!processors || pk[i].annotations.len()
                > 0) && pk[i].path == Some(q),
    decreases pk.len(),
{
    if pk.len() > 0 {
        let rest = pk.drop_last();
        lemma_remote_paths_members(rest, scopes, processors, q);
        let r = remote_paths(rest, scopes, processors);
        let p = pk.last();
        if scopes.contains(p.scope) && (!processors || p.annotations.len() > 0) && p.path is Some {
            crate::text::lemma_push_contains(r, p.path->0, q);
        }
        if exists|i: int|
            0 <= i < pk.len() && scopes.contains((#[trigger] pk[i]).scope) && (!processors || pk[i].annotations.len()
                > 0) && pk[i].path == Some(q) {
            let i = choose|i: int|
                0 <= i < pk.len() && scopes.contains((#[trigger] pk[i]).scope) && (!processors || pk[i].annotations.len()
                    > 0) && pk[i].path == Some(q);
            if i < pk.len() - 1 {
                assert(rest[i] == pk[i]);
            }
        }
        if exists|i: int|
            0 <= i < rest.len() && scopes.contains((#[trigger] rest[i]).scope) && (!processors
                || rest[i].annotations.len() > 0) && rest[i].path == Some(q) {
            let i = choose|i: int|
                0 <= i < rest.len() && scopes.contains((#[trigger] rest[i]).scope) && (!processors
                    || rest[i].annotations.len() > 0) && rest[i].path == Some(q);
            assert(pk[i] == rest[i]);
        }
    }
}

proof fn lemma_local_paths_members(pk: Seq<LocalPackageView>, scopes: Seq<Scope>, processors: bool, q: Seq<char>)
    ensures
        local_paths(pk, scopes, processors).contains(q) <==> exists|i: int|
            0 <= i < pk.len() && scopes.contains((#[trigger] pk[i]).scope) && (!processors || pk[i].annotations.len()
                > 0) && pk[i].path == q,
    decreases pk.len(),
{
    if pk.len() > 0 {
        let rest = pk.drop_last();
        lemma_local_paths_members(rest, scopes, processors, q);
        let r = local_paths(rest, scopes, processors);
        let p = pk.last();
        if scopes.contains(p.scope) && (!processors || p.annotations.len() > 0) {
            crate::text::lemma_push_contains(r, p.path, q);
        }
        if exists|i: int|
            0 <= i < pk.len() && scopes.contains((#[trigger] pk[i]).scope) && (!processors || pk[i].annotations.len()
                > 0) && pk[i].path == q {
            let i = choose|i: int|
                0 <= i < pk.len() && scopes.contains((#[trigger] pk[i]).scope) && (!processors || pk[i].annotations.len()
                    > 0) && pk[i].path == q;
            if i < pk.len() - 1 {
                assert(rest[i] == pk[i]);
            }
        }
        if exists|i: int|
            0 <= i < rest.len() && scopes.contains((#[trigger] rest[i]).scope) && (!processors
                || rest[i].annotations.len() > 0) && rest[i].path == q {
            let i = choose|i: int|
                0 <= i < rest.len() && scopes.contains((#[trigger] rest[i]).scope) && (!processors
                    || rest[i].annotations.len() > 0) && rest[i].path == q;
            assert(pk[i] == rest[i]);
        }
    }
}

/// The paths listed for a set of scopes are exactly those of the remote
/// entries of such a scope that have a path (with an annotation processor,
/// when `processors` is set) and of the local entries of such a scope.
pub proof fn lemma_scoped_paths_members(
    remote: Seq<RemotePackageView>,
    local: Seq<LocalPackageView>,
    scopes: Seq<Scope>,
    processors: bool,
    q: Seq<char>,
)
    ensures
        (remote_paths(remote, scopes, processors) + local_paths(local, scopes, processors)).contains(q) <==> (
        (exists|i: int|
            0 <= i < remote.len() && scopes.contains((#[trigger] remote[i]).scope) && (!processors
                || remote[i].annotations.len() > 0) && remote[i].path == Some(q)) || (exists|i: int|
            0 <= i < local.len() && scopes.contains((#[trigger] local[i]).scope) && (!processors
                || local[i].annotations.len() > 0) && local[i].path == q)),
{
    lemma_remote_paths_members(remote, scopes, processors, q);
    lemma_local_paths_members(local, scopes, processors, q);
    crate::text::lemma_add_contains(remote_paths(remote, scopes, processors), local_paths(local, scopes, processors), q);
}

impl LockFile {
    /// Whether some remote entry has exactly this coordinate.
    pub fn contains_package(&self, id: &MavenId) -> (b: bool)
        ensures
            b == exists|i: int| 0 <= i < self.remote().len() && self.remote()[i].id == id@,
    {
        let mut i: usize = 0;
        while i < self.packages.len()
            invariant
                i <= self.packages@.len(),
                forall|j: int| 0 <= j < i ==> self.remote()[j].id != id@,
            decreases self.packages@.len() - i,
        {
            assert(self.remote()[i as int].id == self.packages@[i as int].id@);
            if self.packages[i].id.same_as(id) {
                return true;
            }
            i = i + 1;
        }
        false
    }

    fn paths_with_scopes(&self, scopes: &[Scope], processors: bool) -> (r: Vec<String>)
        ensures
            views(r@) == remote_paths(self.remote(), scopes@, processors) + local_paths(
                self.local(),
                scopes@,
                processors,
            ),
    {
        let mut r: Vec<String> = Vec::new();
        let mut i: usize = 0;
        while i < self.packages.len()
            invariant
                i <= self.packages@.len(),
                views(r@) == remote_paths(self.remote().take(i as int), scopes@, processors),
            decreases self.packages@.len() - i,
        {
            let ghost before = r@;
            assert(self.remote().take(i + 1).drop_last() =~= self.remote().take(i as int));
            assert(self.remote().take(i + 1).last() == self.packages@[i as int]@);
            let p = &self.packages[i];
            if p.scope.is_in(scopes) && (!processors || p.annotations.len() > 0) {
                match &p.path {
                    Some(path) => {
                        let c = path.clone();
                        r.push(c);
                        assert(views(r@) =~= views(before).push(c@));
                    },
                    None => {},
                }
            }
            i = i + 1;
        }
        assert(self.remote().take(self.packages@.len() as int) =~= self.remote());
        let ghost remote_part = r@;
        let mut k: usize = 0;
        while k < self.local_packages.len()
            invariant
                k <= self.local_packages@.len(),
                views(r@) == views(remote_part) + local_paths(self.local().take(k as int), scopes@, processors),
            decreases self.local_packages@.len() - k,
        {
            let ghost before = r@;
            assert(self.local().take(k + 1).drop_last() =~= self.local().take(k as int));
            assert(self.local().take(k + 1).last() == self.local_packages@[k as int]@);
            let p = &self.local_packages[k];
            if p.scope.is_in(scopes) && (!processors || p.annotations.len() > 0) {
                let c = p.path.clone();
                r.push(c);
                assert(views(r@) =~= views(before).push(c@));
            }
            k = k + 1;
        }
        assert(self.local().take(self.local_packages@.len() as int) =~= self.local());
        r
    }

    /// The paths of the packages whose scope is in `scopes`: remote entries
    /// that have a path, then local entries, each in order.
    pub fn package_paths_with_scopes(&self, scopes: &[Scope]) -> (r: Vec<String>)
        ensures
            views(r@) == remote_paths(self.remote(), scopes@, false) + local_paths(
                self.local(),
                scopes@,
                false,
            ),
    {
        self.paths_with_scopes(scopes, false)
    }

    /// As `package_paths_with_scopes`, restricted to packages that provide
    /// annotation processors.
    pub fn processor_package_paths_with_scopes(&self, scopes: &[Scope]) -> (r: Vec<String>)
        ensures
            views(r@) == remote_paths(self.remote(), scopes@, true) + local_paths(
                self.local(),
                scopes@,
                true,
            ),
    {
        self.paths_with_scopes(scopes, true)
    }

    /// The jars needed to compile (system, provided and compile scope).
    pub fn compile_time_packages(&self) -> (r: Vec<String>)
        ensures
            views(r@) == remote_paths(self.remote(), compile_scopes(), false) + local_paths(
                self.local(),
                compile_scopes(),
                false,
            ),
            forall|q: Seq<char>|
                #[trigger] views(r@).contains(q) <==> ((exists|i: int|
                    0 <= i < self.remote().len() && compile_scope((#[trigger] self.remote()[i]).scope)
                        && self.remote()[i].path == Some(q)) || (exists|i: int|
                    0 <= i < self.local().len() && compile_scope((#[trigger] self.local()[i]).scope)
                        && self.local()[i].path == q)),
    {
        let scopes = [Scope::System, Scope::Provided, Scope::Compile];
        assert(scopes@ =~= compile_scopes());
        let r = self.package_paths_with_scopes(&scopes);
        proof {
            lemma_scope_lists();
            assert forall|q: Seq<char>| #[trigger] views(r@).contains(q) <==> ((exists|i: int|
                0 <= i < self.remote().len() && compile_scope((#[trigger] self.remote()[i]).scope)
                    && self.remote()[i].path == Some(q)) || (exists|i: int|
                0 <= i < self.local().len() && compile_scope((#[trigger] self.local()[i]).scope)
                    && self.local()[i].path == q)) by {
                lemma_scoped_paths_members(self.remote(), self.local(), compile_scopes(), false, q);
            }
        }
        r
    }

    /// The jars needed to run (system, runtime and compile scope).
    pub fn runtime_packages(&self) -> (r: Vec<String>)
        ensures
            views(r@) == remote_paths(self.remote(), runtime_scopes(), false) + local_paths(
                self.local(),
                runtime_scopes(),
                false,
            ),
            forall|q: Seq<char>|
                #[trigger] views(r@).contains(q) <==> ((exists|i: int|
                    0 <= i < self.remote().len() && runtime_scope((#[trigger] self.remote()[i]).scope)
                        && self.remote()[i].path == Some(q)) || (exists|i: int|
                    0 <= i < self.local().len() && runtime_scope((#[trigger] self.local()[i]).scope)
                        && self.local()[i].path == q)),
    {
        let scopes = [Scope::System, Scope::Runtime, Scope::Compile];
        assert(scopes@ =~= runtime_scopes());
        let r = self.package_paths_with_scopes(&scopes);
        proof {
            lemma_scope_lists();
            assert forall|q: Seq<char>| #[trigger] views(r@).contains(q) <==> ((exists|i: int|
                0 <= i < self.remote().len() && runtime_scope((#[trigger] self.remote()[i]).scope)
                    && self.remote()[i].path == Some(q)) || (exists|i: int|
                0 <= i < self.local().len() && runtime_scope((#[trigger] self.local()[i]).scope)
                    && self.local()[i].path == q)) by {
                lemma_scoped_paths_members(self.remote(), self.local(), runtime_scopes(), false, q);
            }
        }
        r
    }

    /// The annotation processor jars needed to compile.
    pub fn processor_compile_time_packages(&self) -> (r: Vec<String>)
        ensures
            views(r@) == remote_paths(self.remote(), compile_scopes(), true) + local_paths(
                self.local(),
                compile_scopes(),
                true,
            ),
            forall|q: Seq<char>|
                #[trigger] views(r@).contains(q) <==> ((exists|i: int|
                    0 <= i < self.remote().len() && compile_scope((#[trigger] self.remote()[i]).scope) && self.remote()[i].annotations.len() > 0
                        && self.remote()[i].path == Some(q)) || (exists|i: int|
                    0 <= i < self.local().len() && compile_scope((#[trigger] self.local()[i]).scope) && self.local()[i].annotations.len() > 0
                        && self.local()[i].path == q)),
    {
        let scopes = [Scope::System, Scope::Provided, Scope::Compile];
        assert(scopes@ =~= compile_scopes());
        let r = self.processor_package_paths_with_scopes(&scopes);
        proof {
            lemma_scope_lists();
            assert forall|q: Seq<char>| #[trigger] views(r@).contains(q) <==> ((exists|i: int|
                0 <= i < self.remote().len() && compile_scope((#[trigger] self.remote()[i]).scope) && self.remote()[i].annotations.len() > 0
                    && self.remote()[i].path == Some(q)) || (exists|i: int|
                0 <= i < self.local().len() && compile_scope((#[trigger] self.local()[i]).scope) && self.local()[i].annotations.len() > 0
                    && self.local()[i].path == q)) by {
                lemma_scoped_paths_members(self.remote(), self.local(), compile_scopes(), true, q);
            }
        }
        r
    }
}

} // verus!
