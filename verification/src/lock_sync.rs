//! Bringing the lock file in line with the dependencies that the project's
//! config names directly.

use vstd::prelude::*;
use crate::errors::LockFileError;
use crate::lock_file::{
    LocalPackageView, LocalRootPackage, LockFile, LockFilePackageLocal, LockFilePackageRemote,
    RemotePackageView, local_views, remote_views,
};
use crate::lock_gc::{collect_garbage, first_match, has_match, strip_id};
use crate::lock_merge::add_result;
use crate::maven::{PartialMavenId, Scope, DependencyType};
use crate::text::views;
use crate::annotations::{declared_processors, process_annotations};
use crate::config::local_root_views;

verus! {

/// A dependency that the config names by coordinate: its group and artifact,
/// and what the config says of it.
#[derive(Debug)]
pub struct RootEntry {
    pub id: PartialMavenId,
    pub package: crate::lock_file::RootPackage,
}

/// The group and artifact of a config entry.
pub open spec fn entry_key(e: RootEntry) -> (Seq<char>, Seq<char>) {
    (e.id@.group, e.id@.artifact)
}

/// Some root entry of `pk` has this group and artifact.
pub open spec fn is_locked_root(pk: Seq<RemotePackageView>, key: (Seq<char>, Seq<char>)) -> bool {
    exists|i: int|
        0 <= i < pk.len() && #[trigger] pk[i].root && pk[i].id.group == key.0 && pk[i].id.artifact
            == key.1
}

/// Some config entry has this group and artifact.
pub open spec fn is_configured(keys: Seq<(Seq<char>, Seq<char>)>, key: (Seq<char>, Seq<char>)) -> bool {
    keys.contains(key)
}

/// The group and artifact of each config entry, in order.
pub open spec fn root_keys(roots: Seq<RootEntry>) -> Seq<(Seq<char>, Seq<char>)> {
    roots.map_values(|e: RootEntry| entry_key(e))
}

/// `pk` after adding, for each of the first `upto` config entries that `base`
/// does not hold as a root, its resolved list.
pub open spec fn add_missing_roots(
    base: Seq<RemotePackageView>,
    pk: Seq<RemotePackageView>,
    keys: Seq<(Seq<char>, Seq<char>)>,
    resolved: Seq<Seq<RemotePackageView>>,
    upto: int,
) -> Seq<RemotePackageView>
    decreases upto,
{
    if upto <= 0 {
        pk
    } else {
        let r = add_missing_roots(base, pk, keys, resolved, upto - 1);
        if !is_locked_root(base, keys[upto - 1]) {
            add_result(r, resolved[upto - 1])
        } else {
            r
        }
    }
}

/// The group and artifact of each root entry among the first `upto` of `pk`
/// that the config no longer names, each once, in order.
pub open spec fn stale_roots(pk: Seq<RemotePackageView>, keys: Seq<(Seq<char>, Seq<char>)>, upto: int) -> Seq<(Seq<char>, Seq<char>)>
    decreases upto,
{
    if upto <= 0 {
        Seq::<(Seq<char>, Seq<char>)>::empty()
    } else {
        let r = stale_roots(pk, keys, upto - 1);
        let p = pk[upto - 1];
        let key = (p.id.group, p.id.artifact);
        if p.root && !is_configured(keys, key) && !r.contains(key) {
            r.push(key)
        } else {
            r
        }
    }
}

/// The result of removing one package by group and artifact (see
/// `LockFile::remove_package`), or `None` when no entry has them.
pub open spec fn remove_one(pk: Seq<RemotePackageView>, key: (Seq<char>, Seq<char>)) -> Option<Seq<RemotePackageView>> {
    if has_match(pk, key.0, key.1) {
        let pos = choose|pos: int| first_match(pk, key.0, key.1, pos);
        Some(collect_garbage(strip_id(pk.remove(pos), pk[pos].id)))
    } else {
        None
    }
}

/// Removing each key in turn; `None` as soon as one is missing.
pub open spec fn remove_all(pk: Seq<RemotePackageView>, keys: Seq<(Seq<char>, Seq<char>)>) -> Option<Seq<RemotePackageView>>
    decreases keys.len(),
{
    if keys.len() == 0 {
        Some(pk)
    } else {
        match remove_all(pk, keys.drop_last()) {
            Some(p) => remove_one(p, keys.last()),
            None => None,
        }
    }
}

/// The remote entries after the config's new roots are added and the roots it
/// no longer names are removed; `None` when a removal finds no entry.
pub open spec fn synced_remote(
    base: Seq<RemotePackageView>,
    keys: Seq<(Seq<char>, Seq<char>)>,
    resolved: Seq<Seq<RemotePackageView>>,
) -> Option<Seq<RemotePackageView>> {
    remove_all(
        add_missing_roots(base, base, keys, resolved, keys.len() as int),
        stale_roots(base, keys, base.len() as int),
    )
}

/// The local entries whose path some local config entry names, in order.
pub open spec fn kept_locals(locals: Seq<LocalPackageView>, roots: Seq<Seq<char>>) -> Seq<LocalPackageView>
    decreases locals.len(),
{
    if locals.len() == 0 {
        locals
    } else {
        let r = kept_locals(locals.drop_last(), roots);
        if roots.contains(locals.last().path) {
            r.push(locals.last())
        } else {
            r
        }
    }
}

/// Some local entry has this path.
pub open spec fn holds_local_path(locals: Seq<LocalPackageView>, path: Seq<char>) -> bool {
    exists|i: int| 0 <= i < locals.len() && #[trigger] locals[i].path == path
}

/// The paths of local entries, in order.
pub open spec fn local_paths(locals: Seq<LocalPackageView>) -> Seq<Seq<char>> {
    locals.map_values(|l: LocalPackageView| l.path)
}

/// The paths of configured local jars, in order.
pub open spec fn pair_paths(roots: Seq<(Seq<char>, Option<Scope>)>) -> Seq<Seq<char>> {
    roots.map_values(|x: (Seq<char>, Option<Scope>)| x.0)
}

/// The configured local jars among the first `upto` of `roots`, in order,
/// whose path no local entry has: the jars a sync must read and add.
pub open spec fn missing_local_roots(
    locals: Seq<LocalPackageView>,
    roots: Seq<(Seq<char>, Option<Scope>)>,
    upto: int,
) -> Seq<(Seq<char>, Option<Scope>)>
    decreases upto,
{
    if upto <= 0 {
        Seq::<(Seq<char>, Option<Scope>)>::empty()
    } else {
        let prev = missing_local_roots(locals, roots, upto - 1);
        if holds_local_path(locals, roots[upto - 1].0) {
            prev
        } else {
            prev.push(roots[upto - 1])
        }
    }
}

/// The views of the resolved lists.
pub open spec fn resolved_views_of(lists: Seq<Vec<LockFilePackageRemote>>) -> Seq<Seq<RemotePackageView>> {
    lists.map_values(|l: Vec<LockFilePackageRemote>| remote_views(l@))
}

/// The paths of local config entries.
pub open spec fn local_root_paths(roots: Seq<LocalRootPackage>) -> Seq<Seq<char>> {
    roots.map_values(|r: LocalRootPackage| r.path@)
}

proof fn lemma_first_match_unique(pk: Seq<RemotePackageView>, g: Seq<char>, a: Seq<char>, p: int, q: int)
    requires
        first_match(pk, g, a, p),
        first_match(pk, g, a, q),
    ensures
        p == q,
{
    if p < q {
        assert(!(pk[p].id.group == g && pk[p].id.artifact == a));
    } else if q < p {
        assert(!(pk[q].id.group == g && pk[q].id.artifact == a));
    }
}

impl LockFile {
    /// The entry for a local jar, built from what was read of it: its file
    /// name (when the path has one) and its bytes (or the error met reading
    /// them), from which its annotation processors are taken (see
    /// `declared_processors`). The entry is a root jar of the scope the
    /// config gives, `compile` when none.
    pub fn validate_local_package(
        package: &LocalRootPackage,
        file_name: Option<String>,
        contents: Result<Vec<u8>, String>,
    ) -> (r: Result<LockFilePackageLocal, LockFileError>)
        ensures
            file_name is None ==> (r matches Err(LockFileError::IoError(m)) && m@
                == "resolving filename of local package: could not resolve filename"@),
            file_name is Some && contents is Err ==> (r matches Err(LockFileError::IoError(m)) && m@
                == contents->Err_0@),
            file_name is Some && contents is Ok ==> match declared_processors(contents->Ok_0@) {
                Err(m) => (r matches Err(LockFileError::RemoteProcesserParsingError(e)) && e@ == m),
                Ok(l) => (r matches Ok(p) && p@ == (LocalPackageView {
                    file_name: file_name->0@,
                    packaging: DependencyType::Jar,
                    root: true,
                    scope: match package.scope {
                        Some(s) => s,
                        None => Scope::Compile,
                    },
                    path: package.path@,
                    annotations: l,
                })),
            },
    {
        let name = match file_name {
            Some(n) => n,
            None => {
                return Err(
                    LockFileError::IoError(
                        crate::text::owned("resolving filename of local package: could not resolve filename"),
                    ),
                );
            },
        };
        let bin = match contents {
            Ok(b) => b,
            Err(m) => {
                return Err(LockFileError::IoError(m));
            },
        };
        let annots = match process_annotations(&bin) {
            Ok(a) => a,
            Err(m) => {
                return Err(LockFileError::RemoteProcesserParsingError(m));
            },
        };
        let scope = match package.scope {
            Some(s) => s,
            None => Scope::default_scope(),
        };
        Ok(
            LockFilePackageLocal {
                file_name: name,
                packaging: DependencyType::Jar,
                root: true,
                scope,
                path: package.path.clone(),
                annotations: annots,
            },
        )
    }
}

impl LockFile {
    /// Whether a root entry has this group and artifact.
    fn has_root(&self, group: &String, artifact: &String) -> (b: bool)
        ensures
            b == is_locked_root(self.remote(), (group@, artifact@)),
    {
        let mut i: usize = 0;
        while i < self.packages.len()
            invariant
                i <= self.packages@.len(),
                forall|j: int|
                    0 <= j < i ==> !(self.remote()[j].root && self.remote()[j].id.group == group@
                        && self.remote()[j].id.artifact == artifact@),
            decreases self.packages@.len() - i,
        {
            assert(self.remote()[i as int] == self.packages@[i as int]@);
            if self.packages[i].root && self.packages[i].id.group == *group
                && self.packages[i].id.artifact == *artifact {
                assert(0 <= i < self.remote().len() && self.remote()[i as int].root
                    && self.remote()[i as int].id.group == group@ && self.remote()[i as int].id.artifact
                    == artifact@);
                return true;
            }
            i = i + 1;
        }
        false
    }

    /// For each config entry, whether the lock file lacks it as a root entry
    /// (its resolved list must then be passed to `sync_with_root_packages`).
    pub fn missing_roots(&self, roots: &Vec<RootEntry>) -> (r: Vec<bool>)
        ensures
            r@.len() == roots@.len(),
            forall|i: int|
                0 <= i < roots@.len() ==> r@[i] == !is_locked_root(self.remote(), root_keys(roots@)[i]),
    {
        let mut r: Vec<bool> = Vec::new();
        let mut i: usize = 0;
        while i < roots.len()
            invariant
                i <= roots@.len(),
                r@.len() == i,
                forall|j: int|
                    0 <= j < i ==> r@[j] == !is_locked_root(self.remote(), root_keys(roots@)[j]),
            decreases roots@.len() - i,
        {
            let present = self.has_root(&roots[i].id.group, &roots[i].id.artifact);
            r.push(!present);
            i = i + 1;
        }
        r
    }

    /// Brings the lock file in line with the config. For each config entry
    /// that the lock file does not hold as a root, its resolved list
    /// (`resolved[i]` for entry `i`) is added; each root entry whose group and
    /// artifact the config no longer names is removed (see `remove_package`);
    /// packages that are no longer needed are dropped; local entries whose
    /// path no local config entry names are dropped, and `new_locals` (the
    /// entries for the local config entries the lock file lacks) are appended.
    /// Fails when a removal finds no entry.
    pub fn sync_with_root_packages(
        &mut self,
        roots: &Vec<RootEntry>,
        resolved: Vec<Vec<LockFilePackageRemote>>,
        local_roots: &Vec<LocalRootPackage>,
        new_locals: Vec<LockFilePackageLocal>,
    ) -> (r: Result<(), LockFileError>)
        requires
            resolved@.len() == roots@.len(),
            local_paths(local_views(new_locals@)) == pair_paths(
                missing_local_roots(old(self).local(), local_root_views(local_roots@), local_roots@.len() as int),
            ),
        ensures
            r is Ok <==> synced_remote(old(self).remote(), root_keys(roots@), resolved_views_of(resolved@)) is Some,
            r is Ok ==> final(self).remote() == collect_garbage(
                synced_remote(old(self).remote(), root_keys(roots@), resolved_views_of(resolved@))->0,
            ),
            r is Ok ==> final(self).local() == kept_locals(
                old(self).local(),
                local_root_paths(local_roots@),
            ) + local_views(new_locals@),
            r is Ok ==> forall|p: Seq<char>|
                #[trigger] holds_local_path(final(self).local(), p) <==> local_root_paths(local_roots@).contains(p),
            r matches Err(e) ==> e is PackageNotFound,
    {
        let ghost base = self.remote();
        let ghost old_local = self.local();
        let ghost new_view0 = local_views(new_locals@);
        let ghost old_resolved_view = resolved@;
        let ghost rv = resolved_views_of(resolved@);
        let missing = self.missing_roots(roots);
        let n = self.packages.len();
        let mut stale: Vec<PartialMavenId> = Vec::new();
        let mut i: usize = 0;
        while i < n
            invariant
                n == self.packages@.len(),
                base == self.remote(),
                i <= n,
                stale@.map_values(|k: PartialMavenId| (k@.group, k@.artifact)) == stale_roots(
                    base,
                    root_keys(roots@),
                    i as int,
                ),
            decreases n - i,
        {
            let ghost before = stale@;
            let ghost keys = before.map_values(|k: PartialMavenId| (k@.group, k@.artifact));
            assert(base[i as int] == self.packages@[i as int]@);
            if self.packages[i].root {
                let key = self.packages[i].id.to_partial();
                let configured = configured_key(roots, &key);
                let seen = keys_contain(&stale, &key);
                if !configured && !seen {
                    stale.push(key);
                    assert(stale@.map_values(|k: PartialMavenId| (k@.group, k@.artifact)) =~= keys.push(
                        (key@.group, key@.artifact),
                    ));
                }
            }
            i = i + 1;
        }
        let mut pending = resolved;
        let mut k: usize = roots.len();
        let mut lists: Vec<Vec<LockFilePackageRemote>> = Vec::new();
        while k > 0
            invariant
                k <= roots@.len(),
                pending@.len() == k,
                lists@.len() == roots@.len() - k,
                forall|j: int| 0 <= j < k ==> remote_views(pending@[j]@) == rv[j],
                forall|j: int|
                    0 <= j < lists@.len() ==> remote_views(lists@[j]@) == rv[roots@.len() - 1 - j],
            decreases k,
        {
            let l = pending.pop().unwrap();
            lists.push(l);
            k = k - 1;
        }
        let m = roots.len();
        let mut j: usize = 0;
        while j < m
            invariant
                m == roots@.len(),
                missing@.len() == m,
                forall|q: int| 0 <= q < m ==> missing@[q] == !is_locked_root(base, root_keys(roots@)[q]),
                lists@.len() == m - j,
                forall|q: int| 0 <= q < lists@.len() ==> remote_views(lists@[q]@) == rv[m - 1 - q],
                j <= m,
                self.remote() == add_missing_roots(base, base, root_keys(roots@), rv, j as int),
                self.local() == old(self).local(),
            decreases m - j,
        {
            let l = lists.pop().unwrap();
            assert(remote_views(l@) == rv[j as int]);
            if missing[j] {
                self.add_package(l);
            }
            j = j + 1;
        }
        let mut s: usize = 0;
        let ghost added = self.remote();
        let ghost all_keys = stale@.map_values(|k: PartialMavenId| (k@.group, k@.artifact));
        assert(all_keys == stale_roots(base, root_keys(roots@), base.len() as int));
        while s < stale.len()
            invariant
                base == old(self).remote(),
                rv == resolved_views_of(old_resolved_view),
                old_resolved_view == resolved@,
                added == add_missing_roots(base, base, root_keys(roots@), rv, roots@.len() as int),
                all_keys == stale_roots(base, root_keys(roots@), base.len() as int),
                s <= stale@.len(),
                all_keys == stale@.map_values(|k: PartialMavenId| (k@.group, k@.artifact)),
                remove_all(added, all_keys.take(s as int)) == Some(self.remote()),
                self.local() == old(self).local(),
            decreases stale@.len() - s,
        {
            let ghost cur = self.remote();
            assert(all_keys.take(s + 1).drop_last() =~= all_keys.take(s as int));
            assert(all_keys.take(s + 1).last() == (stale@[s as int]@.group, stale@[s as int]@.artifact));
            let res = self.remove_package(stale[s].group.as_str(), stale[s].artifact.as_str());
            match res {
                Ok(_) => {
                    proof {
                        let key = (stale@[s as int]@.group, stale@[s as int]@.artifact);
                        let pos = choose|pos: int| first_match(cur, key.0, key.1, pos);
                        let pos2 = choose|pos: int|
                            first_match(cur, key.0, key.1, pos) && self.remote() == collect_garbage(
                                strip_id(cur.remove(pos), cur[pos].id),
                            );
                        lemma_first_match_unique(cur, key.0, key.1, pos, pos2);
                    }
                },
                Err(e) => {
                    proof {
                        assert(remove_all(added, all_keys.take(s + 1)) is None);
                        lemma_remove_all_none(added, all_keys, s + 1, all_keys.len() as int);
                        assert(all_keys.take(all_keys.len() as int) =~= all_keys);
                    }
                    return Err(e);
                },
            }
            s = s + 1;
        }
        assert(all_keys.take(stale@.len() as int) =~= all_keys);
        self.remove_unneed_packages();
        let ghost root_paths = local_root_paths(local_roots@);
        let mut kept: Vec<LockFilePackageLocal> = Vec::new();
        let mut t: usize = 0;
        while t < self.local_packages.len()
            invariant
                t <= self.local_packages@.len(),
                root_paths == local_root_paths(local_roots@),
                local_views(kept@) == kept_locals(self.local().take(t as int), root_paths),
            decreases self.local_packages@.len() - t,
        {
            let ghost before = kept@;
            assert(self.local().take(t + 1).drop_last() =~= self.local().take(t as int));
            assert(self.local().take(t + 1).last() == self.local_packages@[t as int]@);
            if local_path_listed(local_roots, &self.local_packages[t].path) {
                let c = self.local_packages[t].copy();
                kept.push(c);
                assert(local_views(kept@) =~= local_views(before).push(c@));
            }
            t = t + 1;
        }
        assert(self.local().take(self.local_packages@.len() as int) =~= self.local());
        let ghost kept_view = local_views(kept@);
        let ghost kept_view_seq = kept@;
        let ghost new_view = new_locals@;
        let mut new_locals = new_locals;
        kept.append(&mut new_locals);
        assert(kept@ == kept_view_seq + new_view);
        assert(local_views(kept@) =~= kept_view + local_views(new_view));
        self.local_packages = kept;
        proof {
            lemma_synced_local_paths(old_local, local_roots@, new_view0);
        }
        Ok(())
    }

    /// The configured local jars, in order, whose path no local entry of
    /// the lock file has (see `missing_local_roots`): the ones a sync must
    /// read and hand over as its new local entries.
    pub fn missing_local_packages(&self, local_roots: &Vec<LocalRootPackage>) -> (r: Vec<LocalRootPackage>)
        ensures
            local_root_views(r@) == missing_local_roots(
                self.local(),
                local_root_views(local_roots@),
                local_roots@.len() as int,
            ),
    {
        let ghost rv = local_root_views(local_roots@);
        let mut r: Vec<LocalRootPackage> = Vec::new();
        let mut i: usize = 0;
        assert(local_root_views(r@) =~= Seq::<(Seq<char>, Option<Scope>)>::empty());
        while i < local_roots.len()
            invariant
                i <= local_roots@.len(),
                rv == local_root_views(local_roots@),
                local_root_views(r@) == missing_local_roots(self.local(), rv, i as int),
            decreases local_roots@.len() - i,
        {
            let held = self.holds_local(&local_roots[i].path);
            assert(rv[i as int].0 == local_roots@[i as int].path@);
            if !held {
                let ghost before = local_root_views(r@);
                let copy = LocalRootPackage { scope: local_roots[i].scope, path: local_roots[i].path.clone() };
                r.push(copy);
                assert(local_root_views(r@) =~= before.push(rv[i as int]));
            }
            i = i + 1;
        }
        r
    }

    /// Whether a local entry has this path.
    fn holds_local(&self, path: &String) -> (b: bool)
        ensures
            b == holds_local_path(self.local(), path@),
    {
        let mut i: usize = 0;
        while i < self.local_packages.len()
            invariant
                i <= self.local_packages@.len(),
                forall|j: int| 0 <= j < i ==> self.local()[j].path != path@,
            decreases self.local_packages@.len() - i,
        {
            assert(self.local()[i as int] == self.local_packages@[i as int]@);
            if self.local_packages[i].path == *path {
                assert(self.local()[i as int].path == path@);
                return true;
            }
            i = i + 1;
        }
        false
    }
}

proof fn lemma_remove_all_none(
    pk: Seq<RemotePackageView>,
    keys: Seq<(Seq<char>, Seq<char>)>,
    a: int,
    b: int,
)
    requires
        0 <= a <= b <= keys.len(),
        remove_all(pk, keys.take(a)) is None,
    ensures
        remove_all(pk, keys.take(b)) is None,
    decreases b - a,
{
    if a < b {
        lemma_remove_all_none(pk, keys, a, b - 1);
        assert(keys.take(b).drop_last() =~= keys.take(b - 1));
    }
}

/// Whether a config entry has the group and artifact of `key`.
fn configured_key(roots: &Vec<RootEntry>, key: &PartialMavenId) -> (b: bool)
    ensures
        b == is_configured(root_keys(roots@), (key@.group, key@.artifact)),
{
    let mut i: usize = 0;
    while i < roots.len()
        invariant
            i <= roots@.len(),
            forall|j: int| 0 <= j < i ==> entry_key(roots@[j]) != (key@.group, key@.artifact),
        decreases roots@.len() - i,
    {
        if roots[i].id.same_as(key) {
            assert(root_keys(roots@)[i as int] == (key@.group, key@.artifact));
            return true;
        }
        i = i + 1;
    }
    proof {
        if root_keys(roots@).contains((key@.group, key@.artifact)) {
            let k = choose|k: int| 0 <= k < root_keys(roots@).len() && root_keys(roots@)[k] == (key@.group, key@.artifact);
            assert(entry_key(roots@[k]) == (key@.group, key@.artifact));
        }
    }
    false
}

/// Whether `v` holds `key`.
fn keys_contain(v: &Vec<PartialMavenId>, key: &PartialMavenId) -> (b: bool)
    ensures
        b == v@.map_values(|k: PartialMavenId| (k@.group, k@.artifact)).contains(
            (key@.group, key@.artifact),
        ),
{
    let ghost keys = v@.map_values(|k: PartialMavenId| (k@.group, k@.artifact));
    let mut i: usize = 0;
    while i < v.len()
        invariant
            i <= v@.len(),
            keys == v@.map_values(|k: PartialMavenId| (k@.group, k@.artifact)),
            forall|j: int| 0 <= j < i ==> keys[j] != (key@.group, key@.artifact),
        decreases v@.len() - i,
    {
        if v[i].same_as(key) {
            assert(keys[i as int] == (key@.group, key@.artifact));
            return true;
        }
        i = i + 1;
    }
    false
}

/// Whether some local config entry names this path.
fn local_path_listed(roots: &Vec<LocalRootPackage>, path: &String) -> (b: bool)
    ensures
        b == local_root_paths(roots@).contains(path@),
{
    let mut i: usize = 0;
    while i < roots.len()
        invariant
            i <= roots@.len(),
            forall|j: int| 0 <= j < i ==> local_root_paths(roots@)[j] != path@,
        decreases roots@.len() - i,
    {
        if roots[i].path == *path {
            assert(local_root_paths(roots@)[i as int] == path@);
            return true;
        }
        i = i + 1;
    }
    false
}

proof fn lemma_kept_locals_paths(locals: Seq<LocalPackageView>, roots: Seq<Seq<char>>, p: Seq<char>)
    ensures
        holds_local_path(kept_locals(locals, roots), p) <==> (holds_local_path(locals, p) && roots.contains(p)),
    decreases locals.len(),
{
    if locals.len() > 0 {
        let rest = locals.drop_last();
        lemma_kept_locals_paths(rest, roots, p);
        let k = kept_locals(rest, roots);
        assert(holds_local_path(locals, p) <==> (holds_local_path(rest, p) || locals.last().path == p)) by {
            if holds_local_path(locals, p) {
                let i = choose|i: int| 0 <= i < locals.len() && #[trigger] locals[i].path == p;
                if i < locals.len() - 1 {
                    assert(rest[i].path == p);
                }
            }
            if holds_local_path(rest, p) {
                let i = choose|i: int| 0 <= i < rest.len() && #[trigger] rest[i].path == p;
                assert(locals[i].path == p);
            }
            if locals.last().path == p {
                assert(locals[locals.len() - 1].path == p);
            }
        }
        if roots.contains(locals.last().path) {
            assert(holds_local_path(k.push(locals.last()), p) <==> (holds_local_path(k, p) || locals.last().path
                == p)) by {
                if holds_local_path(k.push(locals.last()), p) {
                    let i = choose|i: int| 0 <= i < k.len() + 1 && #[trigger] k.push(locals.last())[i].path == p;
                    if i < k.len() {
                        assert(k[i].path == p);
                    }
                }
                if holds_local_path(k, p) {
                    let i = choose|i: int| 0 <= i < k.len() && #[trigger] k[i].path == p;
                    assert(k.push(locals.last())[i].path == p);
                }
                if locals.last().path == p {
                    assert(k.push(locals.last())[k.len() as int].path == p);
                }
            }
        }
    }
}

proof fn lemma_missing_local_paths(
    locals: Seq<LocalPackageView>,
    roots: Seq<(Seq<char>, Option<Scope>)>,
    upto: int,
    p: Seq<char>,
)
    requires
        0 <= upto <= roots.len(),
    ensures
        pair_paths(missing_local_roots(locals, roots, upto)).contains(p) <==> (pair_paths(roots.take(upto)).contains(p)
            && !holds_local_path(locals, p)),
    decreases upto,
{
    let m = missing_local_roots(locals, roots, upto);
    if upto == 0 {
        assert(pair_paths(m) =~= Seq::<Seq<char>>::empty());
        assert(pair_paths(roots.take(0)) =~= Seq::<Seq<char>>::empty());
    } else {
        lemma_missing_local_paths(locals, roots, upto - 1, p);
        let prev = missing_local_roots(locals, roots, upto - 1);
        let x = roots[upto - 1];
        assert(pair_paths(roots.take(upto)) =~= pair_paths(roots.take(upto - 1)).push(x.0));
        crate::text::lemma_push_contains(pair_paths(roots.take(upto - 1)), x.0, p);
        if !holds_local_path(locals, x.0) {
            assert(pair_paths(prev.push(x)) =~= pair_paths(prev).push(x.0));
            crate::text::lemma_push_contains(pair_paths(prev), x.0, p);
        }
    }
}

proof fn lemma_local_paths_add(a: Seq<LocalPackageView>, b: Seq<LocalPackageView>, p: Seq<char>)
    ensures
        holds_local_path(a + b, p) <==> (holds_local_path(a, p) || local_paths(b).contains(p)),
{
    if holds_local_path(a + b, p) {
        let i = choose|i: int| 0 <= i < (a + b).len() && #[trigger] (a + b)[i].path == p;
        if i < a.len() {
            assert(a[i].path == p);
        } else {
            assert(b[i - a.len()].path == p);
            assert(local_paths(b)[i - a.len()] == p);
        }
    }
    if holds_local_path(a, p) {
        let i = choose|i: int| 0 <= i < a.len() && #[trigger] a[i].path == p;
        assert((a + b)[i].path == p);
    }
    if local_paths(b).contains(p) {
        let i = choose|i: int| 0 <= i < local_paths(b).len() && local_paths(b)[i] == p;
        assert((a + b)[a.len() + i].path == p);
    }
}

/// After a sync, the local entries hold exactly the configured local jars:
/// the entries kept and the ones read for the jars the lock file lacked.
proof fn lemma_synced_local_paths(
    old_local: Seq<LocalPackageView>,
    local_roots: Seq<LocalRootPackage>,
    new_view: Seq<LocalPackageView>,
)
    requires
        local_paths(new_view) == pair_paths(
            missing_local_roots(old_local, local_root_views(local_roots), local_roots.len() as int),
        ),
    ensures
        forall|p: Seq<char>|
            #[trigger] holds_local_path(kept_locals(old_local, local_root_paths(local_roots)) + new_view, p)
                <==> local_root_paths(local_roots).contains(p),
{
    let rv = local_root_views(local_roots);
    assert(pair_paths(rv.take(rv.len() as int)) =~= local_root_paths(local_roots));
    assert forall|p: Seq<char>|
        #[trigger] holds_local_path(kept_locals(old_local, local_root_paths(local_roots)) + new_view, p)
            <==> local_root_paths(local_roots).contains(p) by {
        lemma_local_paths_add(kept_locals(old_local, local_root_paths(local_roots)), new_view, p);
        lemma_kept_locals_paths(old_local, local_root_paths(local_roots), p);
        lemma_missing_local_paths(old_local, rv, rv.len() as int, p);
    }
}

} // verus!
