//! Dropping packages that nothing needs any more, and removing a package by
//! coordinate.
//!
//! A package is needed when the project names it directly (`root`) or when a
//! needed package depends on it. A dependency names a coordinate; it points at
//! the last entry of the list that carries that coordinate. Entries that are
//! not needed are dropped, and dependency lists then lose every coordinate
//! that no kept entry carries.

use vstd::prelude::*;
use vstd::set_lib::{lemma_int_range, lemma_len_subset, set_int_range};
use crate::lock_file::{
    copy_ids, LockFile, LockFilePackageRemote, RemotePackageView, id_views, remote_views,
};
use crate::maven::{MavenId, MavenIdView};

verus! {

/// Entry `v` is the last one in `pk` with its coordinate.
pub open spec fn last_with_id(pk: Seq<RemotePackageView>, v: int) -> bool {
    forall|k: int| v < k < pk.len() ==> #[trigger] pk[k].id != pk[v].id
}

/// Entry `u` depends on entry `v`.
pub open spec fn depends(pk: Seq<RemotePackageView>, u: int, v: int) -> bool {
    &&& 0 <= u < pk.len()
    &&& 0 <= v < pk.len()
    &&& last_with_id(pk, v)
    &&& pk[u].dependencies.contains(pk[v].id)
}

/// Entry `v` can be dropped after at most `k` rounds of dropping every entry
/// that is not a root and whose dependents have all been dropped.
pub open spec fn unneeded_within(pk: Seq<RemotePackageView>, k: nat, v: int) -> bool
    decreases k,
{
    if k == 0 {
        false
    } else {
        &&& !pk[v].root
        &&& forall|u: int| #[trigger] depends(pk, u, v) ==> unneeded_within(pk, (k - 1) as nat, u)
    }
}

/// Entry `v` is not needed: it is dropped after finitely many rounds.
pub open spec fn unneeded(pk: Seq<RemotePackageView>, v: int) -> bool {
    exists|k: nat| unneeded_within(pk, k, v)
}

/// The coordinates of the entries that are kept.
pub open spec fn needed_ids(pk: Seq<RemotePackageView>) -> Set<MavenIdView> {
    Set::new(|id: MavenIdView| exists|i: int| 0 <= i < pk.len() && !unneeded(pk, i) && pk[i].id == id)
}

/// The coordinates of `s` that are in `keep`, in order.
pub open spec fn retain_ids(s: Seq<MavenIdView>, keep: Set<MavenIdView>) -> Seq<MavenIdView>
    decreases s.len(),
{
    if s.len() == 0 {
        s
    } else {
        let r = retain_ids(s.drop_last(), keep);
        if keep.contains(s.last()) {
            r.push(s.last())
        } else {
            r
        }
    }
}

/// The entry with another dependency list.
pub open spec fn with_dependencies(p: RemotePackageView, deps: Seq<MavenIdView>) -> RemotePackageView {
    RemotePackageView { dependencies: deps, ..p }
}

/// The kept entries among the first `upto`, in order, with their dependency
/// lists cut down to kept coordinates.
pub open spec fn keep_needed(pk: Seq<RemotePackageView>, upto: int) -> Seq<RemotePackageView>
    decreases upto,
{
    if upto <= 0 {
        Seq::<RemotePackageView>::empty()
    } else {
        let r = keep_needed(pk, upto - 1);
        if !unneeded(pk, upto - 1) {
            r.push(
                with_dependencies(
                    pk[upto - 1],
                    retain_ids(pk[upto - 1].dependencies, needed_ids(pk)),
                ),
            )
        } else {
            r
        }
    }
}

/// The package list after dropping every entry that is not needed.
pub open spec fn collect_garbage(pk: Seq<RemotePackageView>) -> Seq<RemotePackageView> {
    keep_needed(pk, pk.len() as int)
}

/// Entry `v` is a root or has a dependent that is not marked in `removed`.
pub open spec fn kept_by(pk: Seq<RemotePackageView>, removed: Seq<bool>, v: int) -> bool {
    pk[v].root || exists|u: int| #[trigger] depends(pk, u, v) && !removed[u]
}

/// The marked indices.
pub open spec fn marked(r: Seq<bool>) -> Set<int> {
    Set::new(|i: int| 0 <= i < r.len() && r[i])
}

proof fn lemma_marked_bound(r: Seq<bool>)
    ensures
        marked(r).finite(),
        marked(r).len() <= r.len(),
{
    lemma_int_range(0, r.len() as int);
    lemma_len_subset(marked(r), set_int_range(0, r.len() as int));
}

proof fn lemma_mark_one(r: Seq<bool>, v: int)
    requires
        0 <= v < r.len(),
        !r[v],
    ensures
        marked(r.update(v, true)) == marked(r).insert(v),
        marked(r.update(v, true)).len() == marked(r).len() + 1,
{
    lemma_marked_bound(r);
    assert(marked(r.update(v, true)) =~= marked(r).insert(v));
}

/// Dropping within `k` rounds implies dropping within `k + 1` rounds.
pub(crate) proof fn lemma_within_monotone(pk: Seq<RemotePackageView>, k: nat, v: int)
    requires
        unneeded_within(pk, k, v),
    ensures
        unneeded_within(pk, k + 1, v),
    decreases k,
{
    if k > 0 {
        assert forall|u: int| #[trigger] depends(pk, u, v) implies unneeded_within(pk, k, u) by {
            lemma_within_monotone(pk, (k - 1) as nat, u);
        }
    }
}

/// When every unmarked entry is kept by an unmarked one, no unmarked entry
/// is dropped within any number of rounds.
proof fn lemma_unmarked_needed(pk: Seq<RemotePackageView>, removed: Seq<bool>, k: nat)
    requires
        removed.len() == pk.len(),
        forall|v: int| 0 <= v < pk.len() && !removed[v] ==> kept_by(pk, removed, v),
    ensures
        forall|v: int| 0 <= v < pk.len() && !removed[v] ==> !unneeded_within(pk, k, v),
    decreases k,
{
    if k > 0 {
        lemma_unmarked_needed(pk, removed, (k - 1) as nat);
        assert forall|v: int| 0 <= v < pk.len() && !removed[v] implies !unneeded_within(
            pk,
            k,
            v,
        ) by {
            assert(kept_by(pk, removed, v));
            if !pk[v].root {
                let u = choose|u: int| #[trigger] depends(pk, u, v) && !removed[u];
                assert(!unneeded_within(pk, (k - 1) as nat, u));
            }
        }
    }
}

/// For each entry, whether it is the last one with its coordinate.
fn last_flags(pk: &Vec<LockFilePackageRemote>) -> (r: Vec<bool>)
    ensures
        r@.len() == pk@.len(),
        forall|v: int| 0 <= v < pk@.len() ==> r@[v] == last_with_id(remote_views(pk@), v),
{
    let ghost pv = remote_views(pk@);
    let n = pk.len();
    let mut r: Vec<bool> = Vec::new();
    let mut v: usize = 0;
    while v < n
        invariant
            n == pk@.len(),
            pv == remote_views(pk@),
            v <= n,
            r@.len() == v,
            forall|w: int| 0 <= w < v ==> r@[w] == last_with_id(pv, w),
        decreases n - v,
    {
        let mut last = true;
        let mut k: usize = v + 1;
        while k < n
            invariant
                n == pk@.len(),
                pv == remote_views(pk@),
                v < k <= n,
                last == (forall|j: int| v < j < k ==> pv[j].id != pv[v as int].id),
            decreases n - k,
        {
            assert(pv[k as int].id == pk@[k as int].id@);
            assert(pv[v as int].id == pk@[v as int].id@);
            if pk[k].id.same_as(&pk[v].id) {
                last = false;
            }
            k = k + 1;
        }
        r.push(last);
        v = v + 1;
    }
    r
}

/// Whether every dependent of `v` is marked in `removed`.
fn dependents_all_marked(
    pk: &Vec<LockFilePackageRemote>,
    is_last: &Vec<bool>,
    removed: &Vec<bool>,
    v: usize,
) -> (b: bool)
    requires
        v < pk@.len(),
        is_last@.len() == pk@.len(),
        removed@.len() == pk@.len(),
        forall|w: int| 0 <= w < pk@.len() ==> is_last@[w] == last_with_id(remote_views(pk@), w),
    ensures
        b == (forall|u: int| depends(remote_views(pk@), u, v as int) ==> removed@[u]),
{
    let ghost pv = remote_views(pk@);
    if !is_last[v] {
        return true;
    }
    let n = pk.len();
    let mut u: usize = 0;
    while u < n
        invariant
            n == pk@.len(),
            pv == remote_views(pk@),
            u <= n,
            removed@.len() == n,
            v < n,
            last_with_id(pv, v as int),
            forall|w: int| 0 <= w < u && depends(pv, w, v as int) ==> removed@[w],
        decreases n - u,
    {
        if !removed[u] && pk[u].depends_on(&pk[v].id) {
            assert(depends(pv, u as int, v as int));
            return false;
        }
        u = u + 1;
    }
    true
}

/// Marks every entry that is not needed.
fn unneeded_flags(pk: &Vec<LockFilePackageRemote>) -> (removed: Vec<bool>)
    ensures
        removed@.len() == pk@.len(),
        forall|v: int| 0 <= v < pk@.len() ==> removed@[v] == unneeded(remote_views(pk@), v),
{
    let ghost pv = remote_views(pk@);
    let n = pk.len();
    let is_last = last_flags(pk);
    let mut removed: Vec<bool> = Vec::new();
    let mut i: usize = 0;
    while i < n
        invariant
            i <= n,
            removed@.len() == i,
            forall|w: int| 0 <= w < i ==> !removed@[w],
        decreases n - i,
    {
        removed.push(false);
        i = i + 1;
    }
    assert(marked(removed@) =~= Set::<int>::empty());
    let mut count: usize = 0;
    let ghost mut rounds: nat = 0;
    loop
        invariant
            n == pk@.len(),
            pv == remote_views(pk@),
            is_last@.len() == n,
            forall|w: int| 0 <= w < n ==> is_last@[w] == last_with_id(pv, w),
            removed@.len() == n,
            count == marked(removed@).len(),
            forall|w: int| 0 <= w < n && removed@[w] ==> unneeded_within(pv, rounds, w),
        ensures
            removed@.len() == n,
            forall|w: int| 0 <= w < n && removed@[w] ==> unneeded_within(pv, rounds, w),
            forall|w: int| 0 <= w < n && !removed@[w] ==> kept_by(pv, removed@, w),
        decreases n - count,
    {
        proof {
            lemma_marked_bound(removed@);
        }
        let ghost start_count = count;
        let mut snapshot: Vec<bool> = Vec::new();
        let mut j: usize = 0;
        while j < n
            invariant
                j <= n,
                removed@.len() == n,
                snapshot@ == removed@.take(j as int),
            decreases n - j,
        {
            snapshot.push(removed[j]);
            j = j + 1;
            assert(snapshot@ =~= removed@.take(j as int));
        }
        assert(snapshot@ =~= removed@);
        proof {
            assert forall|w: int| 0 <= w < n && snapshot@[w] implies unneeded_within(
                pv,
                rounds + 1,
                w,
            ) by {
                lemma_within_monotone(pv, rounds, w);
            }
        }
        let mut changed = false;
        let mut v: usize = 0;
        while v < n
            invariant
                n == pk@.len(),
                pv == remote_views(pk@),
                is_last@.len() == n,
                forall|w: int| 0 <= w < n ==> is_last@[w] == last_with_id(pv, w),
                v <= n,
                removed@.len() == n,
                snapshot@.len() == n,
                forall|w: int| 0 <= w < n && snapshot@[w] ==> removed@[w],
                forall|w: int| 0 <= w < n && snapshot@[w] ==> unneeded_within(pv, rounds, w),
                forall|w: int| 0 <= w < n && removed@[w] ==> unneeded_within(pv, rounds + 1, w),
                forall|w: int|
                    0 <= w < v && !removed@[w] ==> (pv[w].root || exists|u: int|
                        #[trigger] depends(pv, u, w) && !snapshot@[u]),
                !changed ==> forall|w: int| 0 <= w < n ==> removed@[w] == snapshot@[w],
                forall|w: int| v <= w < n ==> removed@[w] == snapshot@[w],
                count == marked(removed@).len(),
                start_count == marked(snapshot@).len(),
                changed ==> count > start_count,
            decreases n - v,
        {
            if !snapshot[v] && !pk[v].root && dependents_all_marked(pk, &is_last, &snapshot, v) {
                proof {
                    if !changed {
                        assert(removed@ =~= snapshot@);
                    }
                    lemma_mark_one(removed@, v as int);
                    lemma_marked_bound(removed@.update(v as int, true));
                    assert(pv[v as int].root == pk@[v as int].root);
                    assert forall|u: int| #[trigger] depends(pv, u, v as int) implies unneeded_within(
                        pv,
                        rounds,
                        u,
                    ) by {
                        assert(snapshot@[u]);
                    }
                    assert(unneeded_within(pv, rounds + 1, v as int));
                }
                removed.set(v, true);
                count = count + 1;
                changed = true;
            }
            v = v + 1;
        }
        proof {
            lemma_marked_bound(removed@);
        }
        if !changed {
            proof {
                assert(removed@ =~= snapshot@);
                assert forall|w: int| 0 <= w < n && !removed@[w] implies kept_by(
                    pv,
                    removed@,
                    w,
                ) by {
                    if !pv[w].root {
                        let u = choose|u: int| #[trigger] depends(pv, u, w) && !snapshot@[u];
                        assert(depends(pv, u, w) && !removed@[u]);
                    }
                }
            }
            break;
        }
        proof {
            rounds = rounds + 1;
        }
    }
    proof {
        lemma_unmarked_needed(pv, removed@, 0);
        assert forall|v: int| 0 <= v < n implies removed@[v] == unneeded(pv, v) by {
            if removed@[v] {
                assert(unneeded_within(pv, rounds, v));
            } else {
                if unneeded(pv, v) {
                    let k = choose|k: nat| unneeded_within(pv, k, v);
                    lemma_unmarked_needed(pv, removed@, k);
                }
            }
        }
    }
    removed
}

} // verus!

verus! {

/// Whether a kept entry carries `id`.
fn is_needed_id(pk: &Vec<LockFilePackageRemote>, removed: &Vec<bool>, id: &MavenId) -> (b: bool)
    requires
        removed@.len() == pk@.len(),
        forall|v: int| 0 <= v < pk@.len() ==> removed@[v] == unneeded(remote_views(pk@), v),
    ensures
        b == needed_ids(remote_views(pk@)).contains(id@),
{
    let ghost pv = remote_views(pk@);
    let mut i: usize = 0;
    while i < pk.len()
        invariant
            i <= pk@.len(),
            pv == remote_views(pk@),
            removed@.len() == pk@.len(),
            forall|v: int| 0 <= v < pk@.len() ==> removed@[v] == unneeded(pv, v),
            forall|j: int| 0 <= j < i && !unneeded(pv, j) ==> pv[j].id != id@,
        decreases pk@.len() - i,
    {
        assert(pv[i as int].id == pk@[i as int].id@);
        if !removed[i] && pk[i].id.same_as(id) {
            assert(0 <= i < pv.len() && !unneeded(pv, i as int) && pv[i as int].id == id@);
            assert(needed_ids(pv).contains(id@));
            return true;
        }
        i = i + 1;
    }
    false
}

/// The coordinates of `deps` that a kept entry carries.
fn retain_needed(
    deps: &Vec<MavenId>,
    pk: &Vec<LockFilePackageRemote>,
    removed: &Vec<bool>,
) -> (r: Vec<MavenId>)
    requires
        removed@.len() == pk@.len(),
        forall|v: int| 0 <= v < pk@.len() ==> removed@[v] == unneeded(remote_views(pk@), v),
    ensures
        id_views(r@) == retain_ids(id_views(deps@), needed_ids(remote_views(pk@))),
{
    let ghost keep = needed_ids(remote_views(pk@));
    let mut r: Vec<MavenId> = Vec::new();
    let mut i: usize = 0;
    while i < deps.len()
        invariant
            i <= deps@.len(),
            keep == needed_ids(remote_views(pk@)),
            removed@.len() == pk@.len(),
            forall|v: int| 0 <= v < pk@.len() ==> removed@[v] == unneeded(remote_views(pk@), v),
            id_views(r@) == retain_ids(id_views(deps@).take(i as int), keep),
        decreases deps@.len() - i,
    {
        let ghost before = r@;
        let ghost pre = id_views(deps@).take(i as int);
        let ghost next = id_views(deps@).take(i + 1);
        assert(next.drop_last() =~= pre);
        assert(next.last() == deps@[i as int]@);
        if is_needed_id(pk, removed, &deps[i]) {
            let d = deps[i].copy();
            r.push(d);
            assert(id_views(r@) =~= id_views(before).push(d@));
        }
        i = i + 1;
    }
    assert(id_views(deps@).take(deps@.len() as int) =~= id_views(deps@));
    r
}

/// Every coordinate but `id`.
pub open spec fn other_ids(id: MavenIdView) -> Set<MavenIdView> {
    Set::new(|d: MavenIdView| d != id)
}

/// Removes `id` from every dependency list.
pub open spec fn strip_id(pk: Seq<RemotePackageView>, id: MavenIdView) -> Seq<RemotePackageView> {
    pk.map_values(
        |p: RemotePackageView|
            with_dependencies(p, retain_ids(p.dependencies, other_ids(id))),
    )
}

/// Entry `pos` is the first with this group and artifact.
pub open spec fn first_match(
    pk: Seq<RemotePackageView>,
    group: Seq<char>,
    artifact: Seq<char>,
    pos: int,
) -> bool {
    &&& 0 <= pos < pk.len()
    &&& pk[pos].id.group == group
    &&& pk[pos].id.artifact == artifact
    &&& forall|j: int| 0 <= j < pos ==> !(pk[j].id.group == group && pk[j].id.artifact == artifact)
}

/// Some entry has this group and artifact.
pub open spec fn has_match(pk: Seq<RemotePackageView>, group: Seq<char>, artifact: Seq<char>) -> bool {
    exists|j: int| 0 <= j < pk.len() && pk[j].id.group == group && pk[j].id.artifact == artifact
}

/// The coordinates of `deps` other than `id`.
fn without_id(deps: &Vec<MavenId>, id: &MavenId) -> (r: Vec<MavenId>)
    ensures
        id_views(r@) == retain_ids(id_views(deps@), other_ids(id@)),
{
    let ghost keep = other_ids(id@);
    let mut r: Vec<MavenId> = Vec::new();
    let mut i: usize = 0;
    while i < deps.len()
        invariant
            i <= deps@.len(),
            keep == other_ids(id@),
            id_views(r@) == retain_ids(id_views(deps@).take(i as int), keep),
        decreases deps@.len() - i,
    {
        let ghost before = r@;
        let ghost pre = id_views(deps@).take(i as int);
        let ghost next = id_views(deps@).take(i + 1);
        assert(next.drop_last() =~= pre);
        assert(next.last() == deps@[i as int]@);
        if !deps[i].same_as(id) {
            let d = deps[i].copy();
            r.push(d);
            assert(id_views(r@) =~= id_views(before).push(d@));
        }
        i = i + 1;
    }
    assert(id_views(deps@).take(deps@.len() as int) =~= id_views(deps@));
    r
}

impl LockFile {
    /// Drops every remote package that is not needed (see `collect_garbage`).
    pub fn remove_unneed_packages(&mut self)
        ensures
            final(self).remote() == collect_garbage(old(self).remote()),
            final(self).local_packages@ == old(self).local_packages@,
    {
        let ghost pv = self.remote();
        let removed = unneeded_flags(&self.packages);
        let n = self.packages.len();
        let mut kept: Vec<LockFilePackageRemote> = Vec::new();
        let mut i: usize = 0;
        while i < n
            invariant
                n == self.packages@.len(),
                pv == remote_views(self.packages@),
                i <= n,
                removed@.len() == n,
                forall|v: int| 0 <= v < n ==> removed@[v] == unneeded(pv, v),
                remote_views(kept@) == keep_needed(pv, i as int),
            decreases n - i,
        {
            if !removed[i] {
                let mut p = self.packages[i].copy();
                let deps = retain_needed(&self.packages[i].dependencies, &self.packages, &removed);
                p.dependencies = deps;
                let ghost before = kept@;
                assert(p@ == with_dependencies(
                    pv[i as int],
                    retain_ids(pv[i as int].dependencies, needed_ids(pv)),
                ));
                kept.push(p);
                assert(remote_views(kept@) =~= remote_views(before).push(p@));
            }
            i = i + 1;
        }
        self.packages = kept;
    }

    /// Removes the first remote package with this group and artifact, takes
    /// its coordinate out of every dependency list, then drops every package
    /// that is no longer needed. Fails, changing nothing, when no package has
    /// this group and artifact.
    pub fn remove_package(&mut self, group: &str, artifact: &str) -> (r: Result<
        LockFilePackageRemote,
        crate::errors::LockFileError,
    >)
        ensures
            r is Ok <==> has_match(old(self).remote(), group@, artifact@),
            r matches Ok(p) ==> exists|pos: int|
                first_match(old(self).remote(), group@, artifact@, pos) && p@ == old(
                    self,
                ).remote()[pos] && final(self).remote() == collect_garbage(
                    strip_id(old(self).remote().remove(pos), old(self).remote()[pos].id),
                ),
            r matches Err(e) ==> e is PackageNotFound && final(self).remote() == old(
                self,
            ).remote(),
            final(self).local_packages@ == old(self).local_packages@,
    {
        let ghost pv = self.remote();
        let g = crate::text::owned(group);
        let a = crate::text::owned(artifact);
        let n = self.packages.len();
        let mut pos: usize = 0;
        let mut found = false;
        while pos < n && !found
            invariant
                n == self.packages@.len(),
                pv == self.remote(),
                pos <= n,
                g@ == group@,
                a@ == artifact@,
                found ==> pos < n && pv[pos as int].id.group == group@ && pv[pos as int].id.artifact
                    == artifact@,
                forall|j: int|
                    0 <= j < pos ==> !(pv[j].id.group == group@ && pv[j].id.artifact == artifact@),
            decreases n - pos + (if found { 0int } else { 1int }),
        {
            assert(pv[pos as int].id == self.packages@[pos as int].id@);
            if self.packages[pos].id.group == g && self.packages[pos].id.artifact == a {
                found = true;
            } else {
                pos = pos + 1;
            }
        }
        if !found {
            return Err(crate::errors::LockFileError::PackageNotFound);
        }
        assert(pv[pos as int].id == self.packages@[pos as int].id@);
        assert(first_match(pv, group@, artifact@, pos as int));
        let package = self.packages.remove(pos);
        assert(self.packages@ == old(self).packages@.remove(pos as int));
        let ghost mid = pv.remove(pos as int);
        assert(remote_views(self.packages@) =~= mid);
        let m = self.packages.len();
        let mut stripped: Vec<LockFilePackageRemote> = Vec::new();
        let mut i: usize = 0;
        while i < m
            invariant
                m == self.packages@.len(),
                mid == remote_views(self.packages@),
                i <= m,
                stripped@.len() == i,
                forall|j: int| 0 <= j < i ==> stripped@[j]@ == strip_id(mid, package.id@)[j],
            decreases m - i,
        {
            let mut p = self.packages[i].copy();
            p.dependencies = without_id(&self.packages[i].dependencies, &package.id);
            assert(p@ == strip_id(mid, package.id@)[i as int]);
            stripped.push(p);
            i = i + 1;
        }
        assert(remote_views(stripped@) =~= strip_id(mid, package.id@));
        self.packages = stripped;
        self.remove_unneed_packages();
        Ok(package)
    }
}

} // verus!
