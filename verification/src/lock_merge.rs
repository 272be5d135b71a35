//! Adding a resolved dependency list to the lock file: at most one entry per
//! group and artifact is kept, and a new entry replaces an old one by the
//! rules of `replaces`.

use vstd::prelude::*;
use crate::lock_file::{LockFile, LockFilePackageRemote, RemotePackageView, remote_views};

verus! {

/// Maven orders version `a` after version `b`, as `maven_version`'s
/// `Maven3ArtifactVersion` compares them.
pub uninterp spec fn maven_newer(a: Seq<char>, b: Seq<char>) -> bool;

/// Whether Maven orders version `a` after version `b`.
///
/// Trusted: builds a `Maven3ArtifactVersion` of each string with its
/// `From<&str>` impl (that is, `Maven3ArtifactVersion::new`) and compares
/// them with `>`. The crate exports the type only as the result type of
/// `new_artifact_version`, so that function names the type here and is
/// never called (its extra self-check asserts, and can panic). The contract
/// claims only that the answer is `maven_newer` of the two strings.
#[verifier::external_body]
pub(crate) fn version_is_newer(a: &str, b: &str) -> (r: bool)
    ensures
        r == maven_newer(a@, b@),
{
    let newer = None::<&str>.map(maven_version::new_artifact_version).unwrap_or(From::from(a));
    let older = None::<&str>.map(maven_version::new_artifact_version).unwrap_or(From::from(b));
    newer > older
}

/// Two entries name the same group and artifact.
pub open spec fn same_key(a: RemotePackageView, b: RemotePackageView) -> bool {
    a.id.group == b.id.group && a.id.artifact == b.id.artifact
}

/// Whether `new` takes the place of `old` (same group and artifact): a root
/// entry gives way only to a newer root entry; any other entry gives way to a
/// root entry or to a newer one.
pub open spec fn replaces(old: RemotePackageView, new: RemotePackageView) -> bool {
    if old.root {
        new.root && maven_newer(new.id.version, old.id.version)
    } else {
        new.root || maven_newer(new.id.version, old.id.version)
    }
}

/// No two entries share a group and artifact.
pub open spec fn unique_keys(pk: Seq<RemotePackageView>) -> bool {
    forall|i: int, j: int| 0 <= i < pk.len() && 0 <= j < pk.len() && i != j ==> !same_key(pk[i], pk[j])
}

/// Entry `i` is the last with its group and artifact.
pub open spec fn last_of_key(pk: Seq<RemotePackageView>, i: int) -> bool {
    forall|j: int| i < j < pk.len() ==> !same_key(#[trigger] pk[j], pk[i])
}

/// The entries among the first `upto` that are the last with their group and
/// artifact, in order.
pub open spec fn dedup_keys(pk: Seq<RemotePackageView>, upto: int) -> Seq<RemotePackageView>
    decreases upto,
{
    if upto <= 0 {
        Seq::<RemotePackageView>::empty()
    } else {
        let r = dedup_keys(pk, upto - 1);
        if last_of_key(pk, upto - 1) {
            r.push(pk[upto - 1])
        } else {
            r
        }
    }
}

/// `p` merged into `pk`: it replaces the entry with its group and artifact
/// when `replaces` says so, and is appended when there is none.
pub open spec fn merge_package(pk: Seq<RemotePackageView>, p: RemotePackageView) -> Seq<RemotePackageView> {
    if exists|i: int| 0 <= i < pk.len() && same_key(pk[i], p) {
        let i = choose|i: int| 0 <= i < pk.len() && same_key(pk[i], p);
        if replaces(pk[i], p) {
            pk.update(i, p)
        } else {
            pk
        }
    } else {
        pk.push(p)
    }
}

/// Every entry of `list` merged into `pk`, first to last.
pub open spec fn merge_all(pk: Seq<RemotePackageView>, list: Seq<RemotePackageView>) -> Seq<RemotePackageView>
    decreases list.len(),
{
    if list.len() == 0 {
        pk
    } else {
        merge_package(merge_all(pk, list.drop_last()), list.last())
    }
}

/// The lock file's entries after adding a resolved list.
pub open spec fn add_result(pk: Seq<RemotePackageView>, list: Seq<RemotePackageView>) -> Seq<RemotePackageView> {
    merge_all(dedup_keys(pk, pk.len() as int), list)
}

proof fn lemma_dedup_unique(pk: Seq<RemotePackageView>, upto: int)
    requires
        0 <= upto <= pk.len(),
    ensures
        unique_keys(dedup_keys(pk, upto)),
        forall|k: int, j: int|
            0 <= k < dedup_keys(pk, upto).len() && upto <= j < pk.len() ==> !same_key(
                #[trigger] dedup_keys(pk, upto)[k],
                #[trigger] pk[j],
            ),
    decreases upto,
{
    if upto > 0 {
        lemma_dedup_unique(pk, upto - 1);
        let r = dedup_keys(pk, upto - 1);
        if last_of_key(pk, upto - 1) {
            let r2 = r.push(pk[upto - 1]);
            assert(dedup_keys(pk, upto) == r2);
            assert forall|a: int, b: int|
                #![trigger r2[a], r2[b]]
                0 <= a < r2.len() && 0 <= b < r2.len() && a != b implies !same_key(r2[a], r2[b]) by {
                if a == r.len() {
                    assert(!same_key(r[b], pk[upto - 1]));
                } else if b == r.len() {
                    assert(!same_key(r[a], pk[upto - 1]));
                } else {
                    assert(r2[a] == r[a]);
                    assert(r2[b] == r[b]);
                }
            }
            assert forall|k: int, j: int|
                0 <= k < r2.len() && upto <= j < pk.len() implies !same_key(#[trigger] r2[k], #[trigger] pk[j]) by {
                if k < r.len() {
                    assert(r2[k] == r[k]);
                    assert(!same_key(r[k], pk[j]));
                } else {
                    assert(!same_key(pk[j], pk[upto - 1]));
                }
            }
        } else {
            assert(dedup_keys(pk, upto) == r);
            assert forall|k: int, j: int|
                0 <= k < r.len() && upto <= j < pk.len() implies !same_key(#[trigger] r[k], #[trigger] pk[j]) by {
                assert(!same_key(r[k], pk[j]));
            }
        }
    }
}

proof fn lemma_merge_unique(pk: Seq<RemotePackageView>, p: RemotePackageView)
    requires
        unique_keys(pk),
    ensures
        unique_keys(merge_package(pk, p)),
{
    if exists|i: int| 0 <= i < pk.len() && same_key(pk[i], p) {
        let i = choose|i: int| 0 <= i < pk.len() && same_key(pk[i], p);
        if replaces(pk[i], p) {
            let r = pk.update(i, p);
            assert forall|a: int, b: int| 0 <= a < r.len() && 0 <= b < r.len() && a != b implies !same_key(
                r[a],
                r[b],
            ) by {
                if a == i {
                    assert(!same_key(pk[i], pk[b]));
                } else if b == i {
                    assert(!same_key(pk[a], pk[i]));
                } else {
                }
            }
        }
    } else {
        let r = pk.push(p);
        assert forall|a: int, b: int| 0 <= a < r.len() && 0 <= b < r.len() && a != b implies !same_key(
            r[a],
            r[b],
        ) by {
            if a == pk.len() {
                assert(!same_key(pk[b], p));
            } else if b == pk.len() {
                assert(!same_key(pk[a], p));
            } else {
            }
        }
    }
}

/// Entry `i` has the group and artifact of `p`; in a list with unique keys it
/// is the only one.
proof fn lemma_unique_choose(pk: Seq<RemotePackageView>, p: RemotePackageView, i: int)
    requires
        unique_keys(pk),
        0 <= i < pk.len(),
        same_key(pk[i], p),
    ensures
        (choose|k: int| 0 <= k < pk.len() && same_key(pk[k], p)) == i,
{
    let k = choose|k: int| 0 <= k < pk.len() && same_key(pk[k], p);
    if k != i {
        assert(same_key(pk[k], pk[i]));
    }
}

/// The index of the entry with `p`'s group and artifact, if any.
fn find_key(pk: &Vec<LockFilePackageRemote>, p: &LockFilePackageRemote) -> (r: Option<usize>)
    ensures
        match r {
            Some(i) => i < pk@.len() && same_key(remote_views(pk@)[i as int], p@),
            None => forall|i: int| 0 <= i < pk@.len() ==> !same_key(remote_views(pk@)[i], p@),
        },
{
    let mut i: usize = 0;
    while i < pk.len()
        invariant
            i <= pk@.len(),
            forall|j: int| 0 <= j < i ==> !same_key(remote_views(pk@)[j], p@),
        decreases pk@.len() - i,
    {
        assert(remote_views(pk@)[i as int] == pk@[i as int]@);
        if pk[i].id.group == p.id.group && pk[i].id.artifact == p.id.artifact {
            return Some(i);
        }
        i = i + 1;
    }
    None
}

impl LockFile {
    /// Adds a resolved dependency list (the requested package and everything
    /// it needs). Entries of the lock file that share a group and artifact
    /// are first reduced to the last of them; then each listed package is
    /// merged in turn (see `merge_package`). Returns the number of listed
    /// packages.
    pub fn add_package(&mut self, list: Vec<LockFilePackageRemote>) -> (n: usize)
        ensures
            n == list@.len(),
            final(self).remote() == add_result(old(self).remote(), remote_views(list@)),
            unique_keys(final(self).remote()),
            final(self).local_packages@ == old(self).local_packages@,
            forall|k: int|
                0 <= k < list@.len() && (#[trigger] list@[k]).root ==> crate::lock_laws::has_root_key(
                    final(self).remote(),
                    list@[k].id@.group,
                    list@[k].id@.artifact,
                ),
    {
        let ghost pv = self.remote();
        let ghost lv = remote_views(list@);
        let n = self.packages.len();
        let mut dedup: Vec<LockFilePackageRemote> = Vec::new();
        let mut i: usize = 0;
        while i < n
            invariant
                n == self.packages@.len(),
                pv == remote_views(self.packages@),
                i <= n,
                remote_views(dedup@) == dedup_keys(pv, i as int),
            decreases n - i,
        {
            let mut last = true;
            let mut j: usize = i + 1;
            while j < n
                invariant
                    n == self.packages@.len(),
                    pv == remote_views(self.packages@),
                    i < j <= n,
                    last == (forall|k: int| i < k < j ==> !same_key(#[trigger] pv[k], pv[i as int])),
                decreases n - j,
            {
                assert(pv[j as int] == self.packages@[j as int]@);
                assert(pv[i as int] == self.packages@[i as int]@);
                if self.packages[j].id.group == self.packages[i].id.group
                    && self.packages[j].id.artifact == self.packages[i].id.artifact {
                    last = false;
                }
                j = j + 1;
            }
            if last {
                let c = self.packages[i].copy();
                let ghost before = dedup@;
                dedup.push(c);
                assert(remote_views(dedup@) =~= remote_views(before).push(c@));
            }
            i = i + 1;
        }
        proof {
            lemma_dedup_unique(pv, n as int);
        }
        let count = list.len();
        let mut k: usize = 0;
        while k < count
            invariant
                count == list@.len(),
                lv == remote_views(list@),
                k <= count,
                remote_views(dedup@) == merge_all(dedup_keys(pv, n as int), lv.take(k as int)),
                unique_keys(remote_views(dedup@)),
            decreases count - k,
        {
            let ghost cur = remote_views(dedup@);
            let p = list[k].copy();
            assert(lv.take(k + 1).drop_last() =~= lv.take(k as int));
            assert(lv.take(k + 1).last() == p@);
            proof {
                lemma_merge_unique(cur, p@);
            }
            match find_key(&dedup, &p) {
                Some(at) => {
                    proof {
                        lemma_unique_choose(cur, p@, at as int);
                    }
                    let old_root = dedup[at].root;
                    let newer = version_is_newer(p.id.version.as_str(), dedup[at].id.version.as_str());
                    let take_new = if old_root {
                        p.root && newer
                    } else {
                        p.root || newer
                    };
                    if take_new {
                        let ghost pview = p@;
                        dedup.set(at, p);
                        assert(remote_views(dedup@) =~= cur.update(at as int, pview));
                    }
                },
                None => {
                    let ghost pview = p@;
                    dedup.push(p);
                    assert(remote_views(dedup@) =~= cur.push(pview));
                },
            }
            k = k + 1;
        }
        assert(lv.take(count as int) =~= lv);
        self.packages = dedup;
        proof {
            assert forall|j: int| 0 <= j < list@.len() && (#[trigger] list@[j]).root implies crate::lock_laws::has_root_key(
                self.remote(),
                list@[j].id@.group,
                list@[j].id@.artifact,
            ) by {
                assert(remote_views(list@)[j] == list@[j]@);
                crate::lock_laws::lemma_add_makes_listed_roots_roots(old(self).remote(), remote_views(list@), j);
            }
        }
        count
    }
}

} // verus!
