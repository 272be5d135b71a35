//! What dropping unneeded packages, removing a package and adding a resolved
//! list promise of the lock file as a whole.

use vstd::prelude::*;
use crate::lock_file::RemotePackageView;
use crate::lock_gc::{
    collect_garbage, depends, lemma_within_monotone, other_ids, keep_needed, needed_ids, retain_ids, strip_id, unneeded,
    unneeded_within, with_dependencies,
};
use crate::lock_merge::{
    add_result, dedup_keys, last_of_key, merge_all, merge_package, replaces, same_key, unique_keys,
};
use crate::maven::MavenIdView;

verus! {

/// What entry `v` becomes when it is kept: its dependency list cut down to
/// kept coordinates.
pub open spec fn gc_entry(pk: Seq<RemotePackageView>, v: int) -> RemotePackageView {
    with_dependencies(pk[v], retain_ids(pk[v].dependencies, needed_ids(pk)))
}

/// A coordinate survives `retain_ids` exactly when it was listed and is kept.
pub proof fn lemma_retain_contains(s: Seq<MavenIdView>, keep: Set<MavenIdView>, x: MavenIdView)
    ensures
        retain_ids(s, keep).contains(x) <==> (s.contains(x) && keep.contains(x)),
    decreases s.len(),
{
    if s.len() > 0 {
        lemma_retain_contains(s.drop_last(), keep, x);
        let r = retain_ids(s.drop_last(), keep);
        if s.drop_last().contains(x) {
            let i = choose|i: int| 0 <= i < s.drop_last().len() && s.drop_last()[i] == x;
            assert(s[i] == x);
        }
        if s.contains(x) && !s.drop_last().contains(x) {
            let i = choose|i: int| 0 <= i < s.len() && s[i] == x;
            if i < s.len() - 1 {
                assert(s.drop_last()[i] == x);
            }
        }
        if keep.contains(s.last()) {
            if r.push(s.last()).contains(x) && !r.contains(x) {
                let i = choose|i: int| 0 <= i < r.push(s.last()).len() && r.push(s.last())[i] == x;
                assert(i == r.len());
            }
            if r.contains(x) {
                let i = choose|i: int| 0 <= i < r.len() && r[i] == x;
                assert(r.push(s.last())[i] == x);
            }
            if x == s.last() {
                assert(r.push(s.last())[r.len() as int] == x);
            }
        }
        if x == s.last() {
            assert(s[s.len() - 1] == x);
        }
    }
}

/// Each kept entry among the first `upto` appears in `keep_needed`.
proof fn lemma_keep_needed_member(pk: Seq<RemotePackageView>, upto: int, v: int)
    requires
        0 <= v < upto <= pk.len(),
        !unneeded(pk, v),
    ensures
        keep_needed(pk, upto).contains(gc_entry(pk, v)),
    decreases upto,
{
    let r = keep_needed(pk, upto - 1);
    if v < upto - 1 {
        lemma_keep_needed_member(pk, upto - 1, v);
        let i = choose|i: int| 0 <= i < r.len() && r[i] == gc_entry(pk, v);
        if !unneeded(pk, upto - 1) {
            assert(r.push(gc_entry(pk, upto - 1))[i] == gc_entry(pk, v));
        }
    } else {
        assert(r.push(gc_entry(pk, v))[r.len() as int] == gc_entry(pk, v));
    }
}

/// Each entry of `keep_needed` is a kept entry among the first `upto`.
proof fn lemma_keep_needed_origin(pk: Seq<RemotePackageView>, upto: int, j: int) -> (v: int)
    requires
        0 <= upto <= pk.len(),
        0 <= j < keep_needed(pk, upto).len(),
    ensures
        0 <= v < upto,
        !unneeded(pk, v),
        keep_needed(pk, upto)[j] == gc_entry(pk, v),
    decreases upto,
{
    let r = keep_needed(pk, upto - 1);
    if j < r.len() {
        let v = lemma_keep_needed_origin(pk, upto - 1, j);
        if !unneeded(pk, upto - 1) {
            assert(r.push(gc_entry(pk, upto - 1))[j] == r[j]);
        }
        v
    } else {
        upto - 1
    }
}

/// Dropping within `a` rounds implies dropping within any `b >= a` rounds.
proof fn lemma_within_le(pk: Seq<RemotePackageView>, a: nat, b: nat, v: int)
    requires
        a <= b,
        unneeded_within(pk, a, v),
    ensures
        unneeded_within(pk, b, v),
    decreases b - a,
{
    if a < b {
        lemma_within_monotone(pk, a, v);
        lemma_within_le(pk, a + 1, b, v);
    }
}

/// A number of rounds within which every dependent of `v` below `m` is
/// dropped, when each of them is dropped at all.
proof fn lemma_common_bound(pk: Seq<RemotePackageView>, v: int, m: int) -> (k: nat)
    requires
        0 <= m <= pk.len(),
        forall|u: int| 0 <= u < m && #[trigger] depends(pk, u, v) ==> unneeded(pk, u),
    ensures
        forall|u: int| 0 <= u < m && #[trigger] depends(pk, u, v) ==> unneeded_within(pk, k, u),
    decreases m,
{
    if m == 0 {
        0
    } else {
        let k0 = lemma_common_bound(pk, v, m - 1);
        if depends(pk, m - 1, v) {
            assert(unneeded(pk, m - 1));
            let k1 = choose|k1: nat| #[trigger] unneeded_within(pk, k1, m - 1);
            let k = if k0 < k1 { k1 } else { k0 };
            assert forall|u: int| 0 <= u < m && #[trigger] depends(pk, u, v) implies unneeded_within(
                pk,
                k,
                u,
            ) by {
                if u < m - 1 {
                    lemma_within_le(pk, k0, k, u);
                } else {
                    lemma_within_le(pk, k1, k, u);
                }
            }
            k
        } else {
            k0
        }
    }
}

/// A kept entry that is not a root has a kept dependent.
proof fn lemma_kept_has_kept_dependent(pk: Seq<RemotePackageView>, v: int) -> (u: int)
    requires
        0 <= v < pk.len(),
        !unneeded(pk, v),
        !pk[v].root,
    ensures
        depends(pk, u, v),
        !unneeded(pk, u),
{
    if forall|u: int| #[trigger] depends(pk, u, v) ==> unneeded(pk, u) {
        let k = lemma_common_bound(pk, v, pk.len() as int);
        assert forall|u: int| #[trigger] depends(pk, u, v) implies unneeded_within(pk, k, u) by {}
        assert(unneeded_within(pk, k + 1, v));
        assert(false);
        0
    } else {
        choose|u: int| #[trigger] depends(pk, u, v) && !unneeded(pk, u)
    }
}

/// Dropping unneeded packages never drops a package that the project names
/// directly: every root entry stays, its dependency list cut down to the
/// coordinates of kept entries.
pub proof fn lemma_roots_survive(pk: Seq<RemotePackageView>, i: int)
    requires
        0 <= i < pk.len(),
        pk[i].root,
    ensures
        collect_garbage(pk).contains(gc_entry(pk, i)),
{
    assert(!unneeded(pk, i)) by {
        if unneeded(pk, i) {
            let k = choose|k: nat| unneeded_within(pk, k, i);
            assert(unneeded_within(pk, k, i));
        }
    }
    lemma_keep_needed_member(pk, pk.len() as int, i);
}

/// After dropping unneeded packages, nothing unneeded is left: every entry
/// that is not a root is listed as a dependency by an entry that stays (by
/// itself, when it lists its own coordinate).
pub proof fn lemma_no_garbage_left(pk: Seq<RemotePackageView>, j: int) -> (u: int)
    requires
        0 <= j < collect_garbage(pk).len(),
        !collect_garbage(pk)[j].root,
    ensures
        0 <= u < collect_garbage(pk).len(),
        collect_garbage(pk)[u].dependencies.contains(collect_garbage(pk)[j].id),
{
    let cg = collect_garbage(pk);
    let v = lemma_keep_needed_origin(pk, pk.len() as int, j);
    let w = lemma_kept_has_kept_dependent(pk, v);
    lemma_keep_needed_member(pk, pk.len() as int, w);
    let u = choose|u: int| 0 <= u < cg.len() && cg[u] == gc_entry(pk, w);
    assert(needed_ids(pk).contains(pk[v].id));
    lemma_retain_contains(pk[w].dependencies, needed_ids(pk), pk[v].id);
    u
}

/// Removing a package takes its coordinate out of every dependency list that
/// stays: no entry left after the removal and the clean-up lists it.
pub proof fn lemma_removed_id_unlisted(pk: Seq<RemotePackageView>, id: MavenIdView, j: int)
    requires
        0 <= j < collect_garbage(strip_id(pk, id)).len(),
    ensures
        !collect_garbage(strip_id(pk, id))[j].dependencies.contains(id),
{
    let sp = strip_id(pk, id);
    let v = lemma_keep_needed_origin(sp, sp.len() as int, j);
    let keep = other_ids(id);
    assert(sp[v].dependencies == retain_ids(pk[v].dependencies, keep));
    assert(!keep.contains(id));
    lemma_retain_contains(sp[v].dependencies, needed_ids(sp), id);
    lemma_retain_contains(pk[v].dependencies, keep, id);
    assert(collect_garbage(sp)[j].dependencies == retain_ids(sp[v].dependencies, needed_ids(sp)));
}

/// Some root entry of `pk` has this group and artifact.
pub open spec fn has_root_key(pk: Seq<RemotePackageView>, group: Seq<char>, artifact: Seq<char>) -> bool {
    exists|j: int|
        0 <= j < pk.len() && #[trigger] pk[j].root && pk[j].id.group == group && pk[j].id.artifact
            == artifact
}

/// Some entry of `pk` has the group and artifact of `p`.
pub open spec fn has_key(pk: Seq<RemotePackageView>, p: RemotePackageView) -> bool {
    exists|j: int| 0 <= j < pk.len() && #[trigger] same_key(pk[j], p)
}

proof fn lemma_dedup_of_unique(pk: Seq<RemotePackageView>, upto: int)
    requires
        unique_keys(pk),
        0 <= upto <= pk.len(),
    ensures
        dedup_keys(pk, upto) == pk.take(upto),
    decreases upto,
{
    if upto > 0 {
        lemma_dedup_of_unique(pk, upto - 1);
        assert(last_of_key(pk, upto - 1)) by {
            assert forall|j: int| upto - 1 < j < pk.len() implies !same_key(#[trigger] pk[j], pk[upto - 1]) by {
                assert(!same_key(pk[upto - 1], pk[j]));
            }
        }
        assert(pk.take(upto) =~= pk.take(upto - 1).push(pk[upto - 1]));
    }
}

proof fn lemma_merge_keeps_root(pk: Seq<RemotePackageView>, p: RemotePackageView, g: Seq<char>, a: Seq<char>)
    requires
        has_root_key(pk, g, a),
    ensures
        has_root_key(merge_package(pk, p), g, a),
{
    let j = choose|j: int| 0 <= j < pk.len() && #[trigger] pk[j].root && pk[j].id.group == g && pk[j].id.artifact == a;
    if exists|i: int| 0 <= i < pk.len() && same_key(pk[i], p) {
        let i = choose|i: int| 0 <= i < pk.len() && same_key(pk[i], p);
        if replaces(pk[i], p) {
            let r = pk.update(i, p);
            if i == j {
                assert(r[i].root && r[i].id.group == g && r[i].id.artifact == a);
            } else {
                assert(r[j].root && r[j].id.group == g && r[j].id.artifact == a);
            }
        }
    } else {
        let r = pk.push(p);
        assert(r[j].root && r[j].id.group == g && r[j].id.artifact == a);
    }
}

proof fn lemma_merge_all_keeps_root(pk: Seq<RemotePackageView>, list: Seq<RemotePackageView>, g: Seq<char>, a: Seq<char>)
    requires
        has_root_key(pk, g, a),
    ensures
        has_root_key(merge_all(pk, list), g, a),
    decreases list.len(),
{
    if list.len() > 0 {
        lemma_merge_all_keeps_root(pk, list.drop_last(), g, a);
        lemma_merge_keeps_root(merge_all(pk, list.drop_last()), list.last(), g, a);
    }
}

/// Adding a resolved list never takes away a package that the project names
/// directly: a root entry of the lock file still has a root entry with its
/// group and artifact afterwards (perhaps of a newer version). The lock file
/// must hold one entry per group and artifact, as `add_package` leaves it.
pub proof fn lemma_add_keeps_roots(pk: Seq<RemotePackageView>, list: Seq<RemotePackageView>, i: int)
    requires
        unique_keys(pk),
        0 <= i < pk.len(),
        pk[i].root,
    ensures
        has_root_key(add_result(pk, list), pk[i].id.group, pk[i].id.artifact),
{
    lemma_dedup_of_unique(pk, pk.len() as int);
    assert(pk.take(pk.len() as int) =~= pk);
    assert(pk[i].root && pk[i].id.group == pk[i].id.group);
    lemma_merge_all_keeps_root(pk, list, pk[i].id.group, pk[i].id.artifact);
}

proof fn lemma_merge_keeps_key(pk: Seq<RemotePackageView>, p: RemotePackageView, q: RemotePackageView)
    ensures
        has_key(pk, q) ==> has_key(merge_package(pk, p), q),
        has_key(merge_package(pk, p), p),
{
    if exists|i: int| 0 <= i < pk.len() && same_key(pk[i], p) {
        let i = choose|i: int| 0 <= i < pk.len() && same_key(pk[i], p);
        let r = pk.update(i, p);
        if replaces(pk[i], p) {
            assert(same_key(r[i], p));
            if has_key(pk, q) {
                let j = choose|j: int| 0 <= j < pk.len() && #[trigger] same_key(pk[j], q);
                if j == i {
                    assert(same_key(r[i], q));
                } else {
                    assert(same_key(r[j], q));
                }
            }
        } else {
            assert(same_key(pk[i], p));
        }
    } else {
        let r = pk.push(p);
        assert(same_key(r[pk.len() as int], p));
        if has_key(pk, q) {
            let j = choose|j: int| 0 <= j < pk.len() && #[trigger] same_key(pk[j], q);
            assert(same_key(r[j], q));
        }
    }
}

proof fn lemma_merge_all_covers(pk: Seq<RemotePackageView>, list: Seq<RemotePackageView>, k: int)
    requires
        0 <= k < list.len(),
    ensures
        has_key(merge_all(pk, list), list[k]),
    decreases list.len(),
{
    let prev = merge_all(pk, list.drop_last());
    lemma_merge_keeps_key(prev, list.last(), list[k]);
    if k < list.len() - 1 {
        lemma_merge_all_covers(pk, list.drop_last(), k);
        assert(list.drop_last()[k] == list[k]);
    }
}

proof fn lemma_merge_root_gives_root(pk: Seq<RemotePackageView>, p: RemotePackageView)
    requires
        p.root,
    ensures
        has_root_key(merge_package(pk, p), p.id.group, p.id.artifact),
{
    if exists|i: int| 0 <= i < pk.len() && same_key(pk[i], p) {
        let i = choose|i: int| 0 <= i < pk.len() && same_key(pk[i], p);
        if replaces(pk[i], p) {
            let r = pk.update(i, p);
            assert(r[i].root && r[i].id.group == p.id.group && r[i].id.artifact == p.id.artifact);
        } else {
            assert(pk[i].root);
            assert(pk[i].root && pk[i].id.group == p.id.group && pk[i].id.artifact == p.id.artifact);
        }
    } else {
        let r = pk.push(p);
        assert(r[pk.len() as int].root && r[pk.len() as int].id.group == p.id.group && r[pk.len() as int].id.artifact
            == p.id.artifact);
    }
}

proof fn lemma_merge_all_root_listed(pk: Seq<RemotePackageView>, list: Seq<RemotePackageView>, k: int)
    requires
        0 <= k < list.len(),
        list[k].root,
    ensures
        has_root_key(merge_all(pk, list), list[k].id.group, list[k].id.artifact),
    decreases list.len(),
{
    let prev = merge_all(pk, list.drop_last());
    if k == list.len() - 1 {
        lemma_merge_root_gives_root(prev, list.last());
    } else {
        assert(list.drop_last()[k] == list[k]);
        lemma_merge_all_root_listed(pk, list.drop_last(), k);
        lemma_merge_keeps_root(prev, list.last(), list[k].id.group, list[k].id.artifact);
    }
}

/// Adding a resolved list makes every root of the list a root of the lock
/// file: an entry that is not a root gives way to a root entry with its
/// group and artifact, and a root entry, replaced or not, stays a root.
pub proof fn lemma_add_makes_listed_roots_roots(pk: Seq<RemotePackageView>, list: Seq<RemotePackageView>, k: int)
    requires
        0 <= k < list.len(),
        list[k].root,
    ensures
        has_root_key(add_result(pk, list), list[k].id.group, list[k].id.artifact),
{
    lemma_merge_all_root_listed(dedup_keys(pk, pk.len() as int), list, k);
}

/// After adding a resolved list, every package of the list has an entry with
/// its group and artifact (the listed one, or one that it did not replace).
pub proof fn lemma_add_covers_list(pk: Seq<RemotePackageView>, list: Seq<RemotePackageView>, k: int)
    requires
        0 <= k < list.len(),
    ensures
        has_key(add_result(pk, list), list[k]),
{
    lemma_merge_all_covers(dedup_keys(pk, pk.len() as int), list, k);
}

} // verus!
