//! Keeping the library folders in line with the lock file: which files on
//! disk no package owns (they are removed), which packages have no file yet
//! (they are downloaded), and what a downloaded jar adds to its entry.

use vstd::prelude::*;
use crate::annotations::{declared_processors, process_annotations};
use crate::errors::LockFileError;
use crate::lock_file::{LockFile, RemotePackageView};
use crate::text::views;

verus! {

/// Some remote entry has this file name.
pub open spec fn owns_name(pk: Seq<RemotePackageView>, name: Seq<char>) -> bool {
    exists|i: int| 0 <= i < pk.len() && pk[i].file_name == name
}

/// Entry `i` is the last with its file name: the one the file of that name
/// belongs to.
pub open spec fn name_owner(pk: Seq<RemotePackageView>, i: int) -> bool {
    &&& 0 <= i < pk.len()
    &&& forall|k: int| i < k < pk.len() ==> #[trigger] pk[k].file_name != pk[i].file_name
}

/// File `k` of the listing (the library folder's files, then the
/// annotation folder's) is removed: no entry has its name, or an earlier
/// file already had that name.
pub open spec fn file_removed(pk: Seq<RemotePackageView>, files: Seq<Seq<char>>, k: int) -> bool {
    !owns_name(pk, files[k]) || exists|j: int| 0 <= j < k && files[j] == files[k]
}

/// The files among the first `upto` of the listing that are removed, in
/// order (counted from `from`).
pub open spec fn removed_files(pk: Seq<RemotePackageView>, files: Seq<Seq<char>>, from: int, upto: int) -> Seq<Seq<char>>
    decreases upto - from,
{
    if upto <= from {
        Seq::<Seq<char>>::empty()
    } else {
        let r = removed_files(pk, files, from, upto - 1);
        if file_removed(pk, files, upto - 1) {
            r.push(files[upto - 1])
        } else {
            r
        }
    }
}

/// The entries among the first `upto` that own their name and whose file
/// is in neither folder, in order.
pub open spec fn missing_entries(pk: Seq<RemotePackageView>, files: Seq<Seq<char>>, upto: int) -> Seq<int>
    decreases upto,
{
    if upto <= 0 {
        Seq::<int>::empty()
    } else {
        let r = missing_entries(pk, files, upto - 1);
        if name_owner(pk, upto - 1) && !files.contains(pk[upto - 1].file_name) {
            r.push(upto - 1)
        } else {
            r
        }
    }
}

/// What to do to the library folders.
#[derive(Debug)]
pub struct ValidationPlan {
    pub remove_from_lib: Vec<String>,
    pub remove_from_annotations: Vec<String>,
    pub missing: Vec<usize>,
}

/// Whether `v` holds `s`.
fn holds(v: &Vec<String>, upto: usize, s: &String) -> (b: bool)
    requires
        upto <= v@.len(),
    ensures
        b == exists|j: int| 0 <= j < upto && v@[j]@ == s@,
{
    let mut j: usize = 0;
    while j < upto
        invariant
            upto <= v@.len(),
            j <= upto,
            forall|m: int| 0 <= m < j ==> v@[m]@ != s@,
        decreases upto - j,
    {
        if v[j] == *s {
            return true;
        }
        j = j + 1;
    }
    false
}

impl LockFile {
    /// Whether some remote entry has this file name.
    fn owns_file(&self, name: &String) -> (b: bool)
        ensures
            b == owns_name(self.remote(), name@),
    {
        let mut i: usize = 0;
        while i < self.packages.len()
            invariant
                i <= self.packages@.len(),
                forall|j: int| 0 <= j < i ==> self.remote()[j].file_name != name@,
            decreases self.packages@.len() - i,
        {
            assert(self.remote()[i as int] == self.packages@[i as int]@);
            if self.packages[i].file_name == *name {
                return true;
            }
            i = i + 1;
        }
        false
    }

    /// What keeps the library folders in line with the lock file, given the
    /// names of the files in the library folder (`lib_files`) and in the
    /// annotation processor folder (`annotation_files`): each file that no
    /// entry names, or whose name an earlier file (the library folder's
    /// first) already had, is removed; each entry that owns its file name
    /// and whose file is in neither folder must be downloaded.
    pub fn plan_validation(&self, lib_files: &Vec<String>, annotation_files: &Vec<String>) -> (r: ValidationPlan)
        ensures
            views(r.remove_from_lib@) == removed_files(
                self.remote(),
                views(lib_files@) + views(annotation_files@),
                0,
                lib_files@.len() as int,
            ),
            views(r.remove_from_annotations@) == removed_files(
                self.remote(),
                views(lib_files@) + views(annotation_files@),
                lib_files@.len() as int,
                (lib_files@.len() + annotation_files@.len()) as int,
            ),
            r.missing@.map_values(|i: usize| i as int) == missing_entries(
                self.remote(),
                views(lib_files@) + views(annotation_files@),
                self.remote().len() as int,
            ),
    {
        let mut all: Vec<String> = crate::text::clone_strings(lib_files);
        let mut extra = crate::text::clone_strings(annotation_files);
        all.append(&mut extra);
        let ghost files = views(all@);
        assert(files =~= views(lib_files@) + views(annotation_files@));
        let nl = lib_files.len();
        let mut lib_out: Vec<String> = Vec::new();
        let mut ann_out: Vec<String> = Vec::new();
        let mut k: usize = 0;
        while k < all.len()
            invariant
                files == views(all@),
                nl <= all@.len(),
                k <= all@.len(),
                views(lib_out@) == removed_files(self.remote(), files, 0, if k < nl { k as int } else { nl as int }),
                views(ann_out@) == removed_files(self.remote(), files, nl as int, if k < nl { nl as int } else { k as int }),
            decreases all@.len() - k,
        {
            let owned_name = self.owns_file(&all[k]);
            let seen = holds(&all, k, &all[k]);
            proof {
                if seen {
                    let j = choose|j: int| 0 <= j < k && all@[j]@ == all@[k as int]@;
                    assert(files[j] == files[k as int]);
                }
                if exists|j: int| 0 <= j < k && files[j] == files[k as int] {
                    let j = choose|j: int| 0 <= j < k && files[j] == files[k as int];
                    assert(all@[j]@ == all@[k as int]@);
                }
            }
            if !owned_name || seen {
                let c = all[k].clone();
                if k < nl {
                    let ghost before = lib_out@;
                    lib_out.push(c);
                    assert(views(lib_out@) =~= views(before).push(files[k as int]));
                } else {
                    let ghost before = ann_out@;
                    ann_out.push(c);
                    assert(views(ann_out@) =~= views(before).push(files[k as int]));
                }
            }
            k = k + 1;
        }
        let mut missing: Vec<usize> = Vec::new();
        let n = self.packages.len();
        let mut i: usize = 0;
        while i < n
            invariant
                n == self.packages@.len(),
                files == views(all@),
                i <= n,
                missing@.map_values(|x: usize| x as int) == missing_entries(self.remote(), files, i as int),
            decreases n - i,
        {
            assert(self.remote()[i as int] == self.packages@[i as int]@);
            let mut last = true;
            let mut j: usize = i + 1;
            while j < n
                invariant
                    n == self.packages@.len(),
                    i < j <= n,
                    last == forall|m: int| i < m < j ==> #[trigger] self.remote()[m].file_name != self.remote()[i as int].file_name,
                decreases n - j,
            {
                assert(self.remote()[j as int] == self.packages@[j as int]@);
                assert(self.remote()[i as int] == self.packages@[i as int]@);
                if self.packages[j].file_name == self.packages[i].file_name {
                    last = false;
                    assert(self.remote()[j as int].file_name == self.remote()[i as int].file_name);
                }
                j = j + 1;
            }
            let present = holds(&all, all.len(), &self.packages[i].file_name);
            proof {
                assert(present == files.contains(self.remote()[i as int].file_name)) by {
                    if present {
                        let m = choose|m: int| 0 <= m < all@.len() && all@[m]@ == self.packages@[i as int].file_name@;
                        assert(files[m] == self.remote()[i as int].file_name);
                    }
                    if files.contains(self.remote()[i as int].file_name) {
                        let m = choose|m: int| 0 <= m < files.len() && files[m] == self.remote()[i as int].file_name;
                        assert(all@[m]@ == self.packages@[i as int].file_name@);
                    }
                }
            }
            if last && !present {
                let ghost before = missing@;
                missing.push(i);
                assert(missing@.map_values(|x: usize| x as int) =~= before.map_values(|x: usize| x as int).push(i as int));
            }
            i = i + 1;
        }
        ValidationPlan { remove_from_lib: lib_out, remove_from_annotations: ann_out, missing }
    }

    /// Records a downloaded jar for entry `index`: its annotation
    /// processors (see `declared_processors`) replace the entry's list when
    /// there are any. Returns whether the jar belongs in the annotation
    /// processor folder, i.e. whether it declares processors; fails when the
    /// jar cannot be read.
    pub fn record_download(&mut self, index: usize, bytes: &Vec<u8>) -> (r: Result<bool, LockFileError>)
        requires
            index < old(self).packages@.len(),
        ensures
            match declared_processors(bytes@) {
                Err(m) => (r matches Err(LockFileError::RemoteProcesserParsingError(e)) && e@ == m)
                    && final(self).remote() == old(self).remote(),
                Ok(l) => r == Ok::<bool, LockFileError>(l.len() > 0) && final(self).remote() == (if l.len() > 0 {
                    old(self).remote().update(
                        index as int,
                        RemotePackageView { annotations: l, ..old(self).remote()[index as int] },
                    )
                } else {
                    old(self).remote()
                }),
            },
            final(self).local_packages@ == old(self).local_packages@,
    {
        let annotations = match process_annotations(bytes) {
            Ok(a) => a,
            Err(m) => {
                return Err(LockFileError::RemoteProcesserParsingError(m));
            },
        };
        if annotations.len() == 0 {
            return Ok(false);
        }
        let ghost pv = self.remote();
        let mut p = self.packages[index].copy();
        let ghost av = views(annotations@);
        p.annotations = annotations;
        let ghost nv = p@;
        self.packages.set(index, p);
        assert(self.remote() =~= pv.update(index as int, nv));
        Ok(true)
    }
}

/// The downloads, once all have ended: every error when any failed (in
/// order), else every result.
/// The errors among download results, in order.
pub open spec fn failures(rs: Seq<Result<(usize, Vec<u8>), LockFileError>>) -> Seq<LockFileError>
    decreases rs.len(),
{
    if rs.len() == 0 {
        Seq::<LockFileError>::empty()
    } else {
        match rs.last() {
            Err(e) => failures(rs.drop_last()).push(e),
            Ok(_) => failures(rs.drop_last()),
        }
    }
}

pub fn collect_downloads(results: Vec<Result<(usize, Vec<u8>), LockFileError>>) -> (r: Result<
    Vec<(usize, Vec<u8>)>,
    LockFileError,
>)
    ensures
        (forall|k: int| 0 <= k < results@.len() ==> #[trigger] results@[k] is Ok) <==> r is Ok,
        r matches Ok(v) ==> v@.len() == results@.len() && forall|k: int|
            0 <= k < results@.len() ==> Ok::<(usize, Vec<u8>), LockFileError>(#[trigger] v@[k]) == results@[k],
        r matches Err(e) ==> (e matches LockFileError::FetchError(es) && es@ == failures(results@)),
{
    let ghost rs = results@;
    let mut oks: Vec<(usize, Vec<u8>)> = Vec::new();
    let mut errs: Vec<LockFileError> = Vec::new();
    let mut results = results;
    let mut rev: Vec<Result<(usize, Vec<u8>), LockFileError>> = Vec::new();
    while results.len() > 0
        invariant
            rev@.len() + results@.len() == rs.len(),
            forall|k: int| 0 <= k < results@.len() ==> results@[k] == rs[k],
            forall|k: int| 0 <= k < rev@.len() ==> rev@[k] == rs[rs.len() - 1 - k],
        decreases results@.len(),
    {
        let x = results.pop().unwrap();
        rev.push(x);
    }
    let mut k: usize = rev.len();
    assert(k == rs.len());
    while k > 0
        invariant
            rev@.len() == k,
            k <= rs.len(),
            forall|m: int| 0 <= m < k ==> rev@[m] == rs[rs.len() - 1 - m],
            errs@.len() == 0 ==> (oks@.len() == rs.len() - k && forall|m: int|
                0 <= m < oks@.len() ==> Ok::<(usize, Vec<u8>), LockFileError>(#[trigger] oks@[m]) == rs[m]),
            errs@.len() == 0 <==> forall|m: int| 0 <= m < rs.len() - k ==> #[trigger] rs[m] is Ok,
            errs@ == failures(rs.take(rs.len() - k)),
        decreases k,
    {
        let x = rev.pop().unwrap();
        assert(x == rs[rs.len() - k]);
        assert(rs.take(rs.len() - k + 1).drop_last() =~= rs.take(rs.len() - k));
        assert(rs.take(rs.len() - k + 1).last() == rs[rs.len() - k]);
        match x {
            Ok(v) => {
                oks.push(v);
            },
            Err(e) => {
                errs.push(e);
            },
        }
        k = k - 1;
    }
    assert(rs.take(rs.len() as int) =~= rs);
    if errs.len() > 0 {
        return Err(LockFileError::FetchError(errs));
    }
    Ok(oks)
}

} // verus!
