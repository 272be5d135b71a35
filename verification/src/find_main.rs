//! Finding the classes of a source tree that have a `main` method.

use vstd::prelude::*;
use crate::dep_graph::{SourceFile, group_matches, opt_views, regex_group_matches};
use crate::errors::GraphError;
use crate::text::owned;

verus! {

/// Matches the head of a `main` method.
pub const MAIN_PATTERN: &'static str = "public static void main(.*) ";

/// Matches a class declaration; group `class` is the class name.
pub const CLASS_PATTERN: &'static str = "(public[ ]*)?class (?<class>[^ ]*) ";

/// A class with a `main` method, and the file it is in.
#[derive(Debug)]
pub struct MainClass {
    pub path: String,
    pub classname: String,
}

/// The characters of a `MainClass`.
pub open spec fn main_view(m: MainClass) -> (Seq<char>, Seq<char>) {
    (m.path@, m.classname@)
}

/// The main classes of one file: one entry per `main` method found, each
/// with the name of the first class declared in the file; none when the file
/// declares no class. `None` when a pattern is refused or the first class
/// declaration has no name.
pub open spec fn mains_in(path: Seq<char>, contents: Seq<char>) -> Option<Seq<(Seq<char>, Seq<char>)>> {
    let mains = regex_group_matches(MAIN_PATTERN@, "main"@, contents);
    let classes = regex_group_matches(CLASS_PATTERN@, "class"@, contents);
    if mains is None || classes is None {
        None
    } else if classes->0.len() == 0 {
        Some(Seq::<(Seq<char>, Seq<char>)>::empty())
    } else if classes->0[0] is None {
        None
    } else {
        Some(Seq::new(mains->0.len(), |i: int| (path, classes->0[0]->0)))
    }
}

/// The main classes of the first `upto` files, in order.
pub open spec fn mains_upto(files: Seq<SourceFile>, upto: int) -> Option<Seq<(Seq<char>, Seq<char>)>>
    decreases upto,
{
    if upto <= 0 {
        Some(Seq::<(Seq<char>, Seq<char>)>::empty())
    } else {
        match mains_upto(files, upto - 1) {
            Some(l) => match mains_in(files[upto - 1].path@, files[upto - 1].contents@) {
                Some(m) => Some(l + m),
                None => None,
            },
            None => None,
        }
    }
}

/// The views of main classes.
pub open spec fn main_views(v: Seq<MainClass>) -> Seq<(Seq<char>, Seq<char>)> {
    v.map_values(|m: MainClass| main_view(m))
}

/// The main classes of the given source files (see `mains_in`), file by
/// file. Fails when the patterns cannot be applied to a file.
pub fn find_main_classes(files: &Vec<SourceFile>) -> (r: Result<Vec<MainClass>, GraphError>)
    ensures
        r is Ok <==> mains_upto(files@, files@.len() as int) is Some,
        r matches Ok(v) ==> main_views(v@) == mains_upto(files@, files@.len() as int)->0,
        r matches Ok(v) ==> forall|k: int|
            0 <= k < v@.len() ==> exists|j: int|
                0 <= j < files@.len() && (#[trigger] files@[j]).path@ == (#[trigger] v@[k]).path@ && (regex_group_matches(
                    CLASS_PATTERN@,
                    "class"@,
                    files@[j].contents@,
                ) matches Some(cs) && cs.len() > 0 && cs[0] == Some(v@[k].classname@)),
{
    let mut out: Vec<MainClass> = Vec::new();
    assert(main_views(out@) =~= Seq::<(Seq<char>, Seq<char>)>::empty());
    let mut i: usize = 0;
    while i < files.len()
        invariant
            i <= files@.len(),
            mains_upto(files@, i as int) == Some(main_views(out@)),
        decreases files@.len() - i,
    {
        let f = &files[i];
        let mains = match group_matches(MAIN_PATTERN, "main", f.contents.as_str()) {
            Some(m) => m,
            None => {
                proof {
                    lemma_mains_none(files@, i + 1, files@.len() as int);
                }
                return Err(GraphError::CreationError(owned("the main pattern does not compile")));
            },
        };
        let classes = match group_matches(CLASS_PATTERN, "class", f.contents.as_str()) {
            Some(c) => c,
            None => {
                proof {
                    lemma_mains_none(files@, i + 1, files@.len() as int);
                }
                return Err(GraphError::CreationError(owned("the class pattern does not compile")));
            },
        };
        if classes.len() > 0 {
            let name = match &classes[0] {
                Some(n) => n.clone(),
                None => {
                    proof {
                        assert(!(opt_views(classes@)[0] is Some));
                        lemma_mains_none(files@, i + 1, files@.len() as int);
                    }
                    return Err(GraphError::CreationError(owned("a class declaration has no name")));
                },
            };
            let ghost before = main_views(out@);
            let ghost found = mains_in(f.path@, f.contents@)->0;
            let mut k: usize = 0;
            while k < mains.len()
                invariant
                    k <= mains@.len(),
                    found == Seq::new(mains@.len(), |j: int| (f.path@, name@)),
                    main_views(out@) == before + found.take(k as int),
                decreases mains@.len() - k,
            {
                let m = MainClass { path: f.path.clone(), classname: name.clone() };
                let ghost mv = main_view(m);
                let ghost prev = out@;
                out.push(m);
                assert(found.take(k + 1) =~= found.take(k as int).push(mv));
                assert(main_views(out@) =~= main_views(prev).push(mv));
                k = k + 1;
            }
            assert(found.take(mains@.len() as int) =~= found);
        } else {
            assert(mains_in(f.path@, f.contents@)->0 =~= Seq::<(Seq<char>, Seq<char>)>::empty());
            assert(main_views(out@) =~= main_views(out@) + Seq::<(Seq<char>, Seq<char>)>::empty());
        }
        i = i + 1;
    }
    proof {
        assert forall|k: int| 0 <= k < out@.len() implies exists|j: int|
            0 <= j < files@.len() && (#[trigger] files@[j]).path@ == (#[trigger] out@[k]).path@ && (regex_group_matches(
                CLASS_PATTERN@,
                "class"@,
                files@[j].contents@,
            ) matches Some(cs) && cs.len() > 0 && cs[0] == Some(out@[k].classname@)) by {
            assert(main_views(out@)[k] == (out@[k].path@, out@[k].classname@));
            lemma_main_named_by_first_class(files@, files@.len() as int, k);
        }
    }
    Ok(out)
}

/// Every main class found is named by the first class declaration of a file
/// with its path: the `class` group of the first match of the class pattern
/// in that file's contents.
pub proof fn lemma_main_named_by_first_class(files: Seq<SourceFile>, upto: int, k: int)
    requires
        0 <= upto <= files.len(),
        mains_upto(files, upto) is Some,
        0 <= k < mains_upto(files, upto)->0.len(),
    ensures
        exists|j: int|
            0 <= j < upto && (#[trigger] files[j]).path@ == mains_upto(files, upto)->0[k].0 && (regex_group_matches(
                CLASS_PATTERN@,
                "class"@,
                files[j].contents@,
            ) matches Some(cs) && cs.len() > 0 && cs[0] == Some(mains_upto(files, upto)->0[k].1)),
    decreases upto,
{
    let l = mains_upto(files, upto - 1)->0;
    let f = files[upto - 1];
    let m = mains_in(f.path@, f.contents@)->0;
    assert(mains_upto(files, upto)->0 == l + m);
    if k < l.len() {
        lemma_main_named_by_first_class(files, upto - 1, k);
        let j = choose|j: int|
            0 <= j < upto - 1 && (#[trigger] files[j]).path@ == l[k].0 && (regex_group_matches(
                CLASS_PATTERN@,
                "class"@,
                files[j].contents@,
            ) matches Some(cs) && cs.len() > 0 && cs[0] == Some(l[k].1));
        assert((l + m)[k] == l[k]);
        assert(files[j].path@ == mains_upto(files, upto)->0[k].0);
    } else {
        let cs = regex_group_matches(CLASS_PATTERN@, "class"@, f.contents@)->0;
        assert((l + m)[k] == m[k - l.len()]);
        assert(cs.len() > 0);
        assert(m[k - l.len()] == (f.path@, cs[0]->0));
        assert(files[upto - 1].path@ == mains_upto(files, upto)->0[k].0);
    }
}

proof fn lemma_mains_none(files: Seq<SourceFile>, a: int, b: int)
    requires
        0 < a <= b,
        mains_upto(files, a) is None,
    ensures
        mains_upto(files, b) is None,
    decreases b - a,
{
    if a < b {
        lemma_mains_none(files, a, b - 1);
    }
}

} // verus!
