//! Building the incremental build's file graph from the source files: each
//! import names the file of a class, or every class of a package when it
//! ends in `*`; the dependents table is the dependencies table turned round.

use vstd::prelude::*;
use crate::build_graph::{EdgesView, Graph, GraphFile, PathEdges, edge_views, first_key, succ};
use crate::package::{Package, includes_spec, wildcard};
use crate::text::{clone_strings, views};

verus! {

/// A source file as the graph builder sees it: its path, when it was last
/// modified, its fully qualified class name, and the imports it names.
#[derive(Debug)]
pub struct NodeFile {
    pub path: String,
    pub modified: u128,
    pub package: Package,
    pub dependencies: Vec<Package>,
}

/// Two class names are equal, static mark included.
pub open spec fn same_package(a: Package, b: Package) -> bool {
    a.segments() == b.segments() && a.static_flag() == b.static_flag()
}

/// The import ends in `*`.
pub open spec fn is_wild(d: Package) -> bool {
    d.segments().len() > 0 && d.segments().last() == wildcard()
}

/// File `j` is the last whose class name equals `d`.
pub open spec fn last_with_package(files: Seq<NodeFile>, d: Package, j: int) -> bool {
    &&& 0 <= j < files.len()
    &&& same_package(files[j].package, d)
    &&& forall|k: int| j < k < files.len() ==> !same_package(#[trigger] files[k].package, d)
}

/// The paths of the first `upto` files whose class the wildcard import `d`
/// covers, in order.
pub open spec fn covered_paths(files: Seq<NodeFile>, d: Package, upto: int) -> Seq<Seq<char>>
    decreases upto,
{
    if upto <= 0 {
        Seq::<Seq<char>>::empty()
    } else {
        let r = covered_paths(files, d, upto - 1);
        if includes_spec(d.segments(), files[upto - 1].package.segments()) {
            r.push(files[upto - 1].path@)
        } else {
            r
        }
    }
}

/// The files that one import names: for a wildcard import, every file whose
/// class it covers; otherwise the last file with exactly that class name,
/// if any.
pub open spec fn import_targets(files: Seq<NodeFile>, d: Package) -> Seq<Seq<char>> {
    if is_wild(d) {
        covered_paths(files, d, files.len() as int)
    } else if exists|j: int| last_with_package(files, d, j) {
        seq![files[choose|j: int| last_with_package(files, d, j)].path@]
    } else {
        Seq::<Seq<char>>::empty()
    }
}

/// The files that the first `upto` imports of `deps` name, in order.
pub open spec fn imports_targets(files: Seq<NodeFile>, deps: Seq<Package>, upto: int) -> Seq<Seq<char>>
    decreases upto,
{
    if upto <= 0 {
        Seq::<Seq<char>>::empty()
    } else {
        imports_targets(files, deps, upto - 1) + import_targets(files, deps[upto - 1])
    }
}

/// `e` put into a table keyed by path: it takes the place of the first entry
/// with its path, or is appended.
pub open spec fn put_entry(tbl: Seq<EdgesView>, e: EdgesView) -> Seq<EdgesView> {
    if exists|i: int| first_key(tbl, e.path, i) {
        tbl.update(choose|i: int| first_key(tbl, e.path, i), e)
    } else {
        tbl.push(e)
    }
}

/// The dependencies table of the first `upto` files.
pub open spec fn dependency_table(files: Seq<NodeFile>, upto: int) -> Seq<EdgesView>
    decreases upto,
{
    if upto <= 0 {
        Seq::<EdgesView>::empty()
    } else {
        put_entry(
            dependency_table(files, upto - 1),
            EdgesView {
                path: files[upto - 1].path@,
                targets: imports_targets(
                    files,
                    files[upto - 1].dependencies@,
                    files[upto - 1].dependencies@.len() as int,
                ),
            },
        )
    }
}

/// Every edge of a table, turned round: (target, source), entry by entry.
pub open spec fn turned_edges(tbl: Seq<EdgesView>) -> Seq<(Seq<char>, Seq<char>)>
    decreases tbl.len(),
{
    if tbl.len() == 0 {
        Seq::<(Seq<char>, Seq<char>)>::empty()
    } else {
        turned_edges(tbl.drop_last()) + tbl.last().targets.map_values(
            |t: Seq<char>| (t, tbl.last().path),
        )
    }
}

/// `p` added to the entry of `t`, or a new entry for `t` listing `p`.
pub open spec fn add_dependent(tbl: Seq<EdgesView>, t: Seq<char>, p: Seq<char>) -> Seq<EdgesView> {
    if exists|i: int| first_key(tbl, t, i) {
        let i = choose|i: int| first_key(tbl, t, i);
        tbl.update(i, EdgesView { path: t, targets: tbl[i].targets.push(p) })
    } else {
        tbl.push(EdgesView { path: t, targets: seq![p] })
    }
}

/// The dependents table built from turned edges, first to last.
pub open spec fn dependents_table(edges: Seq<(Seq<char>, Seq<char>)>) -> Seq<EdgesView>
    decreases edges.len(),
{
    if edges.len() == 0 {
        Seq::<EdgesView>::empty()
    } else {
        add_dependent(dependents_table(edges.drop_last()), edges.last().0, edges.last().1)
    }
}

/// The files of the graph: path and modification time.
pub open spec fn graph_files(files: Seq<NodeFile>) -> Seq<(Seq<char>, u128)> {
    files.map_values(|f: NodeFile| (f.path@, f.modified))
}

proof fn lemma_first_key_unique(tbl: Seq<EdgesView>, p: Seq<char>, i: int, j: int)
    requires
        first_key(tbl, p, i),
        first_key(tbl, p, j),
    ensures
        i == j,
{
    if i < j {
        assert(tbl[i].path == p);
    } else if j < i {
        assert(tbl[j].path == p);
    }
}

/// The index of the first entry of `tbl` for `p`, if any.
fn find_entry(tbl: &Vec<PathEdges>, p: &String) -> (r: Option<usize>)
    ensures
        r matches Some(i) ==> first_key(edge_views(tbl@), p@, i as int),
        r is None ==> !(exists|i: int| first_key(edge_views(tbl@), p@, i)),
{
    let ghost ev = edge_views(tbl@);
    let mut i: usize = 0;
    while i < tbl.len()
        invariant
            ev == edge_views(tbl@),
            i <= tbl@.len(),
            forall|j: int| 0 <= j < i ==> ev[j].path != p@,
        decreases tbl@.len() - i,
    {
        assert(ev[i as int] == tbl@[i as int]@);
        if tbl[i].path == *p {
            return Some(i);
        }
        i = i + 1;
    }
    proof {
        if exists|i: int| first_key(ev, p@, i) {
            let k = choose|k: int| first_key(ev, p@, k);
            assert(ev[k].path == p@);
        }
    }
    None
}

/// The files that one import names (see `import_targets`).
fn targets_of_import(files: &Vec<NodeFile>, d: &Package) -> (r: Vec<String>)
    ensures
        views(r@) == import_targets(files@, *d),
{
    let mut r: Vec<String> = Vec::new();
    if d.is_wildcard() {
        let mut j: usize = 0;
        while j < files.len()
            invariant
                j <= files@.len(),
                is_wild(*d),
                views(r@) == covered_paths(files@, *d, j as int),
            decreases files@.len() - j,
        {
            if d.includes(&files[j].package) {
                let ghost before = r@;
                let c = files[j].path.clone();
                r.push(c);
                assert(views(r@) =~= views(before).push(c@));
            }
            j = j + 1;
        }
        return r;
    }
    let mut j: usize = files.len();
    while j > 0
        invariant
            j <= files@.len(),
            !is_wild(*d),
            r@.len() == 0,
            forall|k: int| j <= k < files@.len() ==> !same_package(#[trigger] files@[k].package, *d),
        decreases j,
    {
        if files[j - 1].package.same_as(d) {
            let c = files[j - 1].path.clone();
            proof {
                assert(last_with_package(files@, *d, j - 1));
                let k = choose|k: int| last_with_package(files@, *d, k);
                if k < j - 1 {
                    assert(!same_package(files@[j - 1].package, *d));
                } else if j - 1 < k {
                    assert(!same_package(files@[k].package, *d));
                }
            }
            r.push(c);
            assert(views(r@) =~= seq![c@]);
            return r;
        }
        j = j - 1;
    }
    proof {
        if exists|k: int| last_with_package(files@, *d, k) {
            let k = choose|k: int| last_with_package(files@, *d, k);
            assert(!same_package(files@[k].package, *d));
        }
    }
    assert(views(r@) =~= Seq::<Seq<char>>::empty());
    r
}

/// Puts `e` into `tbl` by path (see `put_entry`).
fn put_edges(tbl: Vec<PathEdges>, e: PathEdges) -> (r: Vec<PathEdges>)
    ensures
        edge_views(r@) == put_entry(edge_views(tbl@), e@),
{
    let ghost ev = edge_views(tbl@);
    let mut out = tbl;
    match find_entry(&out, &e.path) {
        Some(i) => {
            proof {
                let k = choose|k: int| first_key(ev, e@.path, k);
                lemma_first_key_unique(ev, e@.path, i as int, k);
            }
            let ghost evv = e@;
            out.set(i, e);
            assert(edge_views(out@) =~= ev.update(i as int, evv));
        },
        None => {
            let ghost evv = e@;
            out.push(e);
            assert(edge_views(out@) =~= ev.push(evv));
        },
    }
    out
}

/// Adds `p` to the entry of `t` (see `add_dependent`).
fn push_dependent(tbl: Vec<PathEdges>, t: &String, p: &String) -> (r: Vec<PathEdges>)
    ensures
        edge_views(r@) == add_dependent(edge_views(tbl@), t@, p@),
{
    let ghost ev = edge_views(tbl@);
    let mut out = tbl;
    match find_entry(&out, t) {
        Some(i) => {
            proof {
                let k = choose|k: int| first_key(ev, t@, k);
                lemma_first_key_unique(ev, t@, i as int, k);
            }
            let mut targets = clone_strings(&out[i].targets);
            let ghost before = targets@;
            targets.push(p.clone());
            assert(views(targets@) =~= ev[i as int].targets.push(p@));
            let entry = PathEdges { path: t.clone(), targets };
            let ghost nv = entry@;
            out.set(i, entry);
            assert(edge_views(out@) =~= ev.update(i as int, nv));
        },
        None => {
            let mut targets: Vec<String> = Vec::new();
            targets.push(p.clone());
            assert(views(targets@) =~= seq![p@]);
            let entry = PathEdges { path: t.clone(), targets };
            let ghost nv = entry@;
            out.push(entry);
            assert(edge_views(out@) =~= ev.push(nv));
        },
    }
    out
}

impl Graph {
    /// Builds the graph of a source tree: each file's dependencies are the
    /// files its imports name (see `import_targets`), keyed by the file's
    /// path; each file's dependents are the files that list it as a
    /// dependency, in the order of the dependencies table.
    pub fn from_files(files: &Vec<NodeFile>) -> (g: Graph)
        ensures
            g.files@.map_values(|f: GraphFile| (f.path@, f.modified)) == graph_files(files@),
            edge_views(g.dependencies@) == dependency_table(files@, files@.len() as int),
            edge_views(g.dependents@) == dependents_table(
                turned_edges(dependency_table(files@, files@.len() as int)),
            ),
    {
        let mut gfiles: Vec<GraphFile> = Vec::new();
        let mut deps: Vec<PathEdges> = Vec::new();
        let mut i: usize = 0;
        while i < files.len()
            invariant
                i <= files@.len(),
                gfiles@.map_values(|f: GraphFile| (f.path@, f.modified)) == graph_files(files@.take(i as int)),
                edge_views(deps@) == dependency_table(files@, i as int),
            decreases files@.len() - i,
        {
            let f = &files[i];
            let mut targets: Vec<String> = Vec::new();
            let mut k: usize = 0;
            while k < f.dependencies.len()
                invariant
                    k <= f.dependencies@.len(),
                    views(targets@) == imports_targets(files@, f.dependencies@, k as int),
                decreases f.dependencies@.len() - k,
            {
                let more = targets_of_import(files, &f.dependencies[k]);
                let ghost before = targets@;
                let mut more = more;
                let ghost mv = more@;
                targets.append(&mut more);
                assert(views(targets@) =~= views(before) + views(mv));
                k = k + 1;
            }
            let entry = PathEdges { path: f.path.clone(), targets };
            deps = put_edges(deps, entry);
            let ghost gbefore = gfiles@;
            let gf = GraphFile { path: f.path.clone(), modified: f.modified };
            let ghost gv = (gf.path@, gf.modified);
            gfiles.push(gf);
            assert(files@.take(i + 1) =~= files@.take(i as int).push(files@[i as int]));
            assert(gfiles@.map_values(|f: GraphFile| (f.path@, f.modified)) =~= gbefore.map_values(
                |f: GraphFile| (f.path@, f.modified),
            ).push(gv));
            i = i + 1;
        }
        assert(files@.take(files@.len() as int) =~= files@);
        let ghost table = edge_views(deps@);
        let ghost turned = turned_edges(table);
        let mut dependents: Vec<PathEdges> = Vec::new();
        let mut e: usize = 0;
        while e < deps.len()
            invariant
                table == edge_views(deps@),
                turned == turned_edges(table),
                e <= deps@.len(),
                edge_views(dependents@) == dependents_table(turned_edges(table.take(e as int))),
            decreases deps@.len() - e,
        {
            let ghost start = turned_edges(table.take(e as int));
            let ghost entry = table[e as int];
            assert(table.take(e + 1).drop_last() =~= table.take(e as int));
            assert(table.take(e + 1).last() == entry);
            let ghost added = entry.targets.map_values(|t: Seq<char>| (t, entry.path));
            assert(turned_edges(table.take(e + 1)) == start + added);
            assert(entry == deps@[e as int]@);
            let mut k: usize = 0;
            while k < deps[e].targets.len()
                invariant
                    table == edge_views(deps@),
                    e < deps@.len(),
                    entry == deps@[e as int]@,
                    added == entry.targets.map_values(|t: Seq<char>| (t, entry.path)),
                    k <= entry.targets.len(),
                    edge_views(dependents@) == dependents_table(start + added.take(k as int)),
                decreases entry.targets.len() - k,
            {
                assert((start + added.take(k + 1)).drop_last() =~= start + added.take(k as int));
                assert((start + added.take(k + 1)).last() == (entry.targets[k as int], entry.path));
                dependents = push_dependent(dependents, &deps[e].targets[k], &deps[e].path);
                k = k + 1;
            }
            assert(added.take(entry.targets.len() as int) =~= added);
            e = e + 1;
        }
        assert(table.take(deps@.len() as int) =~= table);
        Graph { files: gfiles, dependents, dependencies: deps }
    }
}

/// No two entries of the table share a path.
pub open spec fn keys_unique(tbl: Seq<EdgesView>) -> bool {
    forall|i: int, j: int| 0 <= i < tbl.len() && 0 <= j < tbl.len() && i != j ==> tbl[i].path != tbl[j].path
}

/// Some entry of the table has path `t`.
pub open spec fn has_entry(tbl: Seq<EdgesView>, t: Seq<char>) -> bool {
    exists|i: int| 0 <= i < tbl.len() && tbl[i].path == t
}

/// Some edge goes into `t`.
pub open spec fn has_edge_into(edges: Seq<(Seq<char>, Seq<char>)>, t: Seq<char>) -> bool {
    exists|k: int| 0 <= k < edges.len() && #[trigger] edges[k].0 == t
}

/// The sources of the turned edges into `t`, in order.
pub open spec fn sources_of(edges: Seq<(Seq<char>, Seq<char>)>, t: Seq<char>) -> Seq<Seq<char>>
    decreases edges.len(),
{
    if edges.len() == 0 {
        Seq::<Seq<char>>::empty()
    } else {
        let r = sources_of(edges.drop_last(), t);
        if edges.last().0 == t {
            r.push(edges.last().1)
        } else {
            r
        }
    }
}

proof fn lemma_unique_first_key(tbl: Seq<EdgesView>, i: int)
    requires
        keys_unique(tbl),
        0 <= i < tbl.len(),
    ensures
        first_key(tbl, tbl[i].path, i),
{
}

proof fn lemma_put_entry_unique(tbl: Seq<EdgesView>, e: EdgesView)
    requires
        keys_unique(tbl),
    ensures
        keys_unique(put_entry(tbl, e)),
        forall|i: int|
            0 <= i < put_entry(tbl, e).len() ==> (#[trigger] put_entry(tbl, e)[i] == e || (i < tbl.len()
                && put_entry(tbl, e)[i] == tbl[i] && tbl[i].path != e.path)),
        exists|i: int| 0 <= i < put_entry(tbl, e).len() && #[trigger] put_entry(tbl, e)[i] == e,
{
    let r = put_entry(tbl, e);
    if exists|i: int| first_key(tbl, e.path, i) {
        let k = choose|i: int| first_key(tbl, e.path, i);
        assert(r[k] == e);
        assert forall|a: int, b: int| 0 <= a < r.len() && 0 <= b < r.len() && a != b implies r[a].path != r[b].path by {
            if a == k {
                assert(tbl[b].path != tbl[k].path);
            } else if b == k {
                assert(tbl[a].path != tbl[k].path);
            }
        }
        assert forall|i: int| 0 <= i < r.len() implies (#[trigger] r[i] == e || (i < tbl.len() && r[i] == tbl[i]
            && tbl[i].path != e.path)) by {
            if i != k {
                assert(tbl[i].path != tbl[k].path);
            }
        }
    } else {
        assert(r[tbl.len() as int] == e);
        assert forall|a: int, b: int| 0 <= a < r.len() && 0 <= b < r.len() && a != b implies r[a].path != r[b].path by {
            if a == tbl.len() {
                assert(!first_key(tbl, e.path, b));
            } else if b == tbl.len() {
                assert(!first_key(tbl, e.path, a));
            }
        }
        assert forall|i: int| 0 <= i < r.len() implies (#[trigger] r[i] == e || (i < tbl.len() && r[i] == tbl[i]
            && tbl[i].path != e.path)) by {
            if i < tbl.len() {
                assert(!first_key(tbl, e.path, i));
            }
        }
    }
}

proof fn lemma_dependency_table_unique(files: Seq<NodeFile>, upto: int)
    requires
        0 <= upto <= files.len(),
    ensures
        keys_unique(dependency_table(files, upto)),
    decreases upto,
{
    if upto > 0 {
        lemma_dependency_table_unique(files, upto - 1);
        lemma_put_entry_unique(
            dependency_table(files, upto - 1),
            EdgesView {
                path: files[upto - 1].path@,
                targets: imports_targets(
                    files,
                    files[upto - 1].dependencies@,
                    files[upto - 1].dependencies@.len() as int,
                ),
            },
        );
    }
}

proof fn lemma_turned_contains(tbl: Seq<EdgesView>, q: Seq<char>, p: Seq<char>)
    ensures
        turned_edges(tbl).contains((q, p)) <==> exists|i: int|
            0 <= i < tbl.len() && tbl[i].path == p && #[trigger] tbl[i].targets.contains(q),
    decreases tbl.len(),
{
    if tbl.len() > 0 {
        let prev = tbl.drop_last();
        lemma_turned_contains(prev, q, p);
        let last = tbl.last();
        let added = last.targets.map_values(|t: Seq<char>| (t, last.path));
        crate::text::lemma_add_contains(turned_edges(prev), added, (q, p));
        if added.contains((q, p)) {
            let k = choose|k: int| 0 <= k < added.len() && added[k] == (q, p);
            assert(last.targets[k] == q);
            assert(tbl[tbl.len() - 1].targets.contains(q));
        }
        if exists|i: int| 0 <= i < tbl.len() && tbl[i].path == p && #[trigger] tbl[i].targets.contains(q) {
            let i = choose|i: int| 0 <= i < tbl.len() && tbl[i].path == p && #[trigger] tbl[i].targets.contains(q);
            if i == tbl.len() - 1 {
                let k = choose|k: int| 0 <= k < last.targets.len() && last.targets[k] == q;
                assert(added[k] == (q, p));
            } else {
                assert(prev[i] == tbl[i]);
            }
        }
        if exists|i: int| 0 <= i < prev.len() && prev[i].path == p && #[trigger] prev[i].targets.contains(q) {
            let i = choose|i: int| 0 <= i < prev.len() && prev[i].path == p && #[trigger] prev[i].targets.contains(q);
            assert(tbl[i] == prev[i]);
        }
    }
}

proof fn lemma_sources_contains(edges: Seq<(Seq<char>, Seq<char>)>, t: Seq<char>, p: Seq<char>)
    ensures
        sources_of(edges, t).contains(p) <==> edges.contains((t, p)),
    decreases edges.len(),
{
    if edges.len() > 0 {
        let prev = edges.drop_last();
        lemma_sources_contains(prev, t, p);
        let r = sources_of(prev, t);
        crate::text::lemma_push_contains(prev, edges.last(), (t, p));
        assert(prev.push(edges.last()) =~= edges);
        if edges.last().0 == t {
            crate::text::lemma_push_contains(r, edges.last().1, p);
        }
    }
}

/// The dependents table keeps one entry per path, and the entry for `t`
/// lists the sources of the edges into `t`; a path has an entry exactly
/// when some edge goes into it.
proof fn lemma_dependents_table(edges: Seq<(Seq<char>, Seq<char>)>)
    ensures
        keys_unique(dependents_table(edges)),
        forall|i: int|
            0 <= i < dependents_table(edges).len() ==> (#[trigger] dependents_table(edges)[i]).targets
                == sources_of(edges, dependents_table(edges)[i].path),
        forall|t: Seq<char>| #[trigger] has_entry(dependents_table(edges), t) <==> has_edge_into(edges, t),
    decreases edges.len(),
{
    if edges.len() > 0 {
        let prev = edges.drop_last();
        lemma_dependents_table(prev);
        let tbl = dependents_table(prev);
        let (t, p) = edges.last();
        let r = dependents_table(edges);
        if exists|i: int| first_key(tbl, t, i) {
            let k = choose|i: int| first_key(tbl, t, i);
            assert(r == tbl.update(k, EdgesView { path: t, targets: tbl[k].targets.push(p) }));
            assert forall|a: int, b: int| 0 <= a < r.len() && 0 <= b < r.len() && a != b implies r[a].path != r[b].path by {
                assert(tbl[a].path != tbl[b].path);
            }
            assert forall|i: int| 0 <= i < r.len() implies (#[trigger] r[i]).targets == sources_of(edges, r[i].path) by {
                if i != k {
                    assert(tbl[i].path != tbl[k].path);
                }
            }
            assert forall|u: Seq<char>| #[trigger] has_entry(r, u) <==> has_edge_into(edges, u) by {
                if exists|m: int| 0 <= m < edges.len() && #[trigger] edges[m].0 == u {
                    let m = choose|m: int| 0 <= m < edges.len() && #[trigger] edges[m].0 == u;
                    if m < edges.len() - 1 {
                        assert(prev[m].0 == u);
                        assert(has_edge_into(prev, u));
                        assert(has_entry(tbl, u));
                        let i = choose|i: int| 0 <= i < tbl.len() && tbl[i].path == u;
                        assert(r[i].path == u);
                    } else {
                        assert(r[k].path == u);
                    }
                }
                if exists|i: int| 0 <= i < r.len() && r[i].path == u {
                    let i = choose|i: int| 0 <= i < r.len() && r[i].path == u;
                    assert(tbl[i].path == u);
                    assert(has_entry(tbl, u));
                    let m = choose|m: int| 0 <= m < prev.len() && #[trigger] prev[m].0 == u;
                    assert(edges[m].0 == u);
                }
            }
        } else {
            assert(r == tbl.push(EdgesView { path: t, targets: seq![p] }));
            assert forall|a: int, b: int| 0 <= a < r.len() && 0 <= b < r.len() && a != b implies r[a].path != r[b].path by {
                if a == tbl.len() {
                    assert(!first_key(tbl, t, b));
                } else if b == tbl.len() {
                    assert(!first_key(tbl, t, a));
                }
            }
            assert(!(exists|i: int| 0 <= i < tbl.len() && tbl[i].path == t)) by {
                if exists|i: int| 0 <= i < tbl.len() && tbl[i].path == t {
                    let i = choose|i: int| 0 <= i < tbl.len() && tbl[i].path == t;
                    assert(first_key(tbl, t, i));
                }
            }
            assert(!has_entry(tbl, t));
            assert(!has_edge_into(prev, t));
            assert(sources_of(prev, t) =~= Seq::<Seq<char>>::empty()) by {
                lemma_sources_empty(prev, t);
            }
            assert forall|i: int| 0 <= i < r.len() implies (#[trigger] r[i]).targets == sources_of(edges, r[i].path) by {
                if i < tbl.len() {
                    assert(!first_key(tbl, t, i));
                } else {
                    assert(sources_of(edges, t) =~= seq![p]);
                }
            }
            assert forall|u: Seq<char>| #[trigger] has_entry(r, u) <==> has_edge_into(edges, u) by {
                if exists|m: int| 0 <= m < edges.len() && #[trigger] edges[m].0 == u {
                    let m = choose|m: int| 0 <= m < edges.len() && #[trigger] edges[m].0 == u;
                    if m < edges.len() - 1 {
                        assert(prev[m].0 == u);
                        assert(has_edge_into(prev, u));
                        assert(has_entry(tbl, u));
                        let i = choose|i: int| 0 <= i < tbl.len() && tbl[i].path == u;
                        assert(r[i].path == u);
                    } else {
                        assert(r[tbl.len() as int].path == u);
                    }
                }
                if exists|i: int| 0 <= i < r.len() && r[i].path == u {
                    let i = choose|i: int| 0 <= i < r.len() && r[i].path == u;
                    if i < tbl.len() {
                        assert(tbl[i].path == u);
                        assert(has_entry(tbl, u));
                        let m = choose|m: int| 0 <= m < prev.len() && #[trigger] prev[m].0 == u;
                        assert(edges[m].0 == u);
                    } else {
                        assert(edges[edges.len() - 1].0 == u);
                    }
                }
            }
        }
    }
}

proof fn lemma_sources_empty(edges: Seq<(Seq<char>, Seq<char>)>, t: Seq<char>)
    requires
        !(exists|m: int| 0 <= m < edges.len() && #[trigger] edges[m].0 == t),
    ensures
        sources_of(edges, t) == Seq::<Seq<char>>::empty(),
    decreases edges.len(),
{
    if edges.len() > 0 {
        let prev = edges.drop_last();
        assert forall|m: int| 0 <= m < prev.len() implies #[trigger] prev[m].0 != t by {
            assert(prev[m] == edges[m]);
        }
        lemma_sources_empty(prev, t);
        assert(edges[edges.len() - 1].0 != t);
    }
}

/// In the built graph, the dependents table is the dependencies table
/// turned round: `p` is listed as a dependent of `q` exactly when `q` is
/// listed as a dependency of `p`.
pub proof fn lemma_dependents_are_turned_dependencies(files: Seq<NodeFile>, p: Seq<char>, q: Seq<char>)
    ensures
        ({
            let deps = dependency_table(files, files.len() as int);
            let dependents = dependents_table(turned_edges(deps));
            succ(dependents, q, p) <==> succ(deps, p, q)
        }),
{
    let deps = dependency_table(files, files.len() as int);
    let edges = turned_edges(deps);
    let tbl = dependents_table(edges);
    lemma_dependency_table_unique(files, files.len() as int);
    lemma_dependents_table(edges);
    lemma_turned_contains(deps, q, p);
    lemma_sources_contains(edges, q, p);
    if succ(tbl, q, p) {
        let i = choose|i: int| #[trigger] first_key(tbl, q, i) && tbl[i].targets.contains(p);
        assert(edges.contains((q, p)));
        let j = choose|j: int| 0 <= j < deps.len() && deps[j].path == p && #[trigger] deps[j].targets.contains(q);
        lemma_unique_first_key(deps, j);
        assert(first_key(deps, p, j) && deps[j].targets.contains(q));
    }
    if succ(deps, p, q) {
        let j = choose|j: int| #[trigger] first_key(deps, p, j) && deps[j].targets.contains(q);
        assert(edges.contains((q, p)));
        let k = choose|k: int| 0 <= k < edges.len() && edges[k] == (q, p);
        assert(edges[k].0 == q);
        assert(has_edge_into(edges, q));
        assert(has_entry(tbl, q));
        let i = choose|i: int| 0 <= i < tbl.len() && tbl[i].path == q;
        lemma_unique_first_key(tbl, i);
        assert(tbl[i].targets == sources_of(edges, q));
        assert(first_key(tbl, q, i) && tbl[i].targets.contains(p));
    }
}

} // verus!
