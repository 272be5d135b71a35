//! The graph of Java source files by the imports they name: each file is a
//! node, known by its fully qualified class name, with the classes it
//! imports and the classes that import it.

use vstd::prelude::*;
use vstd::set_lib::lemma_len_subset;
use crate::build_graph::{
    EdgesView, first_key, lemma_closed_holds_reach, lemma_reach_one, lemma_reach_step,
    lemma_reach_trans, reaches, strings_contain, succ, is_walk,
};
use vstd::string::*;
use crate::errors::GraphError;
use crate::text::{clone_strings, lemma_add_contains, lemma_push_contains, owned, views};

verus! {

/// One source file of the graph.
#[derive(Debug)]
pub struct DependancyNode {
    pub path: String,
    pub file_name: String,
    pub package_name: String,
    pub dependancies: Vec<String>,
    pub id: String,
    pub dependants: Vec<String>,
}

/// The characters of a node.
pub struct NodeView {
    pub path: Seq<char>,
    pub file_name: Seq<char>,
    pub package_name: Seq<char>,
    pub dependancies: Seq<Seq<char>>,
    pub id: Seq<char>,
    pub dependants: Seq<Seq<char>>,
}

impl View for DependancyNode {
    type V = NodeView;

    open spec fn view(&self) -> NodeView {
        NodeView {
            path: self.path@,
            file_name: self.file_name@,
            package_name: self.package_name@,
            dependancies: views(self.dependancies@),
            id: self.id@,
            dependants: views(self.dependants@),
        }
    }
}

/// The views of a list of nodes.
pub open spec fn node_views(n: Seq<DependancyNode>) -> Seq<NodeView> {
    n.map_values(|x: DependancyNode| x@)
}

/// The graph: its nodes, one per class name.
#[derive(Debug)]
pub struct DependancyGraph {
    pub nodes: Vec<DependancyNode>,
}

/// Node `i` is the first with this class name.
pub open spec fn first_node(ns: Seq<NodeView>, id: Seq<char>, i: int) -> bool {
    &&& 0 <= i < ns.len()
    &&& ns[i].id == id
    &&& forall|j: int| 0 <= j < i ==> ns[j].id != id
}

/// Some node has this class name.
pub open spec fn has_node(ns: Seq<NodeView>, id: Seq<char>) -> bool {
    exists|i: int| 0 <= i < ns.len() && ns[i].id == id
}

/// The path of the node with this class name.
pub open spec fn path_of(ns: Seq<NodeView>, id: Seq<char>) -> Seq<char> {
    ns[choose|i: int| first_node(ns, id, i)].path
}

/// The table of "is imported by" edges: for each class, the classes that
/// import it.
pub open spec fn dependant_edges(ns: Seq<NodeView>) -> Seq<EdgesView> {
    ns.map_values(|n: NodeView| EdgesView { path: n.id, targets: n.dependants })
}

/// Every class listed as importing another is a node of the graph.
pub open spec fn dependants_resolve(ns: Seq<NodeView>) -> bool {
    forall|i: int, k: int|
        0 <= i < ns.len() && 0 <= k < ns[i].dependants.len() ==> has_node(
            ns,
            #[trigger] ns[i].dependants[k],
        )
}

/// `q` is the path of a class that imports `id`, directly or through other
/// classes.
pub open spec fn dependant_path(ns: Seq<NodeView>, id: Seq<char>, q: Seq<char>) -> bool {
    exists|c: Seq<char>| #[trigger] reaches(dependant_edges(ns), id, c) && path_of(ns, c) == q
}

/// The class names of the nodes.
pub open spec fn node_ids(ns: Seq<NodeView>) -> Set<Seq<char>> {
    ns.map_values(|n: NodeView| n.id).to_set()
}

/// `q` is the path of a class that imports some class of `s`.
pub open spec fn explained(ns: Seq<NodeView>, s: Set<Seq<char>>, q: Seq<char>) -> bool {
    exists|t: Seq<char>, c: Seq<char>|
        s.contains(t) && #[trigger] succ(dependant_edges(ns), t, c) && q == path_of(ns, c)
}

proof fn lemma_first_node_unique(ns: Seq<NodeView>, id: Seq<char>, i: int, j: int)
    requires
        first_node(ns, id, i),
        first_node(ns, id, j),
    ensures
        i == j,
{
    if i < j {
        assert(ns[i].id == id);
    } else if j < i {
        assert(ns[j].id == id);
    }
}

proof fn lemma_first_node_path(ns: Seq<NodeView>, id: Seq<char>, i: int)
    requires
        first_node(ns, id, i),
    ensures
        path_of(ns, id) == ns[i].path,
{
    let k = choose|k: int| first_node(ns, id, k);
    lemma_first_node_unique(ns, id, i, k);
}

proof fn lemma_node_ids(ns: Seq<NodeView>, id: Seq<char>)
    ensures
        node_ids(ns).finite(),
        has_node(ns, id) <==> node_ids(ns).contains(id),
{
    let m = ns.map_values(|n: NodeView| n.id);
    vstd::seq_lib::seq_to_set_is_finite(m);
    if has_node(ns, id) {
        let i = choose|i: int| 0 <= i < ns.len() && ns[i].id == id;
        assert(m[i] == id);
    }
    if node_ids(ns).contains(id) {
        let i = choose|i: int| 0 <= i < m.len() && m[i] == id;
        assert(ns[i].id == id);
    }
}

/// With node `i` the first for `id`, the classes that import `id` are those
/// that node `i` lists.
proof fn lemma_succ_of_first(ns: Seq<NodeView>, id: Seq<char>, i: int, c: Seq<char>)
    requires
        first_node(ns, id, i),
    ensures
        succ(dependant_edges(ns), id, c) <==> ns[i].dependants.contains(c),
{
    let e = dependant_edges(ns);
    assert(first_key(e, id, i));
    if succ(e, id, c) {
        let k = choose|k: int| #[trigger] first_key(e, id, k) && e[k].targets.contains(c);
        if k < i {
            assert(e[k].path == ns[k].id);
        } else if i < k {
            assert(e[i].path == ns[i].id);
        }
    }
}

/// The last step of a walk: something reachable from `a`, or `a` itself, is
/// followed directly by `b`.
proof fn lemma_reach_last_step(e: Seq<EdgesView>, a: Seq<char>, b: Seq<char>) -> (w: Seq<char>)
    requires
        reaches(e, a, b),
    ensures
        succ(e, w, b),
        w == a || reaches(e, a, w),
{
    let p = choose|p: Seq<Seq<char>>| p.len() >= 2 && p[0] == a && p.last() == b && #[trigger] is_walk(e, p);
    let n = p.len();
    assert(succ(e, p[n - 2], p[n - 1]));
    if n > 2 {
        let q = p.drop_last();
        assert forall|k: int| #![trigger q[k]] 0 <= k < q.len() - 1 implies succ(e, q[k], q[k + 1]) by {
            assert(q[k] == p[k] && q[k + 1] == p[k + 1]);
            assert(succ(e, p[k], p[k + 1]));
        }
        assert(is_walk(e, q));
        assert(q.last() == p[n - 2]);
    }
    p[n - 2]
}

impl DependancyGraph {
    /// The views of the nodes.
    pub open spec fn views(&self) -> Seq<NodeView> {
        node_views(self.nodes@)
    }

    /// An empty graph.
    pub fn new() -> (g: DependancyGraph)
        ensures
            g.views() == Seq::<NodeView>::empty(),
    {
        let g = DependancyGraph { nodes: Vec::new() };
        assert(g.views() =~= Seq::<NodeView>::empty());
        g
    }

    /// The index of the first node with this class name.
    fn find_node(&self, id: &String) -> (i: usize)
        requires
            has_node(self.views(), id@),
        ensures
            first_node(self.views(), id@, i as int),
    {
        let ghost ns = self.views();
        let mut i: usize = 0;
        while i < self.nodes.len()
            invariant
                ns == self.views(),
                i <= self.nodes@.len(),
                has_node(ns, id@),
                forall|j: int| 0 <= j < i ==> ns[j].id != id@,
            decreases self.nodes@.len() - i,
        {
            assert(ns[i as int].id == self.nodes@[i as int].id@);
            if self.nodes[i].id == *id {
                return i;
            }
            i = i + 1;
        }
        proof {
            let k = choose|k: int| 0 <= k < ns.len() && ns[k].id == id@;
            assert(ns[k].id == id@);
        }
        0
    }

    /// The paths of the classes that import `id`, found by walking the
    /// "imported by" lists depth first. `visited` holds classes whose lists
    /// were already entered; such a class is listed but not walked again.
    /// Returns the list and, as a ghost, the classes entered by this call.
    fn collect_dependants(&self, id: &String, visited: &mut Vec<String>) -> (r: (
        Vec<String>,
        Ghost<Set<Seq<char>>>,
    ))
        requires
            has_node(self.views(), id@),
            dependants_resolve(self.views()),
            forall|v: Seq<char>| views(old(visited)@).contains(v) ==> has_node(self.views(), v),
        ensures
            r.1@.contains(id@),
            forall|t: Seq<char>|
                r.1@.contains(t) ==> has_node(self.views(), t) && (t == id@ || reaches(
                    dependant_edges(self.views()),
                    id@,
                    t,
                )),
            forall|v: Seq<char>| views(old(visited)@).contains(v) ==> views(final(visited)@).contains(v),
            forall|v: Seq<char>|
                views(final(visited)@).contains(v) ==> views(old(visited)@).contains(v) || r.1@.contains(v),
            forall|t: Seq<char>, c: Seq<char>|
                r.1@.contains(t) && #[trigger] succ(dependant_edges(self.views()), t, c) ==> views(
                    r.0@,
                ).contains(path_of(self.views(), c)) && (r.1@.contains(c) || views(
                    final(visited)@,
                ).contains(c)),
            forall|q: Seq<char>| views(r.0@).contains(q) ==> explained(self.views(), r.1@, q),
        decreases
            node_ids(self.views()).difference(views(old(visited)@).to_set().insert(id@)).len(),
            (if views(old(visited)@).contains(id@) {
                0int
            } else {
                1int
            }),
    {
        let ghost ns = self.views();
        let ghost e = dependant_edges(ns);
        let ghost start = views(visited@);
        let i = self.find_node(id);
        let mut list: Vec<String> = Vec::new();
        let ghost mut s: Set<Seq<char>> = set![id@];
        let n = self.nodes[i].dependants.len();
        let mut k: usize = 0;
        proof {
            lemma_node_ids(ns, id@);
        }
        while k < n
            invariant
                ns == self.views(),
                e == dependant_edges(ns),
                dependants_resolve(ns),
                first_node(ns, id@, i as int),
                n == ns[i as int].dependants.len(),
                k <= n,
                start == views(old(visited)@),
                s.contains(id@),
                forall|t: Seq<char>| s.contains(t) ==> has_node(ns, t) && (t == id@ || reaches(e, id@, t)),
                forall|v: Seq<char>| start.contains(v) ==> views(visited@).contains(v),
                forall|v: Seq<char>| views(visited@).contains(v) ==> start.contains(v) || s.contains(v),
                forall|v: Seq<char>| views(visited@).contains(v) ==> has_node(ns, v),
                forall|t: Seq<char>, c: Seq<char>|
                    s.contains(t) && t != id@ && #[trigger] succ(e, t, c) ==> views(list@).contains(
                        path_of(ns, c),
                    ) && (s.contains(c) || views(visited@).contains(c)),
                forall|j: int|
                    0 <= j < k ==> views(list@).contains(path_of(ns, #[trigger] ns[i as int].dependants[j]))
                        && (s.contains(ns[i as int].dependants[j]) || views(visited@).contains(
                        ns[i as int].dependants[j],
                    )),
                forall|q: Seq<char>| views(list@).contains(q) ==> explained(ns, s, q),
            decreases n - k,
        {
            assert(ns[i as int] == self.nodes@[i as int]@);
            let dep = self.nodes[i].dependants[k].clone();
            let ghost c = ns[i as int].dependants[k as int];
            assert(dep@ == c);
            assert(has_node(ns, c));
            let j = self.find_node(&dep);
            assert(ns[j as int] == self.nodes@[j as int]@);
            proof {
                lemma_first_node_path(ns, c, j as int);
                lemma_succ_of_first(ns, id@, i as int, c);
                assert(ns[i as int].dependants[k as int] == c);
                assert(succ(e, id@, c));
            }
            let ghost before = list@;
            let ghost vis_before = views(visited@);
            let p = self.nodes[j].path.clone();
            list.push(p);
            proof {
                assert(views(list@) =~= views(before).push(path_of(ns, c)));
                assert forall|q: Seq<char>| views(list@).contains(q) implies explained(ns, s, q) by {
                    crate::text::lemma_push_contains(views(before), path_of(ns, c), q);
                    if q == path_of(ns, c) {
                        assert(s.contains(id@) && succ(e, id@, c) && q == path_of(ns, c));
                    }
                }
                assert forall|q: Seq<char>| views(before).contains(q) implies views(list@).contains(q) by {
                    crate::text::lemma_push_contains(views(before), path_of(ns, c), q);
                }
                crate::text::lemma_push_contains(views(before), path_of(ns, c), path_of(ns, c));
            }
            if !strings_contain(visited, &dep) {
                let ghost mid = views(visited@);
                visited.push(id.clone());
                proof {
                    assert(views(visited@) =~= mid.push(id@));
                    assert forall|v: Seq<char>| views(visited@).contains(v) <==> (mid.contains(v) || v == id@) by {
                        crate::text::lemma_push_contains(mid, id@, v);
                    }
                    crate::text::lemma_push_contains(mid, id@, id@);
                    lemma_measure_drops(ns, start, mid, views(visited@), id@, c);
                }
                let ghost pre_sub = list@;
                let ghost vis_call = views(visited@);
                let ghost s_old = s;
                let sub_id = self.nodes[j].id.clone();
                assert(sub_id@ == c);
                assert(views(pre_sub).contains(path_of(ns, c)));
                let (mut sub, Ghost(ss)) = self.collect_dependants(&sub_id, visited);
                let ghost sub_view = views(sub@);
                list.append(&mut sub);
                proof {
                    assert(views(list@) =~= views(pre_sub) + sub_view);
                    assert forall|q: Seq<char>| views(list@).contains(q) <==> (views(pre_sub).contains(q) || sub_view.contains(q)) by {
                        crate::text::lemma_add_contains(views(pre_sub), sub_view, q);
                    }
                    lemma_reach_one(e, id@, c);
                    assert forall|t: Seq<char>| ss.contains(t) implies reaches(e, id@, t) by {
                        if t != c {
                            lemma_reach_trans(e, id@, c, t);
                        }
                    }
                    assert forall|q: Seq<char>| views(list@).contains(q) implies explained(ns, s.union(ss), q) by {
                        if views(pre_sub).contains(q) {
                            assert(explained(ns, s, q));
                            let (t, d) = choose|t: Seq<char>, d: Seq<char>| s.contains(t) && #[trigger] succ(e, t, d) && q == path_of(ns, d);
                            assert(s.union(ss).contains(t) && succ(e, t, d));
                        } else {
                            assert(explained(ns, ss, q));
                            let (t, d) = choose|t: Seq<char>, d: Seq<char>| ss.contains(t) && #[trigger] succ(e, t, d) && q == path_of(ns, d);
                            assert(s.union(ss).contains(t) && succ(e, t, d));
                        }
                    }
                    assert(ss.contains(c));
                    crate::text::lemma_add_contains(views(pre_sub), sub_view, path_of(ns, c));
                    assert(views(list@).contains(path_of(ns, c)));
                    s = s.union(ss);
                    assert forall|t: Seq<char>, d: Seq<char>|
                        s.contains(t) && t != id@ && #[trigger] succ(e, t, d) implies views(list@).contains(
                            path_of(ns, d),
                        ) && (s.contains(d) || views(visited@).contains(d)) by {
                        crate::text::lemma_add_contains(views(pre_sub), sub_view, path_of(ns, d));
                        if s_old.contains(t) {
                            crate::text::lemma_push_contains(views(before), path_of(ns, c), path_of(ns, d));
                            assert(views(before).contains(path_of(ns, d)));
                            if vis_before.contains(d) {
                                assert(vis_call.contains(d));
                            }
                        } else {
                            assert(ss.contains(t));
                            assert(sub_view.contains(path_of(ns, d)));
                        }
                    }
                    assert forall|m: int|
                        0 <= m < k implies views(list@).contains(path_of(ns, #[trigger] ns[i as int].dependants[m]))
                            && (s.contains(ns[i as int].dependants[m]) || views(visited@).contains(
                            ns[i as int].dependants[m],
                        )) by {
                        let d = ns[i as int].dependants[m];
                        crate::text::lemma_add_contains(views(pre_sub), sub_view, path_of(ns, d));
                        crate::text::lemma_push_contains(views(before), path_of(ns, c), path_of(ns, d));
                        if vis_before.contains(d) {
                            assert(vis_call.contains(d));
                        }
                    }
                }
            } else {
                assert(views(visited@).contains(c));
            }
            assert(views(list@).contains(path_of(ns, c)) && (s.contains(c) || views(visited@).contains(c)));
            k = k + 1;
        }
        proof {
            assert forall|t: Seq<char>, d: Seq<char>|
                s.contains(t) && #[trigger] succ(e, t, d) implies views(list@).contains(path_of(ns, d))
                && (s.contains(d) || views(visited@).contains(d)) by {
                if t == id@ {
                    lemma_succ_of_first(ns, id@, i as int, d);
                    let m = choose|m: int| 0 <= m < ns[i as int].dependants.len() && ns[i as int].dependants[m] == d;
                    assert(ns[i as int].dependants[m] == d);
                }
            }
        }
        (list, Ghost(s))
    }
}

/// Walking into `dep` from `id` shrinks the classes not yet visited, or
/// keeps them and has `dep` visited where `id` was not.
proof fn lemma_measure_drops(
    ns: Seq<NodeView>,
    start: Seq<Seq<char>>,
    mid: Seq<Seq<char>>,
    now: Seq<Seq<char>>,
    id: Seq<char>,
    dep: Seq<char>,
)
    requires
        has_node(ns, id),
        has_node(ns, dep),
        forall|v: Seq<char>| start.contains(v) ==> mid.contains(v),
        forall|v: Seq<char>| now.contains(v) <==> (mid.contains(v) || v == id),
        !mid.contains(dep),
    ensures
        ({
            let a = node_ids(ns).difference(start.to_set().insert(id)).len();
            let b = node_ids(ns).difference(now.to_set().insert(dep)).len();
            b < a || (b == a && now.contains(dep) && !start.contains(id))
        }),
{
    lemma_node_ids(ns, id);
    lemma_node_ids(ns, dep);
    let a = node_ids(ns).difference(start.to_set().insert(id));
    let b = node_ids(ns).difference(now.to_set().insert(dep));
    assert(b.subset_of(a));
    if dep != id {
        assert(a.contains(dep));
        assert(b.subset_of(a.remove(dep)));
        lemma_len_subset(b, a.remove(dep));
    } else {
        lemma_len_subset(b, a);
        assert(!start.contains(id));
    }
}

/// Matches an `import` statement; group `import` is the imported name.
pub const IMPORT_PATTERN: &'static str = "\\s*import\\s*(?<import>.*);";

/// Matches a `package` statement at the start of the text; group `package`
/// is the package name.
pub const PACKAGE_PATTERN: &'static str = "^\\s*package\\s*(?<package>.*);";

/// What the `regex` crate finds in `text` for `pattern`: for each match, in
/// order, the text of the group named `group` (`None` where the group took no
/// part in the match); `None` when the pattern does not compile.
pub uninterp spec fn regex_group_matches(pattern: Seq<char>, group: Seq<char>, text: Seq<char>) -> Option<Seq<Option<Seq<char>>>>;

/// The views of optional strings.
pub open spec fn opt_views(v: Seq<Option<String>>) -> Seq<Option<Seq<char>>> {
    v.map_values(|o: Option<String>| match o {
        Some(s) => Some(s@),
        None => None,
    })
}

/// The text of group `group` in each match of `pattern` in `text`.
///
/// Trusted: compiles `pattern` with `regex::Regex::new` and walks
/// `Regex::captures_iter` over `text`, taking `Captures::name(group)` of each
/// match. The contract claims only that the result is `regex_group_matches`
/// of the three arguments (`None` when the pattern is refused).
#[verifier::external_body]
pub(crate) fn group_matches(pattern: &str, group: &str, text: &str) -> (r: Option<Vec<Option<String>>>)
    ensures
        match r {
            Some(v) => regex_group_matches(pattern@, group@, text@) == Some(opt_views(v@)),
            None => regex_group_matches(pattern@, group@, text@) is None,
        },
{
    match regex::Regex::new(pattern) {
        Ok(re) => Some(
            re.captures_iter(text).map(|c| c.name(group).map(|m| m.as_str().to_string())).collect(),
        ),
        Err(_) => None,
    }
}

/// The suffix of a Java source file's name.
pub open spec fn java_suffix() -> Seq<char> {
    seq!['.', 'j', 'a', 'v', 'a']
}

/// The name ends in `.java`.
pub open spec fn is_java_name(file_name: Seq<char>) -> bool {
    file_name.len() >= 5 && file_name.subrange(file_name.len() - 5, file_name.len() as int) == java_suffix()
}

/// Every group took part in its match.
pub open spec fn all_present(m: Seq<Option<Seq<char>>>) -> bool {
    forall|i: int| 0 <= i < m.len() ==> m[i] is Some
}

/// The texts of the groups.
pub open spec fn present_values(m: Seq<Option<Seq<char>>>) -> Seq<Seq<char>> {
    m.map_values(|o: Option<Seq<char>>| o->0)
}

/// The class name of a file: its package and its name without `.java`,
/// joined by a dot (the name alone when there is no package).
pub open spec fn class_id(package: Seq<char>, file_name: Seq<char>) -> Seq<char> {
    let stem = file_name.take(file_name.len() - 5);
    if package.len() == 0 {
        stem
    } else {
        package + seq!['.'] + stem
    }
}

/// The node for a source file: its imports, its package (the first package
/// statement; none when there is none) and its class name, with no
/// dependants yet. `None` when a pattern is refused or a group took no part.
pub open spec fn parsed_node(path: Seq<char>, file_name: Seq<char>, contents: Seq<char>) -> Option<NodeView> {
    let imports = regex_group_matches(IMPORT_PATTERN@, "import"@, contents);
    let packages = regex_group_matches(PACKAGE_PATTERN@, "package"@, contents);
    if imports is Some && packages is Some && all_present(imports->0) && (packages->0.len() == 0
        || packages->0[0] is Some) {
        let package = if packages->0.len() == 0 {
            Seq::<char>::empty()
        } else {
            packages->0[0]->0
        };
        Some(
            NodeView {
                path,
                file_name,
                package_name: package,
                dependancies: present_values(imports->0),
                id: class_id(package, file_name),
                dependants: Seq::<Seq<char>>::empty(),
            },
        )
    } else {
        None
    }
}

/// The graph after adding node `n`: it takes the place of the node with its
/// class name, or is appended when there is none.
pub open spec fn insert_node(ns: Seq<NodeView>, n: NodeView) -> Seq<NodeView> {
    if has_node(ns, n.id) {
        ns.update(choose|i: int| first_node(ns, n.id, i), n)
    } else {
        ns.push(n)
    }
}

/// No two nodes share a class name.
pub open spec fn ids_unique(ns: Seq<NodeView>) -> bool {
    forall|i: int, j: int| 0 <= i < ns.len() && 0 <= j < ns.len() && i != j ==> ns[i].id != ns[j].id
}

/// The first occurrence of each string, in order.
pub open spec fn dedup(s: Seq<Seq<char>>) -> Seq<Seq<char>>
    decreases s.len(),
{
    if s.len() == 0 {
        s
    } else {
        let r = dedup(s.drop_last());
        if r.contains(s.last()) {
            r
        } else {
            r.push(s.last())
        }
    }
}

/// The class names, among the first `upto` nodes, of the package `pkg`,
/// other than `me`, in order.
pub open spec fn same_package_ids(ns: Seq<NodeView>, pkg: Seq<char>, me: Seq<char>, upto: int) -> Seq<Seq<char>>
    decreases upto,
{
    if upto <= 0 {
        Seq::<Seq<char>>::empty()
    } else {
        let r = same_package_ids(ns, pkg, me, upto - 1);
        if ns[upto - 1].package_name == pkg && ns[upto - 1].id != me {
            r.push(ns[upto - 1].id)
        } else {
            r
        }
    }
}

/// Node `i` with the other classes of its package added to its imports, each
/// import once (a node without a package is left as it is).
pub open spec fn with_package_deps(ns: Seq<NodeView>, i: int) -> NodeView {
    if ns[i].package_name.len() == 0 {
        ns[i]
    } else {
        NodeView {
            dependancies: dedup(
                ns[i].dependancies + same_package_ids(ns, ns[i].package_name, ns[i].id, ns.len() as int),
            ),
            ..ns[i]
        }
    }
}

/// Every node with the classes of its package added to its imports.
pub open spec fn package_step(ns: Seq<NodeView>) -> Seq<NodeView> {
    Seq::new(ns.len(), |i: int| with_package_deps(ns, i))
}

/// The import edges of the first `upto` nodes, in order: (imported class,
/// importing class).
pub open spec fn import_edges(ns: Seq<NodeView>, upto: int) -> Seq<(Seq<char>, Seq<char>)>
    decreases upto,
{
    if upto <= 0 {
        Seq::<(Seq<char>, Seq<char>)>::empty()
    } else {
        import_edges(ns, upto - 1) + ns[upto - 1].dependancies.map_values(
            |d: Seq<char>| (d, ns[upto - 1].id),
        )
    }
}

/// The importing classes of the edges into `id`, in order.
pub open spec fn importers(edges: Seq<(Seq<char>, Seq<char>)>, id: Seq<char>) -> Seq<Seq<char>>
    decreases edges.len(),
{
    if edges.len() == 0 {
        Seq::<Seq<char>>::empty()
    } else {
        let r = importers(edges.drop_last(), id);
        if edges.last().0 == id {
            r.push(edges.last().1)
        } else {
            r
        }
    }
}

/// Node `i` with its importers appended to its dependants (only the first
/// node with a class name receives them).
pub open spec fn with_importers(ns: Seq<NodeView>, edges: Seq<(Seq<char>, Seq<char>)>, i: int) -> NodeView {
    if first_node(ns, ns[i].id, i) {
        NodeView { dependants: ns[i].dependants + importers(edges, ns[i].id), ..ns[i] }
    } else {
        ns[i]
    }
}

/// Every node with the classes that import it appended to its dependants.
pub open spec fn dependants_step(ns: Seq<NodeView>) -> Seq<NodeView> {
    Seq::new(ns.len(), |i: int| with_importers(ns, import_edges(ns, ns.len() as int), i))
}

/// A Java source file as read from disk: its path, its file name and its
/// text.
#[derive(Debug)]
pub struct SourceFile {
    pub path: String,
    pub file_name: String,
    pub contents: String,
}

/// The graph's nodes after parsing and adding the first `upto` files; `None`
/// when one of them cannot be parsed.
pub open spec fn build_nodes(files: Seq<SourceFile>, upto: int) -> Option<Seq<NodeView>>
    decreases upto,
{
    if upto <= 0 {
        Some(Seq::<NodeView>::empty())
    } else {
        match build_nodes(files, upto - 1) {
            Some(ns) => match parsed_node(
                files[upto - 1].path@,
                files[upto - 1].file_name@,
                files[upto - 1].contents@,
            ) {
                Some(n) => Some(insert_node(ns, n)),
                None => None,
            },
            None => None,
        }
    }
}

/// The strings of `v`, each once, in order of first occurrence.
fn dedup_strings(v: &Vec<String>) -> (r: Vec<String>)
    ensures
        views(r@) == dedup(views(v@)),
{
    let mut r: Vec<String> = Vec::new();
    let mut k: usize = 0;
    while k < v.len()
        invariant
            k <= v@.len(),
            views(r@) == dedup(views(v@).take(k as int)),
        decreases v@.len() - k,
    {
        let ghost before = r@;
        assert(views(v@).take(k + 1).drop_last() =~= views(v@).take(k as int));
        assert(views(v@).take(k + 1).last() == v@[k as int]@);
        if !strings_contain(&r, &v[k]) {
            let c = v[k].clone();
            r.push(c);
            assert(views(r@) =~= views(before).push(c@));
        }
        k = k + 1;
    }
    assert(views(v@).take(v@.len() as int) =~= views(v@));
    r
}

impl DependancyNode {
    /// A copy of the node.
    pub fn copy(&self) -> (r: DependancyNode)
        ensures
            r@ == self@,
    {
        DependancyNode {
            path: self.path.clone(),
            file_name: self.file_name.clone(),
            package_name: self.package_name.clone(),
            dependancies: clone_strings(&self.dependancies),
            id: self.id.clone(),
            dependants: clone_strings(&self.dependants),
        }
    }

    /// The node for one source file, from its text: the names it imports,
    /// its package and its class name (see `parsed_node`). Fails when the
    /// patterns cannot be applied.
    pub fn from_contents(path: String, file_name: String, contents: &str) -> (r: Result<DependancyNode, GraphError>)
        requires
            is_java_name(file_name@),
        ensures
            r is Ok <==> parsed_node(path@, file_name@, contents@) is Some,
            r matches Ok(n) ==> n@ == parsed_node(path@, file_name@, contents@)->0,
            r matches Err(e) ==> e is CreationError,
    {
        let ghost pv = path@;
        let ghost fv = file_name@;
        let imports = match group_matches(IMPORT_PATTERN, "import", contents) {
            Some(v) => v,
            None => {
                return Err(GraphError::CreationError(owned("the import pattern does not compile")));
            },
        };
        let packages = match group_matches(PACKAGE_PATTERN, "package", contents) {
            Some(v) => v,
            None => {
                return Err(GraphError::CreationError(owned("the package pattern does not compile")));
            },
        };
        let ghost im = opt_views(imports@);
        let mut deps: Vec<String> = Vec::new();
        let mut k: usize = 0;
        while k < imports.len()
            invariant
                im == opt_views(imports@),
                regex_group_matches(IMPORT_PATTERN@, "import"@, contents@) == Some(im),
                k <= imports@.len(),
                forall|j: int| 0 <= j < k ==> im[j] is Some,
                views(deps@) == present_values(im.take(k as int)),
            decreases imports@.len() - k,
        {
            match &imports[k] {
                Some(s) => {
                    let ghost before = deps@;
                    let c = s.clone();
                    assert(im[k as int] == Some(c@));
                    deps.push(c);
                    assert(present_values(im.take(k + 1)) =~= present_values(im.take(k as int)).push(c@));
                    assert(views(deps@) =~= views(before).push(c@));
                },
                None => {
                    assert(!(im[k as int] is Some));
                    assert(!all_present(im));
                    return Err(GraphError::CreationError(owned("an import names nothing")));
                },
            }
            k = k + 1;
        }
        assert(im.take(imports@.len() as int) =~= im);
        let ghost pk = opt_views(packages@);
        let package = if packages.len() == 0 {
            String::new()
        } else {
            match &packages[0] {
                Some(s) => s.clone(),
                None => {
                    assert(!(pk[0] is Some));
                    return Err(GraphError::CreationError(owned("a package statement names nothing")));
                },
            }
        };
        let n = file_name.as_str().unicode_len();
        let stem = owned(file_name.as_str().substring_char(0, n - 5));
        let id = if package.as_str().unicode_len() == 0 {
            stem
        } else {
            let mut s = package.clone();
            s.append(".");
            s.append(stem.as_str());
            proof {
                reveal_strlit(".");
            }
            s
        };
        assert(stem@ == fv.take(fv.len() - 5));
        proof {
            assert(all_present(im));
            assert(pk.len() == 0 ==> package@ == Seq::<char>::empty());
            assert(pk.len() > 0 ==> pk[0] is Some && package@ == pk[0]->0);
            assert(id@ == class_id(package@, fv));
        }
        let node = DependancyNode {
            path,
            file_name,
            package_name: package,
            dependancies: deps,
            id,
            dependants: Vec::new(),
        };
        assert(node@.dependants =~= Seq::<Seq<char>>::empty());
        Ok(node)
    }
}

impl DependancyGraph {
    /// Adds a node; it takes the place of the node with its class name, if
    /// there is one.
    pub fn add_node(&mut self, node: DependancyNode)
        ensures
            final(self).views() == insert_node(old(self).views(), node@),
    {
        let ghost ns = self.views();
        match self.find_first(&node.id) {
            Some(i) => {
                proof {
                    let k = choose|k: int| first_node(ns, node@.id, k);
                    lemma_first_node_unique(ns, node@.id, i as int, k);
                }
                let ghost nv = node@;
                self.nodes.set(i, node);
                assert(self.views() =~= ns.update(i as int, nv));
            },
            None => {
                let ghost nv = node@;
                self.nodes.push(node);
                assert(self.views() =~= ns.push(nv));
            },
        }
    }

    /// The index of the first node with this class name, if any.
    fn find_first(&self, id: &String) -> (r: Option<usize>)
        ensures
            r matches Some(i) ==> first_node(self.views(), id@, i as int),
            r is None ==> !has_node(self.views(), id@),
    {
        let ghost ns = self.views();
        let mut i: usize = 0;
        while i < self.nodes.len()
            invariant
                ns == self.views(),
                i <= self.nodes@.len(),
                forall|j: int| 0 <= j < i ==> ns[j].id != id@,
            decreases self.nodes@.len() - i,
        {
            assert(ns[i as int].id == self.nodes@[i as int].id@);
            if self.nodes[i].id == *id {
                return Some(i);
            }
            i = i + 1;
        }
        None
    }
}

impl DependancyGraph {
    /// The class names of the package `pkg` other than `me`, in node order.
    fn package_members(&self, pkg: &String, me: &String) -> (r: Vec<String>)
        ensures
            views(r@) == same_package_ids(self.views(), pkg@, me@, self.views().len() as int),
    {
        let ghost ns = self.views();
        let mut r: Vec<String> = Vec::new();
        let mut m: usize = 0;
        while m < self.nodes.len()
            invariant
                ns == self.views(),
                m <= self.nodes@.len(),
                views(r@) == same_package_ids(ns, pkg@, me@, m as int),
            decreases self.nodes@.len() - m,
        {
            assert(ns[m as int] == self.nodes@[m as int]@);
            let ghost before = r@;
            if self.nodes[m].package_name == *pkg && !(self.nodes[m].id == *me) {
                let c = self.nodes[m].id.clone();
                r.push(c);
                assert(views(r@) =~= views(before).push(c@));
            }
            m = m + 1;
        }
        r
    }

    /// Adds to the imports of every node that has a package the other
    /// classes of that package (a class sees its package without importing
    /// it); each import is then listed once.
    pub fn calculate_package_dependancies(&mut self)
        ensures
            final(self).views() == package_step(old(self).views()),
    {
        let ghost ns = self.views();
        let n = self.nodes.len();
        let mut out: Vec<DependancyNode> = Vec::new();
        let mut i: usize = 0;
        while i < n
            invariant
                ns == self.views(),
                n == ns.len(),
                i <= n,
                out@.len() == i,
                forall|j: int| 0 <= j < i ==> #[trigger] out@[j]@ == with_package_deps(ns, j),
            decreases n - i,
        {
            assert(ns[i as int] == self.nodes@[i as int]@);
            let mut node = self.nodes[i].copy();
            if self.nodes[i].package_name.as_str().unicode_len() != 0 {
                let members = self.package_members(&self.nodes[i].package_name, &self.nodes[i].id);
                let mut all = clone_strings(&self.nodes[i].dependancies);
                let ghost first = views(all@);
                let mut k: usize = 0;
                while k < members.len()
                    invariant
                        k <= members@.len(),
                        views(all@) == first + views(members@).take(k as int),
                    decreases members@.len() - k,
                {
                    let ghost before = all@;
                    let c = members[k].clone();
                    all.push(c);
                    assert(views(members@).take(k + 1) =~= views(members@).take(k as int).push(c@));
                    assert(views(all@) =~= views(before).push(c@));
                    assert(views(all@) =~= first + views(members@).take(k + 1));
                    k = k + 1;
                }
                assert(views(members@).take(members@.len() as int) =~= views(members@));
                node.dependancies = dedup_strings(&all);
            }
            assert(node@ == with_package_deps(ns, i as int));
            out.push(node);
            i = i + 1;
        }
        self.nodes = out;
        assert(self.views() =~= package_step(ns));
    }

    /// Builds the list of import edges: (imported class, importing class).
    fn collect_import_edges(&self) -> (r: Vec<(String, String)>)
        ensures
            r@.map_values(|e: (String, String)| (e.0@, e.1@)) == import_edges(
                self.views(),
                self.views().len() as int,
            ),
    {
        let ghost ns = self.views();
        let mut edges: Vec<(String, String)> = Vec::new();
        let mut i: usize = 0;
        while i < self.nodes.len()
            invariant
                ns == self.views(),
                i <= ns.len(),
                edges@.map_values(|e: (String, String)| (e.0@, e.1@)) == import_edges(ns, i as int),
            decreases ns.len() - i,
        {
            assert(ns[i as int] == self.nodes@[i as int]@);
            let ghost base = import_edges(ns, i as int);
            let ghost mapped = ns[i as int].dependancies.map_values(|d: Seq<char>| (d, ns[i as int].id));
            let mut k: usize = 0;
            while k < self.nodes[i].dependancies.len()
                invariant
                    ns == self.views(),
                    i < ns.len(),
                    ns[i as int] == self.nodes@[i as int]@,
                    mapped == ns[i as int].dependancies.map_values(|d: Seq<char>| (d, ns[i as int].id)),
                    k <= ns[i as int].dependancies.len(),
                    edges@.map_values(|e: (String, String)| (e.0@, e.1@)) == base + mapped.take(k as int),
                decreases ns[i as int].dependancies.len() - k,
            {
                let ghost before = edges@;
                let d = self.nodes[i].dependancies[k].clone();
                let key = self.nodes[i].id.clone();
                assert(d@ == ns[i as int].dependancies[k as int]);
                assert(key@ == ns[i as int].id);
                let ghost dv = d@;
                let ghost kv = key@;
                edges.push((d, key));
                assert(mapped.take(k + 1) =~= mapped.take(k as int).push((dv, kv)));
                assert(edges@.map_values(|e: (String, String)| (e.0@, e.1@)) =~= before.map_values(|e: (String, String)| (e.0@, e.1@)).push((dv, kv)));
                assert(edges@.map_values(|e: (String, String)| (e.0@, e.1@)) =~= base + mapped.take(k + 1));
                k = k + 1;
            }
            assert(mapped.take(mapped.len() as int) =~= mapped);
            assert(import_edges(ns, i + 1) == base + mapped);
            i = i + 1;
        }
        edges
    }

    /// Appends `who` to the dependants of node `at`.
    fn push_dependant(&mut self, at: usize, who: String)
        requires
            at < old(self).nodes@.len(),
        ensures
            final(self).views() == old(self).views().update(
                at as int,
                NodeView {
                    dependants: old(self).views()[at as int].dependants.push(who@),
                    ..old(self).views()[at as int]
                },
            ),
    {
        let ghost ns = self.views();
        let mut node = self.nodes.remove(at);
        assert(node@ == ns[at as int]);
        let ghost wv = who@;
        node.dependants.push(who);
        assert(views(node.dependants@) =~= ns[at as int].dependants.push(wv));
        self.nodes.insert(at, node);
        assert(self.views() =~= ns.update(
            at as int,
            NodeView { dependants: ns[at as int].dependants.push(wv), ..ns[at as int] },
        ));
    }

    /// Lists, for every node, the classes that import it: for each import
    /// of each node, the importing class is appended to the dependants of the
    /// imported class (when the graph has it).
    pub fn calculate_dependants(&mut self)
        ensures
            final(self).views() == dependants_step(old(self).views()),
    {
        let ghost ns = self.views();
        let edges = self.collect_import_edges();
        let ghost ev = edges@.map_values(|e: (String, String)| (e.0@, e.1@));
        let mut k: usize = 0;
        while k < edges.len()
            invariant
                ev == edges@.map_values(|e: (String, String)| (e.0@, e.1@)),
                ev == import_edges(ns, ns.len() as int),
                k <= ev.len(),
                self.views().len() == ns.len(),
                forall|i: int| 0 <= i < ns.len() ==> #[trigger] self.views()[i] == with_importers(ns, ev.take(k as int), i),
            decreases ev.len() - k,
        {
            let ghost cur = self.views();
            assert(ev.take(k + 1).drop_last() =~= ev.take(k as int));
            assert(ev.take(k + 1).last() == ev[k as int]);
            assert forall|i: int| 0 <= i < ns.len() implies #[trigger] cur[i].id == ns[i].id by {
                assert(cur[i] == with_importers(ns, ev.take(k as int), i));
            }
            let target = edges[k].0.clone();
            let who = edges[k].1.clone();
            assert(target@ == ev[k as int].0 && who@ == ev[k as int].1);
            match self.find_first(&target) {
                Some(at) => {
                    proof {
                        assert(first_node(ns, target@, at as int)) by {
                            assert forall|j: int| 0 <= j < at implies ns[j].id != target@ by {
                                assert(cur[j].id == ns[j].id);
                            }
                            assert(cur[at as int].id == ns[at as int].id);
                        }
                    }
                    self.push_dependant(at, who);
                    proof {
                        assert forall|i: int| 0 <= i < ns.len() implies #[trigger] self.views()[i] == with_importers(ns, ev.take(k + 1), i) by {
                            if i == at {
                                assert(first_node(ns, ns[i].id, i));
                                assert(ns[i].dependants + importers(ev.take(k + 1), ns[i].id) =~= (ns[i].dependants + importers(ev.take(k as int), ns[i].id)).push(who@));
                            } else {
                                assert(self.views()[i] == cur[i]);
                                if first_node(ns, ns[i].id, i) {
                                    assert(ns[i].id != target@) by {
                                        if ns[i].id == target@ {
                                            lemma_first_node_unique(ns, target@, i, at as int);
                                        }
                                    }
                                }
                            }
                        }
                    }
                },
                None => {
                    proof {
                        assert forall|i: int| 0 <= i < ns.len() implies #[trigger] self.views()[i] == with_importers(ns, ev.take(k + 1), i) by {
                            assert(cur[i].id == ns[i].id);
                            assert(ns[i].id != target@);
                        }
                    }
                },
            }
            k = k + 1;
        }
        assert(ev.take(ev.len() as int) =~= ev);
        assert(self.views() =~= dependants_step(ns));
    }
}

/// Entry `i` is the first of `canon` equal to `target`.
pub open spec fn first_path(canon: Seq<Seq<char>>, target: Seq<char>, i: int) -> bool {
    &&& 0 <= i < canon.len()
    &&& canon[i] == target
    &&& forall|j: int| 0 <= j < i ==> canon[j] != target
}

/// `q` must be compiled again because of the stale file whose resolved path
/// is `target`: it is that file's own path `file`, or the path of a class
/// that imports the file's class, directly or through other classes.
pub open spec fn recompiles_for(
    ns: Seq<NodeView>,
    canon: Seq<Seq<char>>,
    file: Seq<char>,
    target: Seq<char>,
    q: Seq<char>,
) -> bool {
    q == file || path_list_member(ns, canon, target, q)
}

/// `q` is listed for the file whose resolved path is `target`: it is the
/// path of a class that imports, directly or through other classes, the
/// class of the first node with that resolved path.
pub open spec fn path_list_member(ns: Seq<NodeView>, canon: Seq<Seq<char>>, target: Seq<char>, q: Seq<char>) -> bool {
    exists|i: int| #[trigger] first_path(canon, target, i) && dependant_path(ns, ns[i].id, q)
}

impl DependancyGraph {
    /// Builds the graph of a source tree from its Java files: one node per
    /// file (a later file with the same class name takes the place of an
    /// earlier one), then each class of a package is made to import the
    /// other classes of its package, then every node learns which classes
    /// import it. Fails when a file cannot be parsed.
    pub fn create(files: &Vec<SourceFile>) -> (r: Result<DependancyGraph, GraphError>)
        requires
            forall|i: int| 0 <= i < files@.len() ==> is_java_name(#[trigger] files@[i].file_name@),
        ensures
            r is Ok <==> build_nodes(files@, files@.len() as int) is Some,
            r matches Ok(g) ==> g.views() == dependants_step(
                package_step(build_nodes(files@, files@.len() as int)->0),
            ),
            r matches Ok(g) ==> ids_unique(g.views()) && dependants_resolve(g.views()),
            r matches Err(e) ==> e is CreationError,
    {
        let mut graph = DependancyGraph::new();
        let mut i: usize = 0;
        while i < files.len()
            invariant
                i <= files@.len(),
                forall|j: int| 0 <= j < files@.len() ==> is_java_name(#[trigger] files@[j].file_name@),
                build_nodes(files@, i as int) == Some(graph.views()),
            decreases files@.len() - i,
        {
            let f = &files[i];
            assert(is_java_name(files@[i as int].file_name@));
            let node = match DependancyNode::from_contents(f.path.clone(), f.file_name.clone(), f.contents.as_str()) {
                Ok(n) => n,
                Err(e) => {
                    proof {
                        lemma_build_nodes_none(files@, i + 1, files@.len() as int);
                    }
                    return Err(e);
                },
            };
            graph.add_node(node);
            i = i + 1;
        }
        graph.calculate_package_dependancies();
        graph.calculate_dependants();
        proof {
            lemma_created_graph_well_formed(files@);
        }
        Ok(graph)
    }

    /// The paths of the classes that import `id`, directly or through other
    /// classes. A path may be listed more than once.
    pub fn dependancy_list(&self, id: &str) -> (r: Vec<String>)
        requires
            has_node(self.views(), id@),
            dependants_resolve(self.views()),
        ensures
            forall|q: Seq<char>| views(r@).contains(q) <==> dependant_path(self.views(), id@, q),
    {
        let key = owned(id);
        let mut visited: Vec<String> = Vec::new();
        let ghost ns = self.views();
        let ghost e = dependant_edges(ns);
        assert(views(visited@) =~= Seq::<Seq<char>>::empty());
        let (list, Ghost(s)) = self.collect_dependants(&key, &mut visited);
        proof {
            assert forall|x: Seq<char>, q: Seq<char>| s.contains(x) && #[trigger] succ(e, x, q) implies s.contains(q) by {
                assert(s.contains(q) || views(visited@).contains(q));
            }
            assert forall|q: Seq<char>| views(list@).contains(q) <==> dependant_path(ns, id@, q) by {
                if views(list@).contains(q) {
                    assert(explained(ns, s, q));
                    let (t, c) = choose|t: Seq<char>, c: Seq<char>| s.contains(t) && #[trigger] succ(e, t, c) && q == path_of(ns, c);
                    if t == id@ {
                        lemma_reach_one(e, id@, c);
                    } else {
                        lemma_reach_step(e, id@, t, c);
                    }
                    assert(reaches(e, id@, c) && path_of(ns, c) == q);
                }
                if dependant_path(ns, id@, q) {
                    let c = choose|c: Seq<char>| #[trigger] reaches(e, id@, c) && path_of(ns, c) == q;
                    let w = lemma_reach_last_step(e, id@, c);
                    if w != id@ {
                        lemma_closed_holds_reach(e, id@, s, w);
                    }
                    assert(s.contains(w));
                }
            }
        }
        list
    }

    /// The class name of the node whose file resolves to `target`, given the
    /// resolved path of every node's file.
    fn find_id(&self, path: &String, target: &String, canon: &Vec<String>) -> (r: Result<String, GraphError>)
        requires
            canon@.len() == self.nodes@.len(),
        ensures
            r is Ok <==> views(canon@).contains(target@),
            r matches Ok(id) ==> exists|i: int| #[trigger] first_path(views(canon@), target@, i) && id@ == self.views()[i].id,
            r matches Err(e) ==> e matches GraphError::NotFound(p) && p@ == path@,
    {
        let mut i: usize = 0;
        while i < canon.len()
            invariant
                i <= canon@.len(),
                canon@.len() == self.nodes@.len(),
                forall|j: int| 0 <= j < i ==> views(canon@)[j] != target@,
            decreases canon@.len() - i,
        {
            if canon[i] == *target {
                assert(first_path(views(canon@), target@, i as int));
                assert(views(canon@)[i as int] == target@);
                assert(self.views()[i as int] == self.nodes@[i as int]@);
                return Ok(self.nodes[i].id.clone());
            }
            i = i + 1;
        }
        proof {
            if views(canon@).contains(target@) {
                let k = choose|k: int| 0 <= k < views(canon@).len() && views(canon@)[k] == target@;
                assert(views(canon@)[k] != target@);
            }
        }
        Err(GraphError::NotFound(path.clone()))
    }

    /// The paths of the classes that import, directly or through other
    /// classes, the class whose file resolves to `target` (the resolved form
    /// of `path`); `canon` holds the resolved path of every node's file.
    /// Fails with `NotFound(path)` when no node's file resolves to `target`.
    pub fn dependancy_list_from_path(&self, path: &String, target: &String, canon: &Vec<String>) -> (r: Result<
        Vec<String>,
        GraphError,
    >)
        requires
            canon@.len() == self.nodes@.len(),
            dependants_resolve(self.views()),
        ensures
            r is Ok <==> views(canon@).contains(target@),
            r matches Ok(list) ==> forall|q: Seq<char>|
                #[trigger] views(list@).contains(q) <==> path_list_member(self.views(), views(canon@), target@, q),
            r matches Err(e) ==> e matches GraphError::NotFound(p) && p@ == path@,
    {
        let id = match self.find_id(path, target, canon) {
            Ok(id) => id,
            Err(e) => {
                return Err(e);
            },
        };
        let ghost ns = self.views();
        let ghost i = choose|i: int| #[trigger] first_path(views(canon@), target@, i) && id@ == ns[i].id;
        assert(ns[i].id == id@);
        assert(has_node(ns, id@));
        let list = self.dependancy_list(id.as_str());
        proof {
            assert forall|q: Seq<char>| #[trigger] views(list@).contains(q) <==> path_list_member(ns, views(canon@), target@, q) by {
                if exists|k: int| #[trigger] first_path(views(canon@), target@, k) && dependant_path(ns, ns[k].id, q) {
                    let k = choose|k: int| #[trigger] first_path(views(canon@), target@, k) && dependant_path(ns, ns[k].id, q);
                    lemma_first_path_unique(views(canon@), target@, i, k);
                }
            }
        }
        Ok(list)
    }
}

proof fn lemma_first_path_unique(canon: Seq<Seq<char>>, target: Seq<char>, i: int, j: int)
    requires
        first_path(canon, target, i),
        first_path(canon, target, j),
    ensures
        i == j,
{
    if i < j {
        assert(canon[i] == target);
    } else if j < i {
        assert(canon[j] == target);
    }
}

proof fn lemma_build_nodes_none(files: Seq<SourceFile>, a: int, b: int)
    requires
        0 < a <= b,
        build_nodes(files, a) is None,
    ensures
        build_nodes(files, b) is None,
    decreases b - a,
{
    if a < b {
        lemma_build_nodes_none(files, a, b - 1);
    }
}

/// The files to compile again after the given files changed: each changed
/// file and every class that imports one of them, directly or through other
/// classes, each path once. `targets[k]` is the resolved path of
/// `stale_files[k]`, and `canon` the resolved path of every node's file.
/// Fails with `NotFound` for the first changed file that no node's file
/// resolves to.
pub fn files_to_recompile(
    graph: &DependancyGraph,
    stale_files: &Vec<String>,
    targets: &Vec<String>,
    canon: &Vec<String>,
) -> (r: Result<Vec<String>, GraphError>)
    requires
        targets@.len() == stale_files@.len(),
        canon@.len() == graph.nodes@.len(),
        dependants_resolve(graph.views()),
    ensures
        r is Ok <==> forall|k: int| 0 <= k < targets@.len() ==> views(canon@).contains(#[trigger] targets@[k]@),
        r matches Err(e) ==> exists|k: int|
            0 <= k < targets@.len() && !views(canon@).contains(#[trigger] targets@[k]@) && (forall|j: int|
                0 <= j < k ==> views(canon@).contains(#[trigger] targets@[j]@)) && (e matches GraphError::NotFound(p)
                && p@ == stale_files@[k]@),
        r matches Ok(list) ==> views(list@).no_duplicates(),
        r matches Ok(list) ==> forall|q: Seq<char>|
            views(list@).contains(q) <==> exists|k: int|
                0 <= k < targets@.len() && #[trigger] recompiles_for(
                    graph.views(),
                    views(canon@),
                    stale_files@[k]@,
                    targets@[k]@,
                    q,
                ),
{
    let ghost ns = graph.views();
    let ghost cv = views(canon@);
    let mut acc: Vec<String> = Vec::new();
    let mut k: usize = 0;
    while k < stale_files.len()
        invariant
            ns == graph.views(),
            cv == views(canon@),
            targets@.len() == stale_files@.len(),
            canon@.len() == graph.nodes@.len(),
            dependants_resolve(ns),
            k <= stale_files@.len(),
            forall|j: int| 0 <= j < k ==> cv.contains(#[trigger] targets@[j]@),
            views(acc@).no_duplicates(),
            forall|q: Seq<char>|
                views(acc@).contains(q) <==> exists|j: int|
                    0 <= j < k && #[trigger] recompiles_for(ns, cv, stale_files@[j]@, targets@[j]@, q),
        decreases stale_files@.len() - k,
    {
        let deps = match graph.dependancy_list_from_path(&stale_files[k], &targets[k], canon) {
            Ok(d) => d,
            Err(e) => {
                proof {
                    assert(!cv.contains(targets@[k as int]@));
                }
                return Err(e);
            },
        };
        let ghost before = acc@;
        let mut one: Vec<String> = Vec::new();
        one.push(stale_files[k].clone());
        proof {
            assert(views(one@) =~= Seq::<Seq<char>>::empty().push(stale_files@[k as int]@));
            assert forall|q: Seq<char>| views(one@).contains(q) <==> q == stale_files@[k as int]@ by {
                lemma_push_contains(Seq::<Seq<char>>::empty(), stale_files@[k as int]@, q);
            }
        }
        acc = crate::build_graph::add_missing(acc, &deps);
        let ghost mid = acc@;
        acc = crate::build_graph::add_missing(acc, &one);
        proof {
            assert forall|q: Seq<char>|
                views(acc@).contains(q) <==> exists|j: int|
                    0 <= j < k + 1 && #[trigger] recompiles_for(ns, cv, stale_files@[j]@, targets@[j]@, q) by {
                if views(acc@).contains(q) {
                    if views(before).contains(q) {
                        let j = choose|j: int| 0 <= j < k && #[trigger] recompiles_for(ns, cv, stale_files@[j]@, targets@[j]@, q);
                        assert(recompiles_for(ns, cv, stale_files@[j]@, targets@[j]@, q));
                    } else if views(deps@).contains(q) {
                        assert(recompiles_for(ns, cv, stale_files@[k as int]@, targets@[k as int]@, q));
                    } else {
                        assert(views(one@).contains(q));
                        assert(recompiles_for(ns, cv, stale_files@[k as int]@, targets@[k as int]@, q));
                    }
                }
                if exists|j: int| 0 <= j < k + 1 && #[trigger] recompiles_for(ns, cv, stale_files@[j]@, targets@[j]@, q) {
                    let j = choose|j: int| 0 <= j < k + 1 && #[trigger] recompiles_for(ns, cv, stale_files@[j]@, targets@[j]@, q);
                    if j < k {
                        assert(views(before).contains(q));
                        assert(views(mid).contains(q));
                    } else if q == stale_files@[k as int]@ {
                        assert(views(one@).contains(q));
                    } else {
                        assert(views(deps@).contains(q));
                        assert(views(mid).contains(q));
                    }
                }
            }
        }
        k = k + 1;
    }
    Ok(acc)
}

/// The list given for a file is the list of one node: the files whose
/// classes import, directly or through other classes, the class of the
/// first node whose resolved path is the file's, as `dependancy_list` gives
/// them for that class.
pub proof fn lemma_path_list_is_node_list(ns: Seq<NodeView>, canon: Seq<Seq<char>>, target: Seq<char>, i: int)
    requires
        first_path(canon, target, i),
    ensures
        forall|q: Seq<char>| #[trigger] path_list_member(ns, canon, target, q) <==> dependant_path(ns, ns[i].id, q),
{
    assert forall|q: Seq<char>| #[trigger] path_list_member(ns, canon, target, q) <==> dependant_path(ns, ns[i].id, q) by {
        if path_list_member(ns, canon, target, q) {
            let k = choose|k: int| #[trigger] first_path(canon, target, k) && dependant_path(ns, ns[k].id, q);
            lemma_first_path_unique(canon, target, i, k);
        }
    }
}

/// A file whose resolved path is among the nodes' has a first such node, so
/// its list is found (and `NotFound` comes only for a path of no node).
pub proof fn lemma_found_path_has_node(canon: Seq<Seq<char>>, target: Seq<char>)
    requires
        canon.contains(target),
    ensures
        exists|i: int| first_path(canon, target, i),
{
    let j = choose|j: int| 0 <= j < canon.len() && canon[j] == target;
    lemma_first_path_exists(canon, target, j);
}

proof fn lemma_first_path_exists(canon: Seq<Seq<char>>, target: Seq<char>, j: int)
    requires
        0 <= j < canon.len(),
        canon[j] == target,
    ensures
        exists|i: int| first_path(canon, target, i),
    decreases j,
{
    if exists|k: int| 0 <= k < j && canon[k] == target {
        let k = choose|k: int| 0 <= k < j && canon[k] == target;
        lemma_first_path_exists(canon, target, k);
    } else {
        assert(first_path(canon, target, j));
    }
}

/// `dependancy_list_from_path` in one statement: a path is found exactly
/// when some node's resolved path is it, and then what it lists is what
/// `dependancy_list` lists for the class of the first such node.
pub proof fn lemma_from_path_is_list_of_its_node(ns: Seq<NodeView>, canon: Seq<Seq<char>>, target: Seq<char>)
    ensures
        canon.contains(target) <==> exists|i: int| first_path(canon, target, i),
        forall|i: int, q: Seq<char>|
            first_path(canon, target, i) ==> (#[trigger] path_list_member(ns, canon, target, q) <==> dependant_path(
                ns,
                #[trigger] ns[i].id,
                q,
            )),
{
    if canon.contains(target) {
        lemma_found_path_has_node(canon, target);
    }
    if exists|i: int| first_path(canon, target, i) {
        let i = choose|i: int| first_path(canon, target, i);
        assert(canon[i] == target);
    }
    assert forall|i: int, q: Seq<char>|
        first_path(canon, target, i) implies (#[trigger] path_list_member(ns, canon, target, q) <==> dependant_path(
            ns,
            #[trigger] ns[i].id,
            q,
        )) by {
        lemma_path_list_is_node_list(ns, canon, target, i);
    }
}

/// `files_to_recompile` in one statement over `dependancy_list_from_path`:
/// a stale file makes compile again itself and exactly what
/// `dependancy_list_from_path` lists for it.
pub proof fn lemma_recompile_is_file_and_path_list(
    ns: Seq<NodeView>,
    canon: Seq<Seq<char>>,
    file: Seq<char>,
    target: Seq<char>,
    q: Seq<char>,
)
    ensures
        recompiles_for(ns, canon, file, target, q) <==> (q == file || path_list_member(ns, canon, target, q)),
{
}

/// A stale file makes compile again itself and the files listed for it:
/// with the first node whose resolved path is the file's, exactly the file
/// and what `dependancy_list` gives for that node's class.
pub proof fn lemma_recompile_is_file_and_its_list(
    ns: Seq<NodeView>,
    canon: Seq<Seq<char>>,
    file: Seq<char>,
    target: Seq<char>,
    i: int,
)
    requires
        first_path(canon, target, i),
    ensures
        forall|q: Seq<char>|
            #[trigger] recompiles_for(ns, canon, file, target, q) <==> (q == file || dependant_path(ns, ns[i].id, q)),
{
    lemma_path_list_is_node_list(ns, canon, target, i);
    assert forall|q: Seq<char>|
        #[trigger] recompiles_for(ns, canon, file, target, q) <==> (q == file || dependant_path(ns, ns[i].id, q)) by {
        assert(path_list_member(ns, canon, target, q) <==> dependant_path(ns, ns[i].id, q));
    }
}

/// Looking a class up right after adding a node for it gives that node.
pub proof fn lemma_add_then_lookup(ns: Seq<NodeView>, n: NodeView)
    ensures
        first_node(insert_node(ns, n), n.id, choose|i: int| first_node(insert_node(ns, n), n.id, i)),
        insert_node(ns, n)[choose|i: int| first_node(insert_node(ns, n), n.id, i)] == n,
{
    let r = insert_node(ns, n);
    if has_node(ns, n.id) {
        let i = choose|i: int| first_node(ns, n.id, i);
        let w = choose|w: int| 0 <= w < ns.len() && ns[w].id == n.id;
        lemma_first_exists(ns, n.id, w);
        assert(first_node(r, n.id, i));
        let k = choose|k: int| first_node(r, n.id, k);
        lemma_first_node_unique(r, n.id, i, k);
    } else {
        let i = ns.len() as int;
        assert(first_node(r, n.id, i));
        let k = choose|k: int| first_node(r, n.id, k);
        lemma_first_node_unique(r, n.id, i, k);
    }
}

/// A class that some node has has a first node.
proof fn lemma_first_exists(ns: Seq<NodeView>, id: Seq<char>, w: int)
    requires
        0 <= w < ns.len(),
        ns[w].id == id,
    ensures
        exists|i: int| first_node(ns, id, i),
    decreases w,
{
    if forall|j: int| 0 <= j < w ==> ns[j].id != id {
        assert(first_node(ns, id, w));
    } else {
        let j = choose|j: int| 0 <= j < w && ns[j].id == id;
        lemma_first_exists(ns, id, j);
    }
}

/// Adding a node keeps class names unique.
pub proof fn lemma_add_keeps_ids_unique(ns: Seq<NodeView>, n: NodeView)
    requires
        ids_unique(ns),
    ensures
        ids_unique(insert_node(ns, n)),
{
    let r = insert_node(ns, n);
    if has_node(ns, n.id) {
        let w = choose|w: int| 0 <= w < ns.len() && ns[w].id == n.id;
        lemma_first_exists(ns, n.id, w);
        let i = choose|i: int| first_node(ns, n.id, i);
        assert forall|a: int, b: int| 0 <= a < r.len() && 0 <= b < r.len() && a != b implies r[a].id != r[b].id by {
            if a == i {
                assert(ns[i].id == n.id);
                assert(ns[b].id != ns[i].id);
            } else if b == i {
                assert(ns[a].id != ns[i].id);
            }
        }
    } else {
        assert forall|a: int, b: int| 0 <= a < r.len() && 0 <= b < r.len() && a != b implies r[a].id != r[b].id by {
            if a == ns.len() {
                assert(ns[b].id != n.id);
            } else if b == ns.len() {
                assert(ns[a].id != n.id);
            }
        }
    }
}

/// The nodes built from source files have unique class names and no
/// dependants yet.
proof fn lemma_built_nodes(files: Seq<SourceFile>, upto: int)
    requires
        0 <= upto <= files.len(),
        build_nodes(files, upto) is Some,
    ensures
        ids_unique(build_nodes(files, upto)->0),
        forall|i: int|
            0 <= i < build_nodes(files, upto)->0.len() ==> (#[trigger] build_nodes(files, upto)->0[i]).dependants.len()
                == 0,
    decreases upto,
{
    if upto > 0 {
        lemma_built_nodes(files, upto - 1);
        let ns = build_nodes(files, upto - 1)->0;
        let n = parsed_node(files[upto - 1].path@, files[upto - 1].file_name@, files[upto - 1].contents@)->0;
        lemma_add_keeps_ids_unique(ns, n);
        let r = insert_node(ns, n);
        assert forall|i: int| 0 <= i < r.len() implies (#[trigger] r[i]).dependants.len() == 0 by {
            if has_node(ns, n.id) {
                let w = choose|w: int| 0 <= w < ns.len() && ns[w].id == n.id;
                lemma_first_exists(ns, n.id, w);
                let k = choose|k: int| first_node(ns, n.id, k);
                if i != k {
                    assert(r[i] == ns[i]);
                } else {
                    assert(r[i] == n);
                }
            } else if i < ns.len() {
                assert(r[i] == ns[i]);
            } else {
                assert(r[i] == n);
            }
        }
    }
}

proof fn lemma_import_edges_from_nodes(ns: Seq<NodeView>, upto: int, k: int)
    requires
        0 <= upto <= ns.len(),
        0 <= k < import_edges(ns, upto).len(),
    ensures
        exists|m: int| 0 <= m < upto && #[trigger] ns[m].id == import_edges(ns, upto)[k].1,
    decreases upto,
{
    let prev = import_edges(ns, upto - 1);
    if k < prev.len() {
        lemma_import_edges_from_nodes(ns, upto - 1, k);
        let m = choose|m: int| 0 <= m < upto - 1 && #[trigger] ns[m].id == prev[k].1;
        assert(import_edges(ns, upto)[k] == prev[k]);
        assert(ns[m].id == import_edges(ns, upto)[k].1);
    } else {
        assert(import_edges(ns, upto)[k].1 == ns[upto - 1].id);
    }
}

proof fn lemma_importers_from_edges(edges: Seq<(Seq<char>, Seq<char>)>, id: Seq<char>, k: int)
    requires
        0 <= k < importers(edges, id).len(),
    ensures
        exists|j: int| 0 <= j < edges.len() && #[trigger] edges[j].1 == importers(edges, id)[k],
    decreases edges.len(),
{
    let r = importers(edges.drop_last(), id);
    if k < r.len() {
        lemma_importers_from_edges(edges.drop_last(), id, k);
        let j = choose|j: int| 0 <= j < edges.drop_last().len() && #[trigger] edges.drop_last()[j].1 == r[k];
        assert(edges[j].1 == edges.drop_last()[j].1);
    } else {
        assert(edges[edges.len() - 1].1 == importers(edges, id)[k]);
    }
}

proof fn lemma_edge_in_import_edges(ns: Seq<NodeView>, upto: int, m: int, k: int)
    requires
        0 <= m < upto <= ns.len(),
        0 <= k < ns[m].dependancies.len(),
    ensures
        import_edges(ns, upto).contains((ns[m].dependancies[k], ns[m].id)),
    decreases upto,
{
    let prev = import_edges(ns, upto - 1);
    let mapped = ns[upto - 1].dependancies.map_values(|d: Seq<char>| (d, ns[upto - 1].id));
    if m < upto - 1 {
        lemma_edge_in_import_edges(ns, upto - 1, m, k);
        let j = choose|j: int| 0 <= j < prev.len() && prev[j] == (ns[m].dependancies[k], ns[m].id);
        assert(import_edges(ns, upto)[j] == prev[j]);
    } else {
        assert(import_edges(ns, upto)[prev.len() + k] == mapped[k]);
    }
}

proof fn lemma_importers_contains(edges: Seq<(Seq<char>, Seq<char>)>, id: Seq<char>, e: (Seq<char>, Seq<char>))
    requires
        edges.contains(e),
        e.0 == id,
    ensures
        importers(edges, id).contains(e.1),
    decreases edges.len(),
{
    let r = importers(edges.drop_last(), id);
    if edges.last() == e {
        assert(importers(edges, id)[r.len() as int] == e.1);
    } else {
        let j = choose|j: int| 0 <= j < edges.len() && edges[j] == e;
        assert(j < edges.len() - 1);
        assert(edges.drop_last()[j] == e);
        lemma_importers_contains(edges.drop_last(), id, e);
        let t = choose|t: int| 0 <= t < r.len() && r[t] == e.1;
        if edges.last().0 == id {
            assert(r.push(edges.last().1)[t] == e.1);
        }
    }
}

/// Once dependants are computed, every import of a class of the graph is
/// answered: the imported class lists the importing class among its
/// dependants.
pub proof fn lemma_imports_answered(ns: Seq<NodeView>, m: int, k: int, i: int)
    requires
        0 <= m < ns.len(),
        0 <= k < ns[m].dependancies.len(),
        first_node(ns, ns[m].dependancies[k], i),
    ensures
        dependants_step(ns)[i].dependants.contains(ns[m].id),
{
    let d = ns[m].dependancies[k];
    let edges = import_edges(ns, ns.len() as int);
    lemma_edge_in_import_edges(ns, ns.len() as int, m, k);
    lemma_importers_contains(edges, d, (d, ns[m].id));
    assert(dependants_step(ns)[i] == with_importers(ns, edges, i));
    assert(ns[i].id == d);
    lemma_add_contains(ns[i].dependants, importers(edges, d), ns[m].id);
}

proof fn lemma_dedup_contains(s: Seq<Seq<char>>, q: Seq<char>)
    ensures
        dedup(s).contains(q) <==> s.contains(q),
        dedup(s).no_duplicates(),
    decreases s.len(),
{
    if s.len() > 0 {
        lemma_dedup_contains(s.drop_last(), q);
        lemma_dedup_contains(s.drop_last(), s.last());
        let r = dedup(s.drop_last());
        lemma_push_contains(s.drop_last(), s.last(), q);
        assert(s.drop_last().push(s.last()) =~= s);
        if !r.contains(s.last()) {
            lemma_push_contains(r, s.last(), q);
            assert forall|a: int, b: int| 0 <= a < r.push(s.last()).len() && 0 <= b < r.push(s.last()).len() && a != b implies r.push(s.last())[a] != r.push(s.last())[b] by {
                if a == r.len() {
                    assert(r[b] != s.last());
                } else if b == r.len() {
                    assert(r[a] != s.last());
                }
            }
        }
    }
}

proof fn lemma_same_package_contains(ns: Seq<NodeView>, pkg: Seq<char>, me: Seq<char>, upto: int, m: int)
    requires
        0 <= m < upto <= ns.len(),
        ns[m].package_name == pkg,
        ns[m].id != me,
    ensures
        same_package_ids(ns, pkg, me, upto).contains(ns[m].id),
    decreases upto,
{
    let r = same_package_ids(ns, pkg, me, upto - 1);
    if m == upto - 1 {
        assert(same_package_ids(ns, pkg, me, upto)[r.len() as int] == ns[m].id);
    } else {
        lemma_same_package_contains(ns, pkg, me, upto - 1, m);
        let t = choose|t: int| 0 <= t < r.len() && r[t] == ns[m].id;
        if ns[upto - 1].package_name == pkg && ns[upto - 1].id != me {
            assert(r.push(ns[upto - 1].id)[t] == ns[m].id);
        }
    }
}

/// A class of a named package imports, once its package is added, every
/// other class of that package; its imports are listed once each.
pub proof fn lemma_package_members_import(ns: Seq<NodeView>, i: int, m: int)
    requires
        0 <= i < ns.len(),
        0 <= m < ns.len(),
        ns[i].package_name.len() > 0,
        ns[m].package_name == ns[i].package_name,
        ns[m].id != ns[i].id,
    ensures
        package_step(ns)[i].dependancies.contains(ns[m].id),
        package_step(ns)[i].dependancies.no_duplicates(),
{
    let same = same_package_ids(ns, ns[i].package_name, ns[i].id, ns.len() as int);
    lemma_same_package_contains(ns, ns[i].package_name, ns[i].id, ns.len() as int, m);
    lemma_add_contains(ns[i].dependancies, same, ns[m].id);
    lemma_dedup_contains(ns[i].dependancies + same, ns[m].id);
}

/// A graph built from source files has one node per class name, and every
/// class listed as importing another is a node of the graph (so its
/// dependants can be walked).
pub proof fn lemma_created_graph_well_formed(files: Seq<SourceFile>)
    requires
        build_nodes(files, files.len() as int) is Some,
    ensures
        ids_unique(dependants_step(package_step(build_nodes(files, files.len() as int)->0))),
        dependants_resolve(dependants_step(package_step(build_nodes(files, files.len() as int)->0))),
{
    let ns = build_nodes(files, files.len() as int)->0;
    lemma_built_nodes(files, files.len() as int);
    let ps = package_step(ns);
    let g = dependants_step(ps);
    assert forall|i: int| 0 <= i < ps.len() implies #[trigger] ps[i].id == ns[i].id && ps[i].dependants.len() == 0 by {
        assert(ps[i] == with_package_deps(ns, i));
        assert(ns[i].dependants.len() == 0);
    }
    assert forall|i: int| 0 <= i < g.len() implies #[trigger] g[i].id == ps[i].id by {
        assert(g[i] == with_importers(ps, import_edges(ps, ps.len() as int), i));
    }
    assert forall|a: int, b: int| 0 <= a < g.len() && 0 <= b < g.len() && a != b implies g[a].id != g[b].id by {
        assert(g[a].id == ns[a].id && g[b].id == ns[b].id);
    }
    let edges = import_edges(ps, ps.len() as int);
    assert forall|i: int, k: int| 0 <= i < g.len() && 0 <= k < g[i].dependants.len() implies has_node(g, #[trigger] g[i].dependants[k]) by {
        assert(g[i] == with_importers(ps, edges, i));
        if first_node(ps, ps[i].id, i) {
            assert(g[i].dependants == ps[i].dependants + importers(edges, ps[i].id));
            assert(ps[i].dependants.len() == 0);
            assert(g[i].dependants[k] == importers(edges, ps[i].id)[k]);
            lemma_importers_from_edges(edges, ps[i].id, k);
            let j = choose|j: int| 0 <= j < edges.len() && #[trigger] edges[j].1 == importers(edges, ps[i].id)[k];
            lemma_import_edges_from_nodes(ps, ps.len() as int, j);
            let m = choose|m: int| 0 <= m < ps.len() && #[trigger] ps[m].id == edges[j].1;
            assert(g[m].id == g[i].dependants[k]);
        } else {
            assert(g[i].dependants.len() == 0);
        }
    }
}

} // verus!
