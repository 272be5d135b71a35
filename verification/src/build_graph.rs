//! The graph of source files that the incremental build consults: which files
//! depend on which, which files were touched since the last build, and which
//! files must be compiled again because of that.

use vstd::prelude::*;
use crate::text::{clone_strings, views, lemma_push_contains, lemma_add_contains};

verus! {

/// Files reachable from one file along one kind of edge.
#[derive(Debug)]
pub struct PathEdges {
    pub path: String,
    pub targets: Vec<String>,
}

/// The characters of a `PathEdges`.
pub struct EdgesView {
    pub path: Seq<char>,
    pub targets: Seq<Seq<char>>,
}

impl View for PathEdges {
    type V = EdgesView;

    open spec fn view(&self) -> EdgesView {
        EdgesView { path: self.path@, targets: views(self.targets@) }
    }
}

/// The views of an edge table.
pub open spec fn edge_views(e: Seq<PathEdges>) -> Seq<EdgesView> {
    e.map_values(|x: PathEdges| x@)
}

/// Entry `i` is the first entry of the table for `p`.
pub open spec fn first_key(e: Seq<EdgesView>, p: Seq<char>, i: int) -> bool {
    &&& 0 <= i < e.len()
    &&& e[i].path == p
    &&& forall|j: int| 0 <= j < i ==> e[j].path != p
}

/// `q` is listed for `p` (in the first entry for `p`).
pub open spec fn succ(e: Seq<EdgesView>, p: Seq<char>, q: Seq<char>) -> bool {
    exists|i: int| #[trigger] first_key(e, p, i) && e[i].targets.contains(q)
}

/// Every step of `w` follows the table.
pub open spec fn is_walk(e: Seq<EdgesView>, w: Seq<Seq<char>>) -> bool {
    forall|k: int| #![trigger w[k]] 0 <= k < w.len() - 1 ==> succ(e, w[k], w[k + 1])
}

/// `b` can be reached from `a` in one or more steps.
pub open spec fn reaches(e: Seq<EdgesView>, a: Seq<char>, b: Seq<char>) -> bool {
    exists|w: Seq<Seq<char>>| w.len() >= 2 && w[0] == a && w.last() == b && #[trigger] is_walk(e, w)
}

/// Every target listed anywhere in the table.
pub open spec fn all_targets(e: Seq<EdgesView>) -> Seq<Seq<char>>
    decreases e.len(),
{
    if e.len() == 0 {
        Seq::<Seq<char>>::empty()
    } else {
        all_targets(e.drop_last()) + e.last().targets
    }
}

proof fn lemma_all_targets_contains(e: Seq<EdgesView>, i: int, q: Seq<char>)
    requires
        0 <= i < e.len(),
        e[i].targets.contains(q),
    ensures
        all_targets(e).contains(q),
    decreases e.len(),
{
    if i == e.len() - 1 {
        let k = choose|k: int| 0 <= k < e[i].targets.len() && e[i].targets[k] == q;
        assert(all_targets(e)[all_targets(e.drop_last()).len() + k] == q);
    } else {
        lemma_all_targets_contains(e.drop_last(), i, q);
        let k = choose|k: int|
            0 <= k < all_targets(e.drop_last()).len() && all_targets(e.drop_last())[k] == q;
        assert(all_targets(e)[k] == q);
    }
}

/// A walk to `x` followed by one more step reaches `y`.
pub proof fn lemma_reach_step(e: Seq<EdgesView>, a: Seq<char>, x: Seq<char>, y: Seq<char>)
    requires
        reaches(e, a, x),
        succ(e, x, y),
    ensures
        reaches(e, a, y),
{
    let w = choose|w: Seq<Seq<char>>| w.len() >= 2 && w[0] == a && w.last() == x && #[trigger] is_walk(e, w);
    let w2 = w.push(y);
    assert forall|k: int| #![trigger w2[k]] 0 <= k < w2.len() - 1 implies succ(e, w2[k], w2[k + 1]) by {
        if k < w.len() - 1 {
            assert(w2[k] == w[k]);
            assert(succ(e, w[k], w[k + 1]));
        }
    }
    assert(is_walk(e, w2));
}

/// One step is a walk.
pub proof fn lemma_reach_one(e: Seq<EdgesView>, a: Seq<char>, y: Seq<char>)
    requires
        succ(e, a, y),
    ensures
        reaches(e, a, y),
{
    let w = seq![a, y];
    assert forall|k: int| #![trigger w[k]] 0 <= k < w.len() - 1 implies succ(e, w[k], w[k + 1]) by {}
    assert(is_walk(e, w));
}

proof fn lemma_walk_in_set(e: Seq<EdgesView>, s: Set<Seq<char>>, w: Seq<Seq<char>>, k: int)
    requires
        w.len() >= 2,
        1 <= k < w.len(),
        is_walk(e, w),
        s.contains(w[1]),
        forall|x: Seq<char>, q: Seq<char>| s.contains(x) && #[trigger] succ(e, x, q) ==> s.contains(q),
    ensures
        s.contains(w[k]),
    decreases k,
{
    if k > 1 {
        lemma_walk_in_set(e, s, w, k - 1);
        assert(succ(e, w[k - 1], w[k]));
    }
}

/// A set that holds the successors of `a` and is closed under successors
/// holds everything reachable from `a`.
pub proof fn lemma_closed_holds_reach(e: Seq<EdgesView>, a: Seq<char>, s: Set<Seq<char>>, b: Seq<char>)
    requires
        forall|q: Seq<char>| succ(e, a, q) ==> s.contains(q),
        forall|x: Seq<char>, q: Seq<char>| s.contains(x) && #[trigger] succ(e, x, q) ==> s.contains(q),
        reaches(e, a, b),
    ensures
        s.contains(b),
{
    let w = choose|w: Seq<Seq<char>>| w.len() >= 2 && w[0] == a && w.last() == b && #[trigger] is_walk(e, w);
    assert(succ(e, w[0], w[1]));
    lemma_walk_in_set(e, s, w, w.len() - 1);
}

/// Walks compose: reaching `b` from `a` and `c` from `b` reaches `c` from `a`.
pub proof fn lemma_reach_trans(e: Seq<EdgesView>, a: Seq<char>, b: Seq<char>, c: Seq<char>)
    requires
        reaches(e, a, b),
        reaches(e, b, c),
    ensures
        reaches(e, a, c),
{
    let w1 = choose|w: Seq<Seq<char>>| w.len() >= 2 && w[0] == a && w.last() == b && #[trigger] is_walk(e, w);
    let w2 = choose|w: Seq<Seq<char>>| w.len() >= 2 && w[0] == b && w.last() == c && #[trigger] is_walk(e, w);
    let w = w1 + w2.drop_first();
    assert forall|k: int| #![trigger w[k]] 0 <= k < w.len() - 1 implies succ(e, w[k], w[k + 1]) by {
        if k < w1.len() - 1 {
            assert(w[k] == w1[k] && w[k + 1] == w1[k + 1]);
            assert(succ(e, w1[k], w1[k + 1]));
        } else if k == w1.len() - 1 {
            assert(w[k] == w1.last() && w1.last() == w2[0]);
            assert(w[k + 1] == w2[1]);
            assert(succ(e, w2[0], w2[1]));
        } else {
            let m = k - w1.len() + 1;
            assert(w[k] == w2[m] && w[k + 1] == w2[m + 1]);
            assert(succ(e, w2[m], w2[m + 1]));
        }
    }
    assert(w[0] == a);
    assert(w.last() == w2.last());
    assert(is_walk(e, w));
}

/// Whether `v` holds a string equal to `s`.
pub fn strings_contain(v: &Vec<String>, s: &String) -> (b: bool)
    ensures
        b == views(v@).contains(s@),
{
    let mut i: usize = 0;
    while i < v.len()
        invariant
            i <= v@.len(),
            forall|j: int| 0 <= j < i ==> v@[j]@ != s@,
        decreases v@.len() - i,
    {
        if v[i] == *s {
            assert(views(v@)[i as int] == s@);
            return true;
        }
        i = i + 1;
    }
    assert(!views(v@).contains(s@)) by {
        if views(v@).contains(s@) {
            let k = choose|k: int| 0 <= k < views(v@).len() && views(v@)[k] == s@;
            assert(v@[k]@ == s@);
        }
    }
    false
}

/// The targets listed for `p` (none when the table has no entry for it).
pub fn targets_of(edges: &Vec<PathEdges>, p: &String) -> (r: Vec<String>)
    ensures
        forall|q: Seq<char>| views(r@).contains(q) <==> succ(edge_views(edges@), p@, q),
        forall|q: Seq<char>| views(r@).contains(q) ==> all_targets(edge_views(edges@)).contains(q),
{
    let ghost ev = edge_views(edges@);
    let mut i: usize = 0;
    while i < edges.len()
        invariant
            i <= edges@.len(),
            ev == edge_views(edges@),
            forall|j: int| 0 <= j < i ==> ev[j].path != p@,
        decreases edges@.len() - i,
    {
        assert(ev[i as int] == edges@[i as int]@);
        if edges[i].path == *p {
            let r = clone_strings(&edges[i].targets);
            proof {
                assert(first_key(ev, p@, i as int));
                assert forall|q: Seq<char>| views(r@).contains(q) <==> succ(ev, p@, q) by {
                    if succ(ev, p@, q) {
                        let k = choose|k: int| #[trigger] first_key(ev, p@, k) && ev[k].targets.contains(q);
                        assert(k == i);
                    }
                }
                assert forall|q: Seq<char>| views(r@).contains(q) implies all_targets(ev).contains(q) by {
                    lemma_all_targets_contains(ev, i as int, q);
                }
            }
            return r;
        }
        i = i + 1;
    }
    let r: Vec<String> = Vec::new();
    proof {
        assert forall|q: Seq<char>| views(r@).contains(q) <==> succ(ev, p@, q) by {
            if succ(ev, p@, q) {
                let k = choose|k: int| #[trigger] first_key(ev, p@, k) && ev[k].targets.contains(q);
            }
        }
    }
    r
}

/// Every file reachable from `path` along `edges`, each once.
pub fn reachable_from(edges: &Vec<PathEdges>, path: &String) -> (r: Vec<String>)
    ensures
        views(r@).no_duplicates(),
        forall|q: Seq<char>| views(r@).contains(q) <==> reaches(edge_views(edges@), path@, q),
{
    let ghost ev = edge_views(edges@);
    let ghost universe = all_targets(ev);
    let mut result: Vec<String> = Vec::new();
    let mut stack: Vec<String> = targets_of(edges, path);
    proof {
        assert forall|q: Seq<char>| views(stack@).contains(q) implies reaches(ev, path@, q) by {
            lemma_reach_one(ev, path@, q);
        }
    }
    loop
        invariant
            ev == edge_views(edges@),
            universe == all_targets(ev),
            views(result@).no_duplicates(),
            forall|q: Seq<char>| views(result@).contains(q) ==> universe.contains(q),
            forall|q: Seq<char>| views(stack@).contains(q) ==> universe.contains(q),
            forall|q: Seq<char>| views(result@).contains(q) ==> reaches(ev, path@, q),
            forall|q: Seq<char>| views(stack@).contains(q) ==> reaches(ev, path@, q),
            forall|q: Seq<char>|
                succ(ev, path@, q) ==> views(result@).contains(q) || views(stack@).contains(q),
            forall|x: Seq<char>, q: Seq<char>|
                views(result@).contains(x) && #[trigger] succ(ev, x, q) ==> views(result@).contains(q)
                    || views(stack@).contains(q),
        ensures
            views(result@).no_duplicates(),
            forall|q: Seq<char>| views(result@).contains(q) ==> reaches(ev, path@, q),
            forall|q: Seq<char>| succ(ev, path@, q) ==> views(result@).contains(q),
            forall|x: Seq<char>, q: Seq<char>|
                views(result@).contains(x) && #[trigger] succ(ev, x, q) ==> views(result@).contains(q),
        decreases universe.len() - result@.len(), stack@.len(),
    {
        proof {
            views(result@).unique_seq_to_set();
            universe.lemma_cardinality_of_set();
            vstd::set_lib::lemma_len_subset(views(result@).to_set(), universe.to_set());
        }
        let ghost old_stack = stack@;
        let ghost old_result = result@;
        match stack.pop() {
            None => {
                proof {
                    assert(views(stack@) =~= Seq::<Seq<char>>::empty());
                }
                break;
            },
            Some(current) => {
                assert(old_stack.len() > 0);
                assert(stack@ == old_stack.drop_last());
                assert(current == old_stack.last());
                assert(views(old_stack) =~= views(stack@).push(current@));
                assert(views(old_stack)[old_stack.len() - 1] == current@);
                assert(views(old_stack).contains(current@));
                assert forall|q: Seq<char>| views(stack@).contains(q) implies views(old_stack).contains(q) by {
                    let j = choose|j: int| 0 <= j < views(stack@).len() && views(stack@)[j] == q;
                    assert(views(old_stack)[j] == q);
                }
                if strings_contain(&result, &current) {
                    proof {
                        assert forall|q: Seq<char>| views(stack@).contains(q) implies reaches(ev, path@, q) by {
                            assert(views(old_stack).contains(q));
                        }
                    }
                } else {
                    let next = targets_of(edges, &current);
                    let ghost cur_view = current@;
                    result.push(current);
                    assert(views(result@) =~= views(old_result).push(cur_view));
                    let ghost mid_stack = stack@;
                    let mut k: usize = 0;
                    while k < next.len()
                        invariant
                            k <= next@.len(),
                            stack@.len() == mid_stack.len() + k,
                            forall|j: int| 0 <= j < mid_stack.len() ==> stack@[j]@ == mid_stack[j]@,
                            forall|j: int| 0 <= j < k ==> stack@[mid_stack.len() + j]@ == next@[j]@,
                            views(result@) == views(old_result).push(cur_view),
                        decreases next@.len() - k,
                    {
                        let c = next[k].clone();
                        stack.push(c);
                        k = k + 1;
                    }
                    assert(views(stack@) =~= views(mid_stack) + views(next@));
                    proof {
                        assert forall|q: Seq<char>| views(stack@).contains(q) <==> (views(mid_stack).contains(q)
                            || views(next@).contains(q)) by {
                            lemma_add_contains(views(mid_stack), views(next@), q);
                        }
                        assert forall|q: Seq<char>| views(result@).contains(q) <==> (views(old_result).contains(q)
                            || q == current@) by {
                            lemma_push_contains(views(old_result), current@, q);
                        }
                    }
                    proof {
                        assert(views(result@) =~= views(old_result).push(current@));
                        assert(views(old_stack).contains(current@));
                        assert forall|q: Seq<char>| views(stack@).contains(q) implies reaches(ev, path@, q)
                            && universe.contains(q) by {
                            if views(mid_stack).contains(q) {
                                assert(views(old_stack).contains(q));
                            } else {
                                assert(views(next@).contains(q));
                                lemma_reach_step(ev, path@, current@, q);
                            }
                        }
                        assert forall|q: Seq<char>| views(result@).contains(q) implies reaches(ev, path@, q)
                            && universe.contains(q) by {
                            if q != current@ {
                                assert(views(old_result).contains(q));
                            }
                        }
                        assert forall|q: Seq<char>| succ(ev, path@, q) implies views(result@).contains(q)
                            || views(stack@).contains(q) by {
                            if views(old_result).contains(q) {
                                assert(views(result@).contains(q));
                            } else if q == current@ {
                            } else {
                                assert(views(old_stack).contains(q));
                                assert(views(mid_stack).contains(q));
                                let j = choose|j: int| 0 <= j < views(mid_stack).len() && views(mid_stack)[j] == q;
                                assert(views(stack@)[j] == q);
                            }
                        }
                        assert forall|x: Seq<char>, q: Seq<char>|
                            views(result@).contains(x) && #[trigger] succ(ev, x, q) implies views(result@).contains(q)
                                || views(stack@).contains(q) by {
                            if x == current@ {
                                assert(views(next@).contains(q));
                                let j = choose|j: int| 0 <= j < views(next@).len() && views(next@)[j] == q;
                                assert(views(stack@)[views(mid_stack).len() + j] == q);
                            } else {
                                assert(views(old_result).contains(x));
                                if views(old_result).contains(q) {
                                    assert(views(result@).contains(q));
                                } else if q == current@ {
                                } else {
                                    assert(views(old_stack).contains(q));
                                    assert(views(mid_stack).contains(q));
                                    let j = choose|j: int| 0 <= j < views(mid_stack).len() && views(mid_stack)[j] == q;
                                    assert(views(stack@)[j] == q);
                                }
                            }
                        }
                        assert(views(result@).no_duplicates());
                        views(result@).unique_seq_to_set();
                        vstd::set_lib::lemma_len_subset(views(result@).to_set(), universe.to_set());
                    }
                }
            },
        }
    }
    proof {
        assert forall|q: Seq<char>| reaches(ev, path@, q) implies views(result@).contains(q) by {
            lemma_closed_holds_reach(ev, path@, views(result@).to_set(), q);
        }
    }
    result
}

} // verus!

verus! {

/// A source file with the time it was last modified.
#[derive(Debug)]
pub struct GraphFile {
    pub path: String,
    pub modified: u128,
}

/// The files of a source tree, and for each file the files that depend on it
/// and the files it depends on.
#[derive(Debug)]
pub struct Graph {
    pub files: Vec<GraphFile>,
    pub dependents: Vec<PathEdges>,
    pub dependencies: Vec<PathEdges>,
}

/// File `j` was modified after `time` and is `q` or reaches `q` along the
/// dependents table.
pub open spec fn touches(g: &Graph, time: u128, j: int, q: Seq<char>) -> bool {
    &&& 0 <= j < g.files@.len()
    &&& g.files@[j].modified > time
    &&& (q == g.files@[j].path@ || reaches(edge_views(g.dependents@), g.files@[j].path@, q))
}

/// Some of the first `n` files touches `q`.
pub open spec fn stale_upto(g: &Graph, time: u128, q: Seq<char>, n: int) -> bool {
    exists|j: int| 0 <= j < n && #[trigger] touches(g, time, j, q)
}

/// `q` is stale: a file modified after `time` is `q` or reaches `q` along
/// the dependents table.
pub open spec fn is_stale(g: &Graph, time: u128, q: Seq<char>) -> bool {
    stale_upto(g, time, q, g.files@.len() as int)
}

/// `acc` followed by every string of `add` that it does not hold yet.
pub fn add_missing(acc: Vec<String>, add: &Vec<String>) -> (r: Vec<String>)
    requires
        views(acc@).no_duplicates(),
    ensures
        views(r@).no_duplicates(),
        forall|q: Seq<char>|
            views(r@).contains(q) <==> (views(acc@).contains(q) || views(add@).contains(q)),
{
    let ghost start = acc@;
    let mut acc = acc;
    let mut k: usize = 0;
    while k < add.len()
        invariant
            k <= add@.len(),
            views(acc@).no_duplicates(),
            forall|q: Seq<char>|
                views(acc@).contains(q) <==> (views(start).contains(q) || views(add@).take(
                    k as int,
                ).contains(q)),
        decreases add@.len() - k,
    {
        let ghost before = acc@;
        proof {
            assert(views(add@).take(k + 1) =~= views(add@).take(k as int).push(add@[k as int]@));
            assert forall|q: Seq<char>| views(add@).take(k + 1).contains(q) <==> (views(add@).take(
                k as int,
            ).contains(q) || q == add@[k as int]@) by {
                lemma_push_contains(views(add@).take(k as int), add@[k as int]@, q);
            }
        }
        let ghost item = add@[k as int]@;
        if !strings_contain(&acc, &add[k]) {
            let c = add[k].clone();
            acc.push(c);
            proof {
                assert(c@ == item);
                assert(views(acc@) =~= views(before).push(c@));
                assert forall|q: Seq<char>| views(acc@).contains(q) <==> (views(before).contains(q)
                    || q == c@) by {
                    lemma_push_contains(views(before), c@, q);
                }
                assert(!views(before).contains(item));
                assert forall|i: int, j: int|
                    0 <= i < views(acc@).len() && 0 <= j < views(acc@).len() && i != j implies views(
                        acc@,
                    )[i] != views(acc@)[j] by {
                    if i == views(before).len() as int {
                        assert(views(before)[j] == views(acc@)[j]);
                    } else if j == views(before).len() as int {
                        assert(views(before)[i] == views(acc@)[i]);
                    }
                }
            }
        } else {
            assert(views(before).contains(item));
        }
        let ghost kprev = k as int;
        assert(views(acc@).contains(item));
        assert(forall|q: Seq<char>| views(acc@).contains(q) <==> (views(before).contains(q) || q == item));
        k = k + 1;
        assert(views(add@).take(k as int) =~= views(add@).take(kprev).push(item));
        assert forall|q: Seq<char>|
            views(acc@).contains(q) <==> (views(start).contains(q) || views(add@).take(
                k as int,
            ).contains(q)) by {
            lemma_push_contains(views(add@).take(kprev), item, q);
            let t1 = views(before).contains(q);
            let t2 = views(start).contains(q);
            let t3 = views(add@).take(kprev).contains(q);
            assert(t1 <==> (t2 || t3));
        }
    }
    assert(views(add@).take(add@.len() as int) =~= views(add@));
    acc
}

impl Graph {
    /// Every file that depends on `path`, directly or through other files,
    /// each once.
    pub fn dependents_of(&self, path: &String) -> (r: Vec<String>)
        ensures
            views(r@).no_duplicates(),
            forall|q: Seq<char>| views(r@).contains(q) <==> reaches(edge_views(self.dependents@), path@, q),
    {
        reachable_from(&self.dependents, path)
    }

    /// Every file that must be compiled again: each file modified after
    /// `time`, and every file that depends on one of those, each once.
    pub fn stale_files(&self, time: u128) -> (r: Vec<String>)
        ensures
            views(r@).no_duplicates(),
            forall|q: Seq<char>| views(r@).contains(q) <==> is_stale(self, time, q),
    {
        let mut stale: Vec<String> = Vec::new();
        let mut i: usize = 0;
        while i < self.files.len()
            invariant
                i <= self.files@.len(),
                views(stale@).no_duplicates(),
                forall|q: Seq<char>| views(stale@).contains(q) <==> stale_upto(self, time, q, i as int),
            decreases self.files@.len() - i,
        {
            let ghost before = stale@;
            if self.files[i].modified > time {
                let deps = self.dependents_of(&self.files[i].path);
                let mut one: Vec<String> = Vec::new();
                one.push(self.files[i].path.clone());
                proof {
                    assert forall|q: Seq<char>| views(one@).contains(q) <==> q == self.files@[i as int].path@ by {
                        lemma_push_contains(Seq::<Seq<char>>::empty(), self.files@[i as int].path@, q);
                        assert(views(one@) =~= Seq::<Seq<char>>::empty().push(self.files@[i as int].path@));
                    }
                }
                stale = add_missing(stale, &deps);
                let ghost mid = stale@;
                stale = add_missing(stale, &one);
                proof {
                    assert forall|q: Seq<char>| views(stale@).contains(q) <==> stale_upto(self, time, q, i + 1) by {
                        if views(stale@).contains(q) {
                            if views(before).contains(q) {
                                let j = choose|j: int| 0 <= j < i && #[trigger] touches(self, time, j, q);
                                assert(touches(self, time, j, q));
                            } else if views(mid).contains(q) {
                                assert(views(deps@).contains(q));
                                assert(touches(self, time, i as int, q));
                            } else {
                                assert(views(one@).contains(q));
                                assert(touches(self, time, i as int, q));
                            }
                        }
                        if stale_upto(self, time, q, i + 1) {
                            let j = choose|j: int| 0 <= j < i + 1 && #[trigger] touches(self, time, j, q);
                            if j < i {
                                assert(stale_upto(self, time, q, i as int));
                                assert(views(before).contains(q));
                                assert(views(mid).contains(q));
                            } else if q == self.files@[i as int].path@ {
                                assert(views(one@).contains(q));
                            } else {
                                assert(views(deps@).contains(q));
                                assert(views(mid).contains(q));
                            }
                        }
                    }
                }
            } else {
                proof {
                    assert forall|q: Seq<char>| views(stale@).contains(q) <==> stale_upto(self, time, q, i + 1) by {
                        if views(stale@).contains(q) {
                            let j = choose|j: int| 0 <= j < i && #[trigger] touches(self, time, j, q);
                            assert(touches(self, time, j, q));
                        }
                        if stale_upto(self, time, q, i + 1) {
                            let j = choose|j: int| 0 <= j < i + 1 && #[trigger] touches(self, time, j, q);
                            assert(j < i);
                            assert(stale_upto(self, time, q, i as int));
                        }
                    }
                }
            }
            i = i + 1;
        }
        stale
    }
}

/// A file modified after the last build must be compiled again.
pub proof fn lemma_modified_is_stale(g: &Graph, time: u128, j: int)
    requires
        0 <= j < g.files@.len(),
        g.files@[j].modified > time,
    ensures
        is_stale(g, time, g.files@[j].path@),
{
    assert(touches(g, time, j, g.files@[j].path@));
}

/// Whatever depends, directly or through other files, on a file that must
/// be compiled again must be compiled again too.
pub proof fn lemma_stale_spreads_to_dependents(g: &Graph, time: u128, q: Seq<char>, r: Seq<char>)
    requires
        is_stale(g, time, q),
        reaches(edge_views(g.dependents@), q, r),
    ensures
        is_stale(g, time, r),
{
    let j = choose|j: int| 0 <= j < g.files@.len() && #[trigger] touches(g, time, j, q);
    if q != g.files@[j].path@ {
        lemma_reach_trans(edge_views(g.dependents@), g.files@[j].path@, q, r);
    }
    assert(touches(g, time, j, r));
}

} // verus!
