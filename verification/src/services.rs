//! Merging the service files of the jars that make up a fat jar: each
//! provider is listed once, in order.

use vstd::prelude::*;
use vstd::string::*;
use crate::annotations::{lines_of, text_lines};
use crate::text::{append, push_char, views};
use crate::config::{NamedProcessor, ProcessorType};
use crate::javac::{join_with, joined_with};

verus! {

/// `a` comes before `b` in the order of `str`: character by character by
/// code point (the order of their UTF-8 bytes), a proper prefix first.
pub open spec fn text_lt(a: Seq<char>, b: Seq<char>) -> bool
    decreases a.len(),
{
    if a.len() == 0 {
        b.len() > 0
    } else if b.len() == 0 {
        false
    } else if a[0] < b[0] {
        true
    } else if a[0] == b[0] {
        text_lt(a.drop_first(), b.drop_first())
    } else {
        false
    }
}

/// No text comes before itself.
pub proof fn lemma_text_lt_irreflexive(a: Seq<char>)
    ensures
        !text_lt(a, a),
    decreases a.len(),
{
    if a.len() > 0 {
        lemma_text_lt_irreflexive(a.drop_first());
    }
}

/// The order is transitive.
pub proof fn lemma_text_lt_transitive(a: Seq<char>, b: Seq<char>, c: Seq<char>)
    requires
        text_lt(a, b),
        text_lt(b, c),
    ensures
        text_lt(a, c),
    decreases a.len(),
{
    if a.len() > 0 && b.len() > 0 && c.len() > 0 {
        if a[0] == b[0] && b[0] == c[0] {
            lemma_text_lt_transitive(a.drop_first(), b.drop_first(), c.drop_first());
        }
    }
}

/// Two different texts are ordered one way or the other.
pub proof fn lemma_text_lt_total(a: Seq<char>, b: Seq<char>)
    requires
        a != b,
    ensures
        text_lt(a, b) || text_lt(b, a),
    decreases a.len(),
{
    if a.len() > 0 && b.len() > 0 {
        if a[0] == b[0] {
            if a.drop_first() == b.drop_first() {
                assert(a =~= seq![a[0]] + a.drop_first());
                assert(b =~= seq![b[0]] + b.drop_first());
            }
            lemma_text_lt_total(a.drop_first(), b.drop_first());
        }
    } else if a.len() == 0 && b.len() == 0 {
        assert(a =~= b);
    }
}

/// The texts are in strictly increasing order.
pub open spec fn strictly_sorted(s: Seq<Seq<char>>) -> bool {
    forall|i: int, j: int| 0 <= i < j < s.len() ==> text_lt(#[trigger] s[i], #[trigger] s[j])
}

/// Whether `a` comes before `b` (see `text_lt`).
pub fn text_less(a: &String, b: &String) -> (r: bool)
    ensures
        r == text_lt(a@, b@),
{
    let na = a.as_str().unicode_len();
    let nb = b.as_str().unicode_len();
    let mut i: usize = 0;
    assert(a@.skip(0) =~= a@);
    assert(b@.skip(0) =~= b@);
    while i < na && i < nb
        invariant
            na == a@.len(),
            nb == b@.len(),
            i <= na,
            i <= nb,
            a@.take(i as int) == b@.take(i as int),
            text_lt(a@, b@) == text_lt(a@.skip(i as int), b@.skip(i as int)),
        decreases na - i,
    {
        let ca = a.as_str().get_char(i);
        let cb = b.as_str().get_char(i);
        assert(a@.skip(i as int)[0] == ca && b@.skip(i as int)[0] == cb);
        if ca < cb {
            return true;
        }
        if ca != cb {
            return false;
        }
        assert(a@.skip(i as int).drop_first() =~= a@.skip(i + 1));
        assert(b@.skip(i as int).drop_first() =~= b@.skip(i + 1));
        assert(a@.take(i + 1) =~= a@.take(i as int).push(ca));
        assert(b@.take(i + 1) =~= b@.take(i as int).push(cb));
        i = i + 1;
    }
    i == na && i < nb
}

/// `v` with `x` put in its place, unless it is already there.
fn insert_sorted(v: Vec<String>, x: String) -> (r: Vec<String>)
    requires
        strictly_sorted(views(v@)),
    ensures
        strictly_sorted(views(r@)),
        forall|q: Seq<char>| views(r@).contains(q) <==> (views(v@).contains(q) || q == x@),
{
    let ghost vv = views(v@);
    let mut v = v;
    let mut p: usize = 0;
    while p < v.len() && text_less(&v[p], &x)
        invariant
            vv == views(v@),
            p <= v@.len(),
            forall|k: int| 0 <= k < p ==> text_lt(#[trigger] vv[k], x@),
        decreases v@.len() - p,
    {
        p = p + 1;
    }
    if p < v.len() && v[p] == x {
        assert(vv[p as int] == x@);
        return v;
    }
    proof {
        if p < vv.len() {
            assert(!text_lt(vv[p as int], x@));
            assert(vv[p as int] != x@);
            lemma_text_lt_total(vv[p as int], x@);
        }
    }
    let ghost xv = x@;
    v.insert(p, x);
    let ghost r = views(v@);
    assert(r =~= vv.take(p as int).push(xv) + vv.skip(p as int));
    proof {
        assert forall|i: int, j: int| 0 <= i < j < r.len() implies text_lt(#[trigger] r[i], #[trigger] r[j]) by {
            if j < p {
                assert(r[i] == vv[i] && r[j] == vv[j]);
            } else if j == p {
                assert(r[i] == vv[i]);
            } else if i == p {
                assert(r[j] == vv[j - 1]);
                if j - 1 > p {
                    assert(text_lt(vv[p as int], vv[j - 1]));
                    lemma_text_lt_transitive(xv, vv[p as int], vv[j - 1]);
                }
            } else if i < p {
                assert(r[i] == vv[i] && r[j] == vv[j - 1]);
            } else {
                assert(r[i] == vv[i - 1] && r[j] == vv[j - 1]);
            }
        }
        assert forall|q: Seq<char>| r.contains(q) <==> (vv.contains(q) || q == xv) by {
            if r.contains(q) {
                let k = choose|k: int| 0 <= k < r.len() && r[k] == q;
                if k < p {
                    assert(vv[k] == q);
                } else if k > p {
                    assert(vv[k - 1] == q);
                }
            }
            if vv.contains(q) {
                let k = choose|k: int| 0 <= k < vv.len() && vv[k] == q;
                if k < p {
                    assert(r[k] == q);
                } else {
                    assert(r[k + 1] == q);
                }
            }
            if q == xv {
                assert(r[p as int] == q);
            }
        }
    }
    v
}

/// The providers of a service file as merging writes them: every line of
/// the text (see `str::lines`), each once, in increasing order.
pub fn merge_service_lines(content: &str) -> (r: Vec<String>)
    ensures
        strictly_sorted(views(r@)),
        forall|q: Seq<char>| views(r@).contains(q) <==> text_lines(content@).contains(q),
{
    let lines = lines_of(content);
    let ghost lv = views(lines@);
    let mut out: Vec<String> = Vec::new();
    let mut i: usize = 0;
    while i < lines.len()
        invariant
            lv == views(lines@),
            i <= lines@.len(),
            strictly_sorted(views(out@)),
            forall|q: Seq<char>| views(out@).contains(q) <==> lv.take(i as int).contains(q),
        decreases lines@.len() - i,
    {
        let line = lines[i].clone();
        let ghost lq = line@;
        out = insert_sorted(out, line);
        proof {
            assert(lv.take(i + 1) =~= lv.take(i as int).push(lq));
            assert forall|q: Seq<char>| views(out@).contains(q) <==> lv.take(i + 1).contains(q) by {
                crate::text::lemma_push_contains(lv.take(i as int), lq, q);
            }
        }
        i = i + 1;
    }
    assert(lv.take(lines@.len() as int) =~= lv);
    out
}

/// The service entries of the processors the project builds: for each
/// processor of kind `Processor` among the first `upto`, in order, its
/// package and class name joined by `.`.
pub open spec fn processor_entries(ps: Seq<NamedProcessor>, upto: int) -> Seq<Seq<char>>
    decreases upto,
{
    if upto <= 0 {
        Seq::<Seq<char>>::empty()
    } else {
        let prev = processor_entries(ps, upto - 1);
        let p = ps[upto - 1];
        if p.definition.kind == ProcessorType::Processor {
            prev.push(p.definition.package@ + seq!['.'] + p.name@)
        } else {
            prev
        }
    }
}

/// The text of the processor service file the project's own processors are
/// listed in: their entries, one per line (see `processor_entries`).
pub fn processor_service_file(processors: &Vec<NamedProcessor>) -> (r: String)
    ensures
        r@ == joined_with('\n', processor_entries(processors@, processors@.len() as int)),
{
    let mut entries: Vec<String> = Vec::new();
    let mut i: usize = 0;
    while i < processors.len()
        invariant
            i <= processors@.len(),
            views(entries@) == processor_entries(processors@, i as int),
        decreases processors@.len() - i,
    {
        let p = &processors[i];
        if p.definition.kind == ProcessorType::Processor {
            let mut entry = p.definition.package.clone();
            push_char(&mut entry, '.');
            assert(entry@ =~= p.definition.package@ + seq!['.']);
            append(&mut entry, p.name.as_str());
            assert(entry@ =~= p.definition.package@ + seq!['.'] + p.name@);
            let ghost before = views(entries@);
            entries.push(entry);
            assert(views(entries@) =~= before.push(p.definition.package@ + seq!['.'] + p.name@));
        }
        i = i + 1;
    }
    join_with('\n', &entries)
}

} // verus!
