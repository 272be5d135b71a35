//! Dotted Java package paths (`com.example.Main`, `org.apache.*`) and how an
//! import pattern matches a path.

use vstd::prelude::*;
use vstd::string::*;
use crate::text::{push_char, owned, views, is_single_char, clone_strings, strings_eq};

verus! {

/// The one-character segment that stands for "any class" in an import.
pub open spec fn wildcard() -> Seq<char> {
    seq!['*']
}

/// The segments of `s` when split at every `.` (an empty string gives one
/// empty segment, as does each pair of adjacent dots).
pub open spec fn split_dots(s: Seq<char>) -> Seq<Seq<char>>
    decreases s.len(),
{
    if s.len() == 0 {
        seq![Seq::<char>::empty()]
    } else {
        let rest = split_dots(s.drop_last());
        if s.last() == '.' {
            rest.push(Seq::<char>::empty())
        } else {
            rest.update(rest.len() - 1, rest.last().push(s.last()))
        }
    }
}

/// `split_dots` never yields an empty list.
pub proof fn lemma_split_dots_nonempty(s: Seq<char>)
    ensures
        split_dots(s).len() >= 1,
    decreases s.len(),
{
    if s.len() > 0 {
        lemma_split_dots_nonempty(s.drop_last());
    }
}

/// The segments joined again with `.` between them.
pub open spec fn join_dots(segs: Seq<Seq<char>>) -> Seq<char>
    decreases segs.len(),
{
    if segs.len() == 0 {
        Seq::<char>::empty()
    } else if segs.len() == 1 {
        segs[0]
    } else {
        join_dots(segs.drop_last()) + seq!['.'] + segs.last()
    }
}

/// Whether `pattern` includes `other`: both have the same number of segments,
/// and every segment of `pattern` up to (not including) its first `*` equals
/// the segment of `other` at the same place. A `*` matches exactly one
/// segment and ends the comparison.
pub open spec fn includes_spec(pattern: Seq<Seq<char>>, other: Seq<Seq<char>>) -> bool {
    &&& pattern.len() == other.len()
    &&& forall|i: int|
        0 <= i < pattern.len() && (forall|j: int| 0 <= j <= i ==> pattern[j] != wildcard())
            ==> #[trigger] pattern[i] == other[i]
}

/// A package path, optionally marked as a static import.
#[derive(Debug)]
pub struct Package {
    path: Vec<String>,
    is_static: bool,
}

impl Package {
    /// The segments of the path.
    pub closed spec fn segments(&self) -> Seq<Seq<char>> {
        views(self.path@)
    }

    /// Whether the path came from a static import.
    pub closed spec fn static_flag(&self) -> bool {
        self.is_static
    }

    /// The path with no segments.
    pub fn empty() -> (p: Package)
        ensures
            p.segments() == Seq::<Seq<char>>::empty(),
            !p.static_flag(),
    {
        let p = Package { path: Vec::new(), is_static: false };
        assert(p.segments() =~= Seq::<Seq<char>>::empty());
        p
    }

    /// Splits `s` at every `.`.
    pub fn from_string(s: &str, is_static: bool) -> (p: Package)
        ensures
            p.segments() == split_dots(s@),
            p.static_flag() == is_static,
    {
        let n = s.unicode_len();
        let mut segs: Vec<String> = Vec::new();
        let mut cur = String::new();
        let mut i: usize = 0;
        while i < n
            invariant
                n == s@.len(),
                i <= n,
                views(segs@).push(cur@) == split_dots(s@.take(i as int)),
            decreases n - i,
        {
            let c = s.get_char(i);
            let ghost prev = s@.take(i as int);
            assert(s@.take(i + 1).drop_last() =~= prev);
            assert(s@.take(i + 1).last() == c);
            if c == '.' {
                let done = cur;
                segs.push(done);
                cur = String::new();
                assert(views(segs@).push(cur@) =~= split_dots(prev).push(Seq::<char>::empty()));
            } else {
                let ghost before = views(segs@).push(cur@);
                push_char(&mut cur, c);
                assert(views(segs@).push(cur@) =~= before.update(
                    before.len() - 1,
                    before.last().push(c),
                ));
            }
            i = i + 1;
        }
        assert(s@.take(n as int) =~= s@);
        segs.push(cur);
        let p = Package { path: segs, is_static };
        assert(p.segments() =~= split_dots(s@));
        p
    }

    /// Whether this import pattern covers `other` (see `includes_spec`).
    pub fn includes(&self, other: &Self) -> (b: bool)
        ensures
            b == includes_spec(self.segments(), other.segments()),
    {
        let n = self.path.len();
        let mut i: usize = 0;
        while i < n
            invariant
                n == self.path.len(),
                i <= n,
                forall|j: int| 0 <= j < i ==> self.path@[j]@ != wildcard(),
                forall|j: int|
                    0 <= j < i ==> j < other.path.len() && self.path@[j]@ == other.path@[j]@,
            decreases n - i,
        {
            if is_single_char(&self.path[i], '*') {
                let r = self.path.len() == other.path.len();
                proof {
                    if r {
                        assert forall|k: int|
                            0 <= k < self.segments().len() && (forall|j: int|
                                0 <= j <= k ==> self.segments()[j] != wildcard()) implies
                            #[trigger] self.segments()[k] == other.segments()[k] by {
                            if k >= i {
                                assert(self.segments()[i as int] == wildcard());
                            }
                        }
                    }
                }
                return r;
            }
            if i >= other.path.len() || self.path[i] != other.path[i] {
                proof {
                    if self.segments().len() == other.segments().len() {
                        assert(self.segments()[i as int] != other.segments()[i as int]);
                        assert(forall|j: int|
                            0 <= j <= i ==> self.segments()[j] != wildcard());
                    }
                }
                return false;
            }
            i = i + 1;
        }
        self.path.len() == other.path.len()
    }

    /// Appends a segment.
    pub fn push(&mut self, s: &str)
        ensures
            final(self).segments() == old(self).segments().push(s@),
            final(self).static_flag() == old(self).static_flag(),
    {
        let seg = owned(s);
        self.path.push(seg);
        assert(self.segments() =~= old(self).segments().push(s@));
    }

    /// Removes and returns the last segment, if any.
    pub fn pop(&mut self) -> (r: Option<String>)
        ensures
            old(self).segments().len() == 0 ==> r is None && final(self).segments() == old(
                self,
            ).segments(),
            old(self).segments().len() > 0 ==> r is Some && r->0@ == old(self).segments().last()
                && final(self).segments() == old(self).segments().drop_last(),
            final(self).static_flag() == old(self).static_flag(),
    {
        let r = self.path.pop();
        assert(self.segments() =~= old(self).segments().take(self.path@.len() as int));
        r
    }

    /// Whether the last segment is `*`.
    pub fn is_wildcard(&self) -> (b: bool)
        ensures
            b == (self.segments().len() > 0 && self.segments().last() == wildcard()),
    {
        let n = self.path.len();
        if n == 0 {
            false
        } else {
            is_single_char(&self.path[n - 1], '*')
        }
    }

    /// A copy of this path with one more segment.
    pub fn join(&self, seg: &str) -> (p: Package)
        ensures
            p.segments() == self.segments().push(seg@),
            p.static_flag() == self.static_flag(),
    {
        let mut c = Package { path: clone_strings(&self.path), is_static: self.is_static };
        c.push(seg);
        c
    }

    /// Whether the path came from a static import.
    pub fn is_static(&self) -> (b: bool)
        ensures
            b == self.static_flag(),
    {
        self.is_static
    }

    /// Clears the static mark.
    pub fn remove_static(&mut self)
        ensures
            final(self).segments() == old(self).segments(),
            !final(self).static_flag(),
    {
        self.is_static = false;
    }

    /// Whether two paths have the same segments and the same static mark.
    pub fn same_as(&self, other: &Package) -> (b: bool)
        ensures
            b == (self.segments() == other.segments() && self.static_flag()
                == other.static_flag()),
    {
        self.is_static == other.is_static && strings_eq(&self.path, &other.path)
    }

    /// The path written out: `static ` when it is a static import, then the
    /// segments joined with `.`.
    pub fn to_display_string(&self) -> (r: String)
        ensures
            r@ == (if self.static_flag() {
                seq!['s', 't', 'a', 't', 'i', 'c', ' ']
            } else {
                Seq::<char>::empty()
            }) + join_dots(self.segments()),
    {
        let mut r = String::new();
        if self.is_static {
            push_char(&mut r, 's');
            push_char(&mut r, 't');
            push_char(&mut r, 'a');
            push_char(&mut r, 't');
            push_char(&mut r, 'i');
            push_char(&mut r, 'c');
            push_char(&mut r, ' ');
        }
        let ghost prefix = r@;
        assert(prefix == (if self.static_flag() {
            seq!['s', 't', 'a', 't', 'i', 'c', ' ']
        } else {
            Seq::<char>::empty()
        }));
        let n = self.path.len();
        let mut i: usize = 0;
        while i < n
            invariant
                n == self.path.len(),
                i <= n,
                r@ == prefix + join_dots(self.segments().take(i as int)),
            decreases n - i,
        {
            if i > 0 {
                push_char(&mut r, '.');
            }
            r.append(self.path[i].as_str());
            proof {
                let t = self.segments().take(i + 1);
                assert(t.drop_last() =~= self.segments().take(i as int));
                assert(t.last() == self.path@[i as int]@);
                if i == 0 {
                    assert(t.len() == 1);
                }
            }
            i = i + 1;
        }
        assert(self.segments().take(n as int) =~= self.segments());
        r
    }
}

/// Every path includes itself.
pub proof fn lemma_includes_itself(p: Seq<Seq<char>>)
    ensures
        includes_spec(p, p),
{
}

/// A pattern only includes paths with as many segments as it has.
pub proof fn lemma_includes_same_length(pattern: Seq<Seq<char>>, other: Seq<Seq<char>>)
    requires
        includes_spec(pattern, other),
    ensures
        pattern.len() == other.len(),
{
}

/// A pattern without `*` includes exactly the path equal to it.
pub proof fn lemma_plain_pattern_exact(pattern: Seq<Seq<char>>, other: Seq<Seq<char>>)
    requires
        forall|i: int| 0 <= i < pattern.len() ==> pattern[i] != wildcard(),
    ensures
        includes_spec(pattern, other) <==> pattern == other,
{
    if includes_spec(pattern, other) {
        assert forall|i: int| 0 <= i < pattern.len() implies pattern[i] == other[i] by {
            assert(forall|j: int| 0 <= j <= i ==> pattern[j] != wildcard());
        }
        assert(pattern =~= other);
    }
}

/// `prefix.*` includes `prefix.x` for every segment `x`: the `*` stands for
/// exactly one segment.
pub proof fn lemma_wildcard_one_segment(prefix: Seq<Seq<char>>, x: Seq<char>)
    ensures
        includes_spec(prefix.push(wildcard()), prefix.push(x)),
{
    let p = prefix.push(wildcard());
    let o = prefix.push(x);
    assert forall|i: int|
        0 <= i < p.len() && (forall|j: int| 0 <= j <= i ==> p[j] != wildcard()) implies #[trigger] p[i]
        == o[i] by {
        if i == prefix.len() {
            assert(p[i] == wildcard());
        }
    }
}

} // verus!
