//! The annotation processors that a jar declares: the lines of its
//! `META-INF/services/javax.annotation.processing.Processor` file.

use vstd::prelude::*;
use vstd::string::*;
use crate::text::views;

verus! {

/// The service file that lists a jar's annotation processors.
pub const PROCESSOR_SERVICE_FILE: &'static str = "META-INF/services/javax.annotation.processing.Processor";

/// What the `zip` crate reads from the archive `archive` for the entry
/// `name`: its text; `Ok(None)` when the archive has no such entry; the
/// error's message when the archive or the entry cannot be read as text.
pub uninterp spec fn zip_entry_text(archive: Seq<u8>, name: Seq<char>) -> Result<Option<Seq<char>>, Seq<char>>;

/// The text of the entry `name` of a zip archive.
///
/// Trusted: opens the bytes with `zip::ZipArchive::new`, looks the entry up
/// with `ZipArchive::by_name` (`ZipError::FileNotFound` gives `Ok(None)`)
/// and reads it with `Read::read_to_string`; other errors give their
/// message. The contract claims only that the result is `zip_entry_text`
/// of the bytes and the name.
#[verifier::external_body]
fn read_zip_entry(archive: &Vec<u8>, name: &str) -> (r: Result<Option<String>, String>)
    ensures
        match r {
            Ok(Some(s)) => zip_entry_text(archive@, name@) == Ok::<Option<Seq<char>>, Seq<char>>(Some(s@)),
            Ok(None) => zip_entry_text(archive@, name@) == Ok::<Option<Seq<char>>, Seq<char>>(None),
            Err(m) => zip_entry_text(archive@, name@) == Err::<Option<Seq<char>>, Seq<char>>(m@),
        },
{
    let mut zip = match zip::ZipArchive::new(std::io::Cursor::new(archive.as_slice())) {
        Ok(z) => z,
        Err(e) => return Err(e.to_string()),
    };
    let mut file = match zip.by_name(name) {
        Ok(f) => f,
        Err(zip::result::ZipError::FileNotFound) => return Ok(None),
        Err(e) => return Err(e.to_string()),
    };
    let mut text = String::new();
    match std::io::Read::read_to_string(&mut file, &mut text) {
        Ok(_) => Ok(Some(text)),
        Err(e) => Err(e.to_string()),
    }
}

/// Position `i` holds the first `\n` of `s`.
pub open spec fn first_newline(s: Seq<char>, i: int) -> bool {
    &&& 0 <= i < s.len()
    &&& s[i] == '\n'
    &&& forall|j: int| 0 <= j < i ==> s[j] != '\n'
}

/// A line without the `\r` that ends it, if it ends with one.
pub open spec fn strip_cr(l: Seq<char>) -> Seq<char> {
    if l.len() > 0 && l.last() == '\r' {
        l.drop_last()
    } else {
        l
    }
}

/// The lines of a text, as `str::lines` documents them: lines end at `\n`
/// or `\r\n`, which are not part of them; the last line may lack an ending,
/// and a final ending adds no empty line; a `\r` not followed by `\n` stays.
pub open spec fn text_lines(s: Seq<char>) -> Seq<Seq<char>>
    decreases s.len(),
{
    if s.len() == 0 {
        Seq::<Seq<char>>::empty()
    } else if exists|i: int| first_newline(s, i) {
        let i = choose|i: int| first_newline(s, i);
        seq![strip_cr(s.subrange(0, i))] + text_lines(s.subrange(i + 1, s.len() as int))
    } else {
        seq![s]
    }
}

proof fn lemma_lines_at(t: Seq<char>, k: int)
    requires
        first_newline(t, k),
    ensures
        text_lines(t) == seq![strip_cr(t.subrange(0, k))] + text_lines(t.subrange(k + 1, t.len() as int)),
{
    let c = choose|i: int| first_newline(t, i);
    if c < k {
        assert(t[c] == '\n');
    } else if k < c {
        assert(t[k] == '\n');
    }
}

proof fn lemma_lines_last(t: Seq<char>)
    requires
        forall|j: int| 0 <= j < t.len() ==> t[j] != '\n',
    ensures
        text_lines(t) == (if t.len() == 0 { Seq::<Seq<char>>::empty() } else { seq![t] }),
{
    if exists|i: int| first_newline(t, i) {
        let c = choose|i: int| first_newline(t, i);
        assert(t[c] == '\n');
    }
}

/// The lines of a text (see `text_lines`).
pub(crate) fn lines_of(s: &str) -> (r: Vec<String>)
    ensures
        views(r@) == text_lines(s@),
{
    let n = s.unicode_len();
    let mut out: Vec<String> = Vec::new();
    let mut start: usize = 0;
    let mut i: usize = 0;
    assert(s@.subrange(0, n as int) =~= s@);
    assert(views(out@) =~= Seq::<Seq<char>>::empty());
    while i < n
        invariant
            n == s@.len(),
            start <= i <= n,
            forall|j: int| start <= j < i ==> s@[j] != '\n',
            text_lines(s@) == views(out@) + text_lines(s@.subrange(start as int, n as int)),
        decreases n - i,
    {
        if s.get_char(i) == '\n' {
            let ghost t = s@.subrange(start as int, n as int);
            let ghost k = i - start;
            assert(first_newline(t, k as int));
            proof {
                lemma_lines_at(t, k as int);
            }
            let end = if i > start && s.get_char(i - 1) == '\r' {
                i - 1
            } else {
                i
            };
            let line = s.substring_char(start, end).to_owned();
            assert(line@ =~= strip_cr(t.subrange(0, k as int)));
            assert(t.subrange(k + 1, t.len() as int) =~= s@.subrange(i + 1, n as int));
            let ghost before = views(out@);
            out.push(line);
            assert(views(out@) =~= before.push(line@));
            assert(views(out@) + text_lines(s@.subrange(i + 1, n as int)) =~= before + (seq![line@]
                + text_lines(s@.subrange(i + 1, n as int))));
            start = i + 1;
        }
        i = i + 1;
    }
    proof {
        lemma_lines_last(s@.subrange(start as int, n as int));
    }
    if start < n {
        let line = s.substring_char(start, n).to_owned();
        let ghost before = views(out@);
        out.push(line);
        assert(views(out@) =~= before.push(line@));
        assert(views(out@) =~= before + seq![s@.subrange(start as int, n as int)]);
    } else {
        assert(views(out@) + Seq::<Seq<char>>::empty() =~= views(out@));
    }
    out
}

/// `c` has the Unicode `White_Space` property, the whitespace of
/// `char::is_whitespace` (and so of `str::trim`).
pub open spec fn is_white_space(c: char) -> bool {
    let u = c as u32;
    (0x9 <= u && u <= 0xd) || u == 0x20 || u == 0x85 || u == 0xa0 || u == 0x1680 || (0x2000 <= u && u <= 0x200a)
        || u == 0x2028 || u == 0x2029 || u == 0x202f || u == 0x205f || u == 0x3000
}

/// Position `i` holds the first character of `s` that is not whitespace.
pub open spec fn first_solid(s: Seq<char>, i: int) -> bool {
    &&& 0 <= i < s.len()
    &&& !is_white_space(s[i])
    &&& forall|j: int| 0 <= j < i ==> is_white_space(s[j])
}

/// Position `i` holds the last character of `s` that is not whitespace.
pub open spec fn last_solid(s: Seq<char>, i: int) -> bool {
    &&& 0 <= i < s.len()
    &&& !is_white_space(s[i])
    &&& forall|j: int| i < j < s.len() ==> is_white_space(s[j])
}

/// `s` without leading and trailing whitespace, as `str::trim` gives it:
/// from its first character that is not whitespace to its last one; empty
/// when it is all whitespace.
pub open spec fn trim_text(s: Seq<char>) -> Seq<char> {
    if exists|i: int| first_solid(s, i) {
        s.subrange(choose|i: int| first_solid(s, i), (choose|i: int| last_solid(s, i)) + 1)
    } else {
        Seq::<char>::empty()
    }
}

fn white_space(c: char) -> (b: bool)
    ensures
        b == is_white_space(c),
{
    let u = c as u32;
    (0x9 <= u && u <= 0xd) || u == 0x20 || u == 0x85 || u == 0xa0 || u == 0x1680 || (0x2000 <= u && u <= 0x200a)
        || u == 0x2028 || u == 0x2029 || u == 0x202f || u == 0x205f || u == 0x3000
}

/// A text without leading and trailing whitespace (see `trim_text`).
fn trimmed(s: &str) -> (r: String)
    ensures
        r@ == trim_text(s@),
{
    let n = s.unicode_len();
    let mut a: usize = 0;
    while a < n && white_space(s.get_char(a))
        invariant
            n == s@.len(),
            a <= n,
            forall|j: int| 0 <= j < a ==> is_white_space(s@[j]),
        decreases n - a,
    {
        a = a + 1;
    }
    if a == n {
        proof {
            if exists|i: int| first_solid(s@, i) {
                let i = choose|i: int| first_solid(s@, i);
                assert(is_white_space(s@[i]));
            }
        }
        return String::new();
    }
    let mut b: usize = n - 1;
    while white_space(s.get_char(b))
        invariant
            n == s@.len(),
            a <= b < n,
            !is_white_space(s@[a as int]),
            forall|j: int| b < j < n ==> is_white_space(s@[j]),
        decreases b,
    {
        b = b - 1;
    }
    proof {
        assert(first_solid(s@, a as int));
        assert(last_solid(s@, b as int));
        let i = choose|i: int| first_solid(s@, i);
        let k = choose|k: int| last_solid(s@, k);
        if i < a {
            assert(is_white_space(s@[i]));
        } else if a < i {
            assert(is_white_space(s@[a as int]));
        }
        if k < b {
            assert(is_white_space(s@[b as int]));
        } else if b < k {
            assert(is_white_space(s@[k]));
        }
    }
    s.substring_char(a, b + 1).to_owned()
}

/// The trimmed lines among the first `upto` that are neither empty nor
/// comments (starting with `#`), in order.
pub open spec fn processor_lines(lines: Seq<Seq<char>>, upto: int) -> Seq<Seq<char>>
    decreases upto,
{
    if upto <= 0 {
        Seq::<Seq<char>>::empty()
    } else {
        let r = processor_lines(lines, upto - 1);
        let t = trim_text(lines[upto - 1]);
        if t.len() > 0 && t[0] != '#' {
            r.push(t)
        } else {
            r
        }
    }
}

/// The annotation processors a jar declares: the entries of its processor
/// service file (none when it has no such file); the message of the error
/// met when the jar cannot be read.
pub open spec fn declared_processors(archive: Seq<u8>) -> Result<Seq<Seq<char>>, Seq<char>> {
    match zip_entry_text(archive, PROCESSOR_SERVICE_FILE@) {
        Err(m) => Err(m),
        Ok(None) => Ok(Seq::<Seq<char>>::empty()),
        Ok(Some(text)) => Ok(processor_lines(text_lines(text), text_lines(text).len() as int)),
    }
}

/// The annotation processors that a jar declares (see
/// `declared_processors`).
pub fn process_annotations(bin: &Vec<u8>) -> (r: Result<Vec<String>, String>)
    ensures
        match declared_processors(bin@) {
            Ok(l) => (r matches Ok(v) && views(v@) == l),
            Err(m) => (r matches Err(e) && e@ == m),
        },
{
    let text = match read_zip_entry(bin, PROCESSOR_SERVICE_FILE) {
        Err(m) => {
            return Err(m);
        },
        Ok(None) => {
            let v: Vec<String> = Vec::new();
            assert(views(v@) =~= Seq::<Seq<char>>::empty());
            return Ok(v);
        },
        Ok(Some(t)) => t,
    };
    let lines = lines_of(text.as_str());
    let ghost lv = views(lines@);
    let mut out: Vec<String> = Vec::new();
    let mut i: usize = 0;
    while i < lines.len()
        invariant
            lv == views(lines@),
            i <= lines@.len(),
            views(out@) == processor_lines(lv, i as int),
        decreases lines@.len() - i,
    {
        let t = trimmed(lines[i].as_str());
        let n = t.as_str().unicode_len();
        if n > 0 && t.as_str().get_char(0) != '#' {
            let ghost before = out@;
            let ghost tv = t@;
            out.push(t);
            assert(views(out@) =~= views(before).push(tv));
        }
        i = i + 1;
    }
    Ok(out)
}

} // verus!
