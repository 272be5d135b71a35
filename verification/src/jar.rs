//! Packaging the compiled classes as a jar: the class to start, and the
//! manifest that names it and the libraries on the class path.

use vstd::prelude::*;
use vstd::string::*;
use crate::errors::BuildError;
use crate::text::{owned, push_char};

verus! {

/// The class a jar starts: the one given on the command line, else the
/// config's main class; fails with `NoMainClass` when neither is given.
pub fn entry_point(given: &Option<String>, config_main: &Option<String>) -> (r: Result<String, BuildError>)
    ensures
        match given {
            Some(g) => (r matches Ok(s) && s@ == g@),
            None => match config_main {
                Some(c) => (r matches Ok(s) && s@ == c@),
                None => r matches Err(BuildError::NoMainClass),
            },
        },
{
    if let Some(point) = given {
        return Ok(point.clone());
    }
    if let Some(point) = config_main {
        return Ok(point.clone());
    }
    Err(BuildError::NoMainClass)
}

/// The number of bytes a character takes in UTF-8.
pub open spec fn char_bytes(c: char) -> nat {
    if (c as u32) < 0x80 {
        1
    } else if (c as u32) < 0x800 {
        2
    } else if (c as u32) < 0x10000 {
        3
    } else {
        4
    }
}

/// The number of bytes a text takes in UTF-8.
pub open spec fn utf8_len(s: Seq<char>) -> nat
    decreases s.len(),
{
    if s.len() == 0 {
        0
    } else {
        utf8_len(s.drop_last()) + char_bytes(s.last())
    }
}

proof fn lemma_utf8_len_bound(s: Seq<char>)
    ensures
        utf8_len(s) <= 4 * s.len(),
    decreases s.len(),
{
    if s.len() > 0 {
        lemma_utf8_len_bound(s.drop_last());
    }
}

/// The number of bytes a text takes in UTF-8.
fn byte_len(s: &str) -> (n: u128)
    ensures
        n == utf8_len(s@),
{
    let len = s.unicode_len();
    let mut n: u128 = 0;
    let mut i: usize = 0;
    while i < len
        invariant
            len == s@.len(),
            i <= len,
            n == utf8_len(s@.take(i as int)),
            n <= 4 * i,
        decreases len - i,
    {
        let c = s.get_char(i);
        assert(s@.take(i + 1).drop_last() =~= s@.take(i as int));
        let code = c as u32;
        let b: u128 = if code < 0x80 {
            1
        } else if code < 0x800 {
            2
        } else if code < 0x10000 {
            3
        } else {
            4
        };
        n = n + b;
        i = i + 1;
    }
    assert(s@.take(len as int) =~= s@);
    n
}

/// The `Class-Path` value for the first `upto` entries, wrapped as the
/// manifest format asks (lines of at most 72 bytes, a continuation line
/// starting with a space), with the byte length of its last line; each
/// entry is followed by a space. The first line starts after the 12 bytes
/// of `Class-Path: `.
pub open spec fn wrapped_class_path(entries: Seq<Seq<char>>, upto: int) -> (Seq<char>, int)
    decreases upto,
{
    if upto <= 0 {
        (Seq::<char>::empty(), 12)
    } else {
        let (text, line) = wrapped_class_path(entries, upto - 1);
        let e = entries[upto - 1];
        let len = utf8_len(e) + 1;
        if line + len > 72 {
            (text + seq!['\n', ' '] + e + seq![' '], (1 + utf8_len(e)) as int)
        } else {
            (text + e + seq![' '], line + len)
        }
    }
}

/// The manifest of a plain jar: its version, its main class, and, when
/// there are libraries, their paths relative to the target folder as the
/// class path; it ends with an empty line.
pub open spec fn manifest_spec(entry_point: Seq<char>, class_path: Seq<Seq<char>>) -> Seq<char> {
    "Manifest-Version: 1.0\nMain-Class: "@ + entry_point + seq!['\n'] + (if class_path.len() > 0 {
        "Class-Path: "@ + wrapped_class_path(class_path, class_path.len() as int).0 + seq!['\n']
    } else {
        Seq::<char>::empty()
    }) + seq!['\n']
}

/// The manifest of a plain jar (see `manifest_spec`).
pub fn build_manifest(entry_point: &str, class_path: &Vec<String>) -> (r: String)
    ensures
        r@ == manifest_spec(entry_point@, crate::text::views(class_path@)),
{
    let ghost cp = crate::text::views(class_path@);
    let mut manifest = owned("Manifest-Version: 1.0\nMain-Class: ");
    manifest.append(entry_point);
    push_char(&mut manifest, '\n');
    let ghost head = manifest@;
    if class_path.len() > 0 {
        manifest.append("Class-Path: ");
        let ghost start = manifest@;
        let mut line_len: u128 = 12;
        let mut i: usize = 0;
        while i < class_path.len()
            invariant
                cp == crate::text::views(class_path@),
                i <= class_path@.len(),
                manifest@ == start + wrapped_class_path(cp, i as int).0,
                line_len == wrapped_class_path(cp, i as int).1,
                1 <= line_len,
                line_len <= 2 + 4 * 0xffff_ffff_ffff_ffffu128,
            decreases class_path@.len() - i,
        {
            let entry = class_path[i].as_str();
            let n = byte_len(entry);
            let chars = entry.unicode_len();
            proof {
                lemma_utf8_len_bound(entry@);
            }
            let entry_len = n + 1;
            if line_len + entry_len > 72 {
                push_char(&mut manifest, '\n');
                push_char(&mut manifest, ' ');
                line_len = 1 + n;
            } else {
                line_len = line_len + entry_len;
            }
            manifest.append(entry);
            push_char(&mut manifest, ' ');
            assert(cp[i as int] == entry@);
            i = i + 1;
        }
        push_char(&mut manifest, '\n');
    }
    push_char(&mut manifest, '\n');
    proof {
        reveal_strlit("Manifest-Version: 1.0\nMain-Class: ");
        reveal_strlit("Class-Path: ");
    }
    manifest
}

} // verus!
