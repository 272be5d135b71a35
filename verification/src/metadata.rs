//! What the build remembers between runs, and the decisions taken from it:
//! which sources changed since the last build, and whether everything must
//! be compiled again.

use vstd::prelude::*;
use std::hash::{DefaultHasher, Hasher};
use vstd::bytes::{spec_u64_to_le_bytes, u64_to_le_bytes};
use vstd::std_specs::hash::DefaultHasherAdditionalSpecFns;
use vstd::utf8::encode_utf8;
use crate::maven::Scope;
use crate::text::views;
use crate::config::{ConfigTomlEdit, LocalPathFacts, dependency_tables, local_list};
use crate::errors::ConfigError;

verus! {

/// The record of the last build. Times are nanoseconds since the Unix
/// epoch.
#[derive(Debug)]
pub struct BuildMetadata {
    pub time_stamp: u128,
    pub java_version: String,
    pub src: String,
    pub lib_hash: u64,
    pub lib_annotations_hash: u64,
    pub bin_hash: u64,
    pub local_libs_hash: u64,
    pub build_passed: bool,
}

/// The time now, in nanoseconds since the Unix epoch; `None` when the clock
/// reads an earlier time.
///
/// Trusted: calls `std::time::SystemTime::now` and
/// `SystemTime::duration_since(UNIX_EPOCH)`. Nothing is claimed of the
/// result: it is the machine's clock.
#[verifier::external_body]
fn clock_now() -> (r: Option<u128>) {
    match std::time::SystemTime::now().duration_since(std::time::UNIX_EPOCH) {
        Ok(d) => Some(d.as_nanos()),
        Err(_) => None,
    }
}

impl BuildMetadata {
    /// A record for a project that was never built: stamped with the time
    /// now (the epoch when the clock reads earlier), no Java version or
    /// source folder, every hash zero, and not passed.
    pub fn new() -> (m: BuildMetadata)
        ensures
            m.java_version@ == Seq::<char>::empty(),
            m.src@ == Seq::<char>::empty(),
            m.lib_hash == 0,
            m.lib_annotations_hash == 0,
            m.bin_hash == 0,
            m.local_libs_hash == 0,
            !m.build_passed,
    {
        let time_stamp = match clock_now() {
            Some(t) => t,
            None => 0,
        };
        BuildMetadata {
            time_stamp,
            java_version: String::new(),
            src: String::new(),
            lib_hash: 0,
            lib_annotations_hash: 0,
            bin_hash: 0,
            local_libs_hash: 0,
            build_passed: false,
        }
    }
}

/// A source file and when it was last modified.
#[derive(Debug)]
pub struct FileStamp {
    pub path: String,
    pub modified: u128,
}

/// The paths of the files modified after `time`, in order.
pub open spec fn modified_after(files: Seq<FileStamp>, time: u128) -> Seq<Seq<char>>
    decreases files.len(),
{
    if files.len() == 0 {
        Seq::<Seq<char>>::empty()
    } else {
        let r = modified_after(files.drop_last(), time);
        if files.last().modified > time {
            r.push(files.last().path@)
        } else {
            r
        }
    }
}

/// The source files modified since the last build, in the order given.
pub fn find_modified_files(build: &BuildMetadata, files: &Vec<FileStamp>) -> (r: Vec<String>)
    ensures
        views(r@) == modified_after(files@, build.time_stamp),
{
    let mut r: Vec<String> = Vec::new();
    let mut i: usize = 0;
    while i < files.len()
        invariant
            i <= files@.len(),
            views(r@) == modified_after(files@.take(i as int), build.time_stamp),
        decreases files@.len() - i,
    {
        let ghost before = r@;
        assert(files@.take(i + 1).drop_last() =~= files@.take(i as int));
        if files[i].modified > build.time_stamp {
            let p = files[i].path.clone();
            r.push(p);
            assert(views(r@) =~= views(before).push(p@));
        }
        i = i + 1;
    }
    assert(files@.take(files@.len() as int) =~= files@);
    r
}

/// What the build measures of the project now: the hashes of the library
/// folders and of the local jars, the Java version it compiles for, and
/// whether the source folder is the one of the last build.
#[derive(Debug)]
pub struct BuildFingerprint {
    pub lib_hash: u64,
    pub lib_annotations_hash: u64,
    pub local_libs_hash: u64,
    pub java_version: String,
    pub same_src: bool,
}

/// Whether every source must be compiled again: when there is no record of
/// a last build, when asked to, or when the libraries, the local jars, the
/// Java version or the source folder changed since.
pub fn required_full_build(build_all: bool, meta: Option<&BuildMetadata>, now: &BuildFingerprint) -> (r: bool)
    ensures
        r == match meta {
            None => true,
            Some(m) => build_all || now.lib_hash != m.lib_hash || now.lib_annotations_hash
                != m.lib_annotations_hash || m.java_version@ != now.java_version@ || !now.same_src
                || now.local_libs_hash != m.local_libs_hash,
        },
{
    match meta {
        None => true,
        Some(m) => {
            let lib_hash_match = now.lib_hash == m.lib_hash;
            let lib_annotations_hash_match = now.lib_annotations_hash == m.lib_annotations_hash;
            let local_hash_match = now.local_libs_hash == m.local_libs_hash;
            let version_match = m.java_version == now.java_version;
            build_all || !lib_hash_match || !lib_annotations_hash_match || !version_match
                || !now.same_src || !local_hash_match
        },
    }
}

/// The record to keep after a build that ended at `now`: a build that
/// failed keeps the time of the last record (the epoch when there is none),
/// so that its sources count as modified again; the Java version, source
/// folder and hashes are those of this build.
pub fn metadata_after_build(
    passed: bool,
    previous: Option<&BuildMetadata>,
    now: u128,
    java_version: &str,
    src: &String,
    lib_hash: u64,
    lib_annotations_hash: u64,
    bin_hash: u64,
    local_libs_hash: u64,
) -> (m: BuildMetadata)
    ensures
        m.time_stamp == (if passed {
            now
        } else {
            match previous {
                Some(p) => p.time_stamp,
                None => 0,
            }
        }),
        m.java_version@ == java_version@,
        m.src@ == src@,
        m.lib_hash == lib_hash,
        m.lib_annotations_hash == lib_annotations_hash,
        m.bin_hash == bin_hash,
        m.local_libs_hash == local_libs_hash,
        m.build_passed == passed,
{
    let time_stamp = if !passed {
        match previous {
            Some(p) => p.time_stamp,
            None => 0,
        }
    } else {
        now
    };
    BuildMetadata {
        time_stamp,
        java_version: crate::text::owned(java_version),
        lib_hash,
        lib_annotations_hash,
        bin_hash,
        local_libs_hash,
        build_passed: passed,
        src: src.clone(),
    }
}

/// A byte string as it is fed to the hasher: its length as eight
/// little-endian bytes, then the bytes themselves.
pub open spec fn framed(bytes: Seq<u8>) -> Seq<Seq<u8>> {
    seq![spec_u64_to_le_bytes(bytes.len() as u64), bytes]
}

/// The bytes of optional file contents.
pub open spec fn content_views(contents: Seq<Option<Vec<u8>>>) -> Seq<Option<Seq<u8>>> {
    contents.map_values(|c: Option<Vec<u8>>| match c {
        Some(b) => Some(b@),
        None => None,
    })
}

/// What the files hash feeds its hasher for the first `upto` files: each
/// path's UTF-8 bytes, framed, then the file's bytes, framed, when it could
/// be read.
pub open spec fn files_feed(paths: Seq<Seq<char>>, contents: Seq<Option<Seq<u8>>>, upto: int) -> Seq<Seq<u8>>
    decreases upto,
{
    if upto <= 0 {
        Seq::<Seq<u8>>::empty()
    } else {
        let with_path = files_feed(paths, contents, upto - 1) + framed(encode_utf8(paths[upto - 1]));
        match contents[upto - 1] {
            Some(b) => with_path + framed(b),
            None => with_path,
        }
    }
}

/// Feeds a byte string to the hasher, framed (see `framed`).
fn feed_framed(hasher: &mut DefaultHasher, bytes: &[u8])
    ensures
        final(hasher)@ == old(hasher)@ + framed(bytes@),
{
    let len = u64_to_le_bytes(bytes.len() as u64);
    hasher.write(len.as_slice());
    hasher.write(bytes);
    assert(final(hasher)@ =~= old(hasher)@ + framed(bytes@));
}

/// A hash of a set of files by their paths and contents, fed to one hasher
/// (see `files_feed`); `contents[i]` is `None` for a file that could not be
/// read.
pub fn hash_files(paths: &Vec<String>, contents: &Vec<Option<Vec<u8>>>) -> (h: u64)
    requires
        contents@.len() == paths@.len(),
    ensures
        h == DefaultHasher::spec_finish(files_feed(views(paths@), content_views(contents@), paths@.len() as int)),
{
    let ghost pv = views(paths@);
    let ghost cv = content_views(contents@);
    let mut hasher = DefaultHasher::new();
    let mut i: usize = 0;
    while i < paths.len()
        invariant
            i <= paths@.len(),
            contents@.len() == paths@.len(),
            pv == views(paths@),
            cv == content_views(contents@),
            hasher@ == files_feed(pv, cv, i as int),
        decreases paths@.len() - i,
    {
        let path = paths[i].as_str();
        assert(pv[i as int] == path@);
        feed_framed(&mut hasher, path.as_bytes());
        match &contents[i] {
            Some(bytes) => {
                assert(cv[i as int] == Some(bytes@));
                feed_framed(&mut hasher, bytes.as_slice());
            },
            None => {
                assert(cv[i as int] is None);
            },
        }
        i = i + 1;
    }
    hasher.finish()
}

/// A hash of the local jars the config names, by their resolved paths and
/// contents, so that a change to one of them asks for a full build;
/// `contents[i]` holds the bytes of the `i`-th jar of
/// `ConfigTomlEdit::local_package_list` (`None` when it could not be read).
/// Fails as that list does.
pub fn hash_local_libs(
    config: &ConfigTomlEdit,
    facts: &Vec<LocalPathFacts>,
    contents: &Vec<Option<Vec<u8>>>,
) -> (r: Result<u64, ConfigError>)
    requires
        facts@.len() == dependency_tables(*config).len(),
        local_list(dependency_tables(*config), facts@, dependency_tables(*config).len() as int) is Ok
            ==> contents@.len() == local_list(
            dependency_tables(*config),
            facts@,
            dependency_tables(*config).len() as int,
        )->Ok_0.len(),
    ensures
        r is Ok <==> local_list(dependency_tables(*config), facts@, dependency_tables(*config).len() as int) is Ok,
        r matches Err(e) ==> e@ == local_list(
            dependency_tables(*config),
            facts@,
            dependency_tables(*config).len() as int,
        )->Err_0,
        r matches Ok(h) ==> h == DefaultHasher::spec_finish(
            files_feed(
                local_list(dependency_tables(*config), facts@, dependency_tables(*config).len() as int)->Ok_0.map_values(
                    |x: (Seq<char>, Option<Scope>)| x.0,
                ),
                content_views(contents@),
                contents@.len() as int,
            ),
        ),
{
    let deps = match config.local_package_list(facts) {
        Ok(d) => d,
        Err(e) => {
            return Err(e);
        },
    };
    let mut paths: Vec<String> = Vec::new();
    let mut i: usize = 0;
    let ghost lv = crate::config::local_root_views(deps@).map_values(|x: (Seq<char>, Option<Scope>)| x.0);
    while i < deps.len()
        invariant
            i <= deps@.len(),
            paths@.len() == i,
            lv == crate::config::local_root_views(deps@).map_values(|x: (Seq<char>, Option<Scope>)| x.0),
            forall|j: int| 0 <= j < i ==> paths@[j]@ == lv[j],
        decreases deps@.len() - i,
    {
        paths.push(deps[i].path.clone());
        i = i + 1;
    }
    assert(deps@.len() == crate::config::local_root_views(deps@).len());
    assert(views(paths@) =~= lv);
    Ok(hash_files(&paths, contents))
}

/// An entry met while walking a folder (the folder itself first, then its
/// contents by file name): its size when its metadata could be read, and its
/// path relative to the folder when that could be taken.
#[derive(Debug)]
pub struct WalkEntry {
    pub len: Option<u64>,
    pub relative: Option<String>,
}

/// What the folder hash feeds its hasher for the first `upto` entries: each
/// entry's size as eight little-endian bytes, when known, then its relative
/// path's UTF-8 bytes, framed, when known.
pub open spec fn walk_feed(entries: Seq<WalkEntry>, upto: int) -> Seq<Seq<u8>>
    decreases upto,
{
    if upto <= 0 {
        Seq::<Seq<u8>>::empty()
    } else {
        let e = entries[upto - 1];
        let with_len = match e.len {
            Some(l) => walk_feed(entries, upto - 1).push(spec_u64_to_le_bytes(l)),
            None => walk_feed(entries, upto - 1),
        };
        match e.relative {
            Some(p) => with_len + framed(encode_utf8(p@)),
            None => with_len,
        }
    }
}

/// A hash of a folder by the sizes and relative paths of its entries, fed
/// to one hasher in walking order (see `walk_feed`); a change of the
/// folder's contents asks for a full build.
pub fn hash_directory(entries: &Vec<WalkEntry>) -> (h: u64)
    ensures
        h == DefaultHasher::spec_finish(walk_feed(entries@, entries@.len() as int)),
{
    let mut hasher = DefaultHasher::new();
    let mut i: usize = 0;
    while i < entries.len()
        invariant
            i <= entries@.len(),
            hasher@ == walk_feed(entries@, i as int),
        decreases entries@.len() - i,
    {
        match entries[i].len {
            Some(len) => {
                let bytes = u64_to_le_bytes(len);
                hasher.write(bytes.as_slice());
            },
            None => {},
        }
        match &entries[i].relative {
            Some(path) => feed_framed(&mut hasher, path.as_str().as_bytes()),
            None => {},
        }
        i = i + 1;
    }
    hasher.finish()
}

} // verus!
