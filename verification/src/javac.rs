//! The arguments the build hands to `javac`: output folder, class path,
//! processor path, folder for generated sources, release, extra flags and
//! the sources to compile.

use vstd::prelude::*;
use crate::lock_file::LockFile;
use crate::lock_query::{compile_scopes, local_paths, remote_paths};
use crate::text::{clone_strings, owned, views};

verus! {

/// The separator between entries of a class path.
pub const JAVAC_SEPARATOR: char = ':';

/// `flag` followed by its value, when there is a value.
pub open spec fn flag_pair(flag: Seq<char>, value: Option<&str>) -> Seq<Seq<char>> {
    match value {
        Some(v) => seq![flag, v@],
        None => Seq::<Seq<char>>::empty(),
    }
}

/// The arguments of a `javac` call, in order: `-d`, `-classpath`,
/// `-processorpath`, `-s` and `--release` each with its value when given,
/// then the extra arguments, then the source files.
pub open spec fn javac_arguments(
    output_dir: Option<&str>,
    classpath: Option<&str>,
    processorpath: Option<&str>,
    src_generated_dir: Option<&str>,
    release: Option<&str>,
    javac_args: Seq<Seq<char>>,
    source_files: Seq<Seq<char>>,
) -> Seq<Seq<char>> {
    flag_pair("-d"@, output_dir) + flag_pair("-classpath"@, classpath) + flag_pair(
        "-processorpath"@,
        processorpath,
    ) + flag_pair("-s"@, src_generated_dir) + flag_pair("--release"@, release) + javac_args
        + source_files
}

/// Appends `flag` and its value, when there is a value.
fn push_flag(args: &mut Vec<String>, flag: &str, value: Option<&str>)
    ensures
        views(final(args)@) == views(old(args)@) + flag_pair(flag@, value),
{
    match value {
        Some(v) => {
            let ghost before = views(args@);
            args.push(owned(flag));
            args.push(owned(v));
            assert(views(args@) =~= before + seq![flag@, v@]);
        },
        None => {
            assert(views(args@) =~= views(args@) + Seq::<Seq<char>>::empty());
        },
    }
}

/// Appends every string of `more`.
fn push_all(args: &mut Vec<String>, more: &Vec<String>)
    ensures
        views(final(args)@) == views(old(args)@) + views(more@),
{
    let mut extra = clone_strings(more);
    let ghost before = views(args@);
    args.append(&mut extra);
    assert(views(args@) =~= before + views(more@));
}

/// The arguments of a `javac` call (see `javac_arguments`).
pub fn compile_command(
    output_dir: Option<&str>,
    classpath: Option<&str>,
    processorpath: Option<&str>,
    src_generated_dir: Option<&str>,
    release: Option<&str>,
    javac_args: &Vec<String>,
    source_files: &Vec<String>,
) -> (r: Vec<String>)
    ensures
        views(r@) == javac_arguments(
            output_dir,
            classpath,
            processorpath,
            src_generated_dir,
            release,
            views(javac_args@),
            views(source_files@),
        ),
{
    let mut args: Vec<String> = Vec::new();
    assert(views(args@) =~= Seq::<Seq<char>>::empty());
    push_flag(&mut args, "-d", output_dir);
    push_flag(&mut args, "-classpath", classpath);
    push_flag(&mut args, "-processorpath", processorpath);
    push_flag(&mut args, "-s", src_generated_dir);
    push_flag(&mut args, "--release", release);
    push_all(&mut args, javac_args);
    push_all(&mut args, source_files);
    assert(views(args@) =~= javac_arguments(
        output_dir,
        classpath,
        processorpath,
        src_generated_dir,
        release,
        views(javac_args@),
        views(source_files@),
    ));
    args
}

/// The entries joined, with `sep` between each two.
pub open spec fn joined_with(sep: char, items: Seq<Seq<char>>) -> Seq<char>
    decreases items.len(),
{
    if items.len() == 0 {
        Seq::<char>::empty()
    } else if items.len() == 1 {
        items[0]
    } else {
        joined_with(sep, items.drop_last()) + seq![sep] + items.last()
    }
}

/// The entries joined, with `sep` between each two.
pub fn join_with(sep: char, items: &Vec<String>) -> (r: String)
    ensures
        r@ == joined_with(sep, views(items@)),
{
    let mut r = String::new();
    let mut i: usize = 0;
    while i < items.len()
        invariant
            i <= items@.len(),
            r@ == joined_with(sep, views(items@).take(i as int)),
        decreases items@.len() - i,
    {
        assert(views(items@).take(i + 1).drop_last() =~= views(items@).take(i as int));
        if i > 0 {
            crate::text::push_char(&mut r, sep);
        } else {
            assert(views(items@).take(0) =~= Seq::<Seq<char>>::empty());
        }
        r.append(items[i].as_str());
        i = i + 1;
    }
    assert(views(items@).take(items@.len() as int) =~= views(items@));
    r
}

/// The class path of the main compile: the processors' class folder, the
/// class folder, then every compile-time jar of the lock file.
pub open spec fn compile_classpath(lock: &LockFile, bin_processors: Seq<char>, bin: Seq<char>) -> Seq<char> {
    joined_with(
        JAVAC_SEPARATOR,
        seq![bin_processors, bin] + remote_paths(lock.remote(), compile_scopes(), false) + local_paths(
            lock.local(),
            compile_scopes(),
            false,
        ),
    )
}

/// The processor path of the main compile: every compile-time jar that
/// holds an annotation processor, then the processors' class folder.
pub open spec fn compile_processorpath(lock: &LockFile, bin_processors: Seq<char>) -> Seq<char> {
    joined_with(
        JAVAC_SEPARATOR,
        remote_paths(lock.remote(), compile_scopes(), true) + local_paths(lock.local(), compile_scopes(), true)
            + seq![bin_processors],
    )
}

/// The full argument list of the main compile: output into `dest`, the
/// class path and processor path above, generated sources into
/// `src_generated`, the release when given, the extra arguments, then the
/// sources, followed by the generated sources already there when asked.
pub fn compile_java_arguments(
    sources: &Vec<String>,
    dest: &String,
    bin: &String,
    bin_processors: &String,
    src_generated: &String,
    generated_sources: &Vec<String>,
    compile_generated_source: bool,
    lock: &LockFile,
    javac_args: &Vec<String>,
    release: Option<&str>,
) -> (r: Vec<String>)
    ensures
        views(r@) == seq![
            "-d"@,
            dest@,
            "-classpath"@,
            compile_classpath(lock, bin_processors@, bin@),
            "-processorpath"@,
            compile_processorpath(lock, bin_processors@),
            "-s"@,
            src_generated@,
        ] + flag_pair("--release"@, release) + views(javac_args@) + views(sources@) + (if compile_generated_source {
            views(generated_sources@)
        } else {
            Seq::<Seq<char>>::empty()
        }),
{
    let mut cp: Vec<String> = Vec::new();
    cp.push(bin_processors.clone());
    cp.push(bin.clone());
    let libs = lock.compile_time_packages();
    assert(views(cp@) =~= seq![bin_processors@, bin@]);
    push_all(&mut cp, &libs);
    let mut pp = lock.processor_compile_time_packages();
    let ghost ppv = views(pp@);
    pp.push(bin_processors.clone());
    assert(views(pp@) =~= ppv + seq![bin_processors@]);
    let classpath = join_with(JAVAC_SEPARATOR, &cp);
    let processorpath = join_with(JAVAC_SEPARATOR, &pp);
    let mut files = clone_strings(sources);
    if compile_generated_source {
        push_all(&mut files, generated_sources);
    } else {
        assert(views(files@) =~= views(sources@) + Seq::<Seq<char>>::empty());
    }
    assert(views(cp@) =~= seq![bin_processors@, bin@] + remote_paths(lock.remote(), compile_scopes(), false)
        + local_paths(lock.local(), compile_scopes(), false));
    assert(classpath@ == compile_classpath(lock, bin_processors@, bin@));
    assert(processorpath@ == compile_processorpath(lock, bin_processors@));
    let r = compile_command(
        Some(dest.as_str()),
        Some(classpath.as_str()),
        Some(processorpath.as_str()),
        Some(src_generated.as_str()),
        release,
        javac_args,
        &files,
    );
    assert(views(r@) =~= seq![
        "-d"@,
        dest@,
        "-classpath"@,
        compile_classpath(lock, bin_processors@, bin@),
        "-processorpath"@,
        compile_processorpath(lock, bin_processors@),
        "-s"@,
        src_generated@,
    ] + flag_pair("--release"@, release) + views(javac_args@) + views(sources@) + (if compile_generated_source {
        views(generated_sources@)
    } else {
        Seq::<Seq<char>>::empty()
    }));
    r
}

} // verus!
