# lazy_java

A build tool for plain Java projects: it keeps a lock file of Maven
dependencies in line with the project's `lazy-java.toml`, downloads the jars,
works out which sources must be compiled again, runs `javac` and `jar`, and
copies resources.

## Layout

- `src/` — the library, verified with Verus. The decisions the tool takes are
  here with their contracts (the app only walks folders, reads and writes files,
  and runs the tools): the lock file and its garbage collection, the
  dependency merge by Maven version, the config's dependency lists and their
  edits, the source dependency graph and the stale-file closure, the `javac`
  command line, the jar manifest, the POM written for Maven and the config
  read from one, resource selection, and the error reports.
  Proof functions named `lemma_*` state the laws the operations keep.
- `tests/` — tests of the library on concrete values.
- `app/` — the command line and everything that touches the file system, the
  network or other processes. It reads and writes files, runs `javac`, `jar`
  and `git`, and hands plain values to the library.
