//! The project's config file, `lazy-java.toml`: its sections as read, and
//! the dependency lists the rest of the tool derives from it.

use vstd::prelude::*;
use crate::errors::{ConfigError, ConfigErrorView};
use crate::lock_file::{LocalRootPackage, LockFile, LockFilePackageLocal, LockFilePackageRemote};
use crate::lock_sync::{holds_local_path, local_paths, missing_local_roots, pair_paths, RootEntry, entry_key, kept_locals, local_root_paths, resolved_views_of, root_keys, synced_remote};
use crate::lock_file::local_views;
use crate::lock_gc::collect_garbage;
use crate::maven::{PartialMavenId, Scope};
use crate::text::owned;

verus! {

/// The name of the config file in the project root.
pub const CONFIG_FILE_NAME: &'static str = "lazy-java.toml";

/// How an annotation processor is given.
#[derive(Debug, Clone, Copy, PartialEq, Eq, Structural)]
pub enum ProcessorType {
    Annotation,
    Processor,
}

/// An annotation processor that the project builds itself.
#[derive(Debug)]
pub struct ConfigProcessorDefinition {
    pub kind: ProcessorType,
    pub path: String,
    pub package: String,
}

/// A processor table as written in the config: any key may be missing.
#[derive(Debug)]
pub struct ConfigProcessorDefinitionTomlEditView {
    pub kind: Option<ProcessorType>,
    pub path: Option<String>,
    pub package: Option<String>,
}

impl ConfigProcessorDefinitionTomlEditView {
    /// The definition, when every key is given; else the first missing key
    /// (`kind`, `path`, then `package`).
    pub fn to_processer_definition(&self) -> (r: Result<ConfigProcessorDefinition, ConfigError>)
        ensures
            self.kind is None ==> (r matches Err(e) && e@ == ConfigErrorView::MissingValue("kind"@)),
            self.kind is Some && self.path is None ==> (r matches Err(e) && e@
                == ConfigErrorView::MissingValue("path"@)),
            self.kind is Some && self.path is Some && self.package is None ==> (r matches Err(e) && e@
                == ConfigErrorView::MissingValue("package"@)),
            self.kind is Some && self.path is Some && self.package is Some ==> (r matches Ok(d) && d.kind
                == self.kind->0 && d.path@ == self.path->0@ && d.package@ == self.package->0@),
    {
        let kind = match self.kind {
            Some(k) => k,
            None => {
                return Err(ConfigError::MissingValue(owned("kind")));
            },
        };
        let path = match &self.path {
            Some(p) => p.clone(),
            None => {
                return Err(ConfigError::MissingValue(owned("path")));
            },
        };
        let package = match &self.package {
            Some(p) => p.clone(),
            None => {
                return Err(ConfigError::MissingValue(owned("package")));
            },
        };
        Ok(ConfigProcessorDefinition { kind, path, package })
    }
}

/// The `[project]` section.
#[derive(Debug)]
pub struct ConfigProject {
    pub name: String,
    pub group: Option<String>,
    pub artifact: Option<String>,
    pub version: Option<String>,
}

/// The `[setup]` section: where sources, classes and libraries live, the
/// main class, the Java release, and the sources to leave out.
#[derive(Debug)]
pub struct ConfigSetup {
    pub src: Option<String>,
    pub bin: Option<String>,
    pub lib: Option<String>,
    pub target: Option<String>,
    pub main_class: Option<String>,
    pub release: Option<String>,
    pub exclude: Vec<String>,
}

/// The `[resources]` section: resources to leave out, and files outside the
/// source folder to copy.
#[derive(Debug)]
pub struct ConfigResources {
    pub exclude: Vec<String>,
    pub external: Vec<String>,
}

/// A dependency as the config stores it.
#[derive(Debug)]
pub struct ConfigDependency {
    pub group: String,
    pub version: String,
    pub scope: Scope,
    pub path: String,
}

/// A processor of the config, by name.
#[derive(Debug)]
pub struct NamedProcessor {
    pub name: String,
    pub definition: ConfigProcessorDefinition,
}

/// A dependency of the config, by name.
#[derive(Debug)]
pub struct NamedDependency {
    pub name: String,
    pub dependency: ConfigDependency,
}

/// The whole config.
#[derive(Debug)]
pub struct Config {
    pub project: ConfigProject,
    pub setup: ConfigSetup,
    pub resources: ConfigResources,
    pub processors: Vec<NamedProcessor>,
    pub dependencies: Vec<NamedDependency>,
}

/// A dependency table as written in the config: any key may be missing. A
/// remote dependency gives `group` and `version`; a local jar gives `path`.
#[derive(Debug)]
pub struct ConfigDependencyTomlEditView {
    pub group: Option<String>,
    pub version: Option<String>,
    pub scope: Option<Scope>,
    pub path: Option<String>,
}

/// What the file system says of a local dependency's path: whether it
/// exists, whether it names a `.jar` file, and its canonical form (or the
/// error met while resolving it).
#[derive(Debug)]
pub struct LocalPathFacts {
    pub exists: bool,
    pub is_jar: bool,
    pub canonical: Result<String, String>,
}

/// The remote dependency a table describes: `Ok(None)` when it names
/// neither group nor version; an error for a `path` beside them, or for a
/// missing group or version.
pub open spec fn remote_of(d: ConfigDependencyTomlEditView) -> Result<Option<(Seq<char>, Seq<char>, Option<Scope>)>, ConfigErrorView> {
    if d.group is None && d.version is None {
        Ok(None)
    } else if d.path is Some {
        Err(ConfigErrorView::UnexpectedValue("path"@))
    } else if d.group is None {
        Err(ConfigErrorView::MissingValue("group"@))
    } else if d.version is None {
        Err(ConfigErrorView::MissingValue("version"@))
    } else {
        Ok(Some((d.group->0@, d.version->0@, d.scope)))
    }
}

/// The local dependency a table describes: `Ok(None)` when it has no path;
/// an error for a group or version beside the path, for a path that does
/// not exist or is not a jar, or one that cannot be resolved.
pub open spec fn local_of(d: ConfigDependencyTomlEditView, f: LocalPathFacts) -> Result<Option<(Seq<char>, Option<Scope>)>, ConfigErrorView> {
    if d.path is None {
        Ok(None)
    } else if d.group is Some {
        Err(ConfigErrorView::UnexpectedValue("group"@))
    } else if d.version is Some {
        Err(ConfigErrorView::UnexpectedValue("version"@))
    } else if !f.exists {
        Err(ConfigErrorView::LocalDependencyNotFound(d.path->0@))
    } else if !f.is_jar {
        Err(ConfigErrorView::LocalDependencyNotJar(d.path->0@))
    } else {
        match f.canonical {
            Ok(c) => Ok(Some((c@, d.scope))),
            Err(msg) => Err(ConfigErrorView::IoError(msg@)),
        }
    }
}

impl ConfigDependencyTomlEditView {
    /// The remote dependency this table describes (see `remote_of`).
    pub fn to_remote_dependency(&self) -> (r: Result<Option<crate::lock_file::RootPackage>, ConfigError>)
        ensures
            match remote_of(*self) {
                Ok(None) => r matches Ok(None),
                Ok(Some((g, v, s))) => (r matches Ok(Some(p)) && p.group@ == g && p.version@ == v
                    && p.scope == s),
                Err(ev) => (r matches Err(e) && e@ == ev),
            },
            r matches Ok(Some(p)) ==> (self.group matches Some(g) && p.group@ == g@) && (self.version matches Some(v)
                && p.version@ == v@) && p.scope == self.scope && self.path is None,
            (self.group is Some && self.version is Some && self.path is None) ==> r is Ok && r->Ok_0 is Some,
    {
        if self.group.is_none() && self.version.is_none() {
            return Ok(None);
        }
        if self.path.is_some() {
            return Err(ConfigError::UnexpectedValue(owned("path")));
        }
        let group = match &self.group {
            Some(g) => g.clone(),
            None => {
                return Err(ConfigError::MissingValue(owned("group")));
            },
        };
        let version = match &self.version {
            Some(v) => v.clone(),
            None => {
                return Err(ConfigError::MissingValue(owned("version")));
            },
        };
        Ok(Some(crate::lock_file::RootPackage { group, version, scope: self.scope }))
    }

    /// The local dependency this table describes (see `local_of`), given
    /// what the file system says of its path.
    pub fn to_local_dependency(&self, facts: &LocalPathFacts) -> (r: Result<Option<LocalRootPackage>, ConfigError>)
        ensures
            match local_of(*self, *facts) {
                Ok(None) => r matches Ok(None),
                Ok(Some((p, s))) => (r matches Ok(Some(l)) && l.path@ == p && l.scope == s),
                Err(ev) => (r matches Err(e) && e@ == ev),
            },
            r matches Ok(Some(l)) ==> l.scope == self.scope && self.path is Some,
    {
        let path = match &self.path {
            Some(p) => p,
            None => {
                return Ok(None);
            },
        };
        if self.group.is_some() {
            return Err(ConfigError::UnexpectedValue(owned("group")));
        }
        if self.version.is_some() {
            return Err(ConfigError::UnexpectedValue(owned("version")));
        }
        if !facts.exists {
            return Err(ConfigError::LocalDependencyNotFound(path.clone()));
        }
        if !facts.is_jar {
            return Err(ConfigError::LocalDependencyNotJar(path.clone()));
        }
        match &facts.canonical {
            Ok(c) => Ok(Some(LocalRootPackage { path: c.clone(), scope: self.scope })),
            Err(msg) => Err(ConfigError::IoError(msg.clone())),
        }
    }
}

/// A dependency table of the config, by name.
#[derive(Debug)]
pub struct NamedDependencyView {
    pub name: String,
    pub view: ConfigDependencyTomlEditView,
}

/// The config as an editable document: the dependency tables, when the
/// config has a `[dependencies]` section.
#[derive(Debug)]
pub struct ConfigTomlEdit {
    pub dependencies: Option<Vec<NamedDependencyView>>,
}

/// The root entry a dependency table gives: group from the table, artifact
/// from its name.
pub struct RootEntryView {
    pub group: Seq<char>,
    pub artifact: Seq<char>,
    pub version: Seq<char>,
    pub scope: Option<Scope>,
}

/// The view of a root entry.
pub open spec fn root_entry_view(e: RootEntry) -> RootEntryView {
    RootEntryView {
        group: e.id@.group,
        artifact: e.id@.artifact,
        version: e.package.version@,
        scope: e.package.scope,
    }
}

/// The views of root entries.
pub open spec fn root_entry_views(v: Seq<RootEntry>) -> Seq<RootEntryView> {
    v.map_values(|e: RootEntry| root_entry_view(e))
}

/// Entry `i` is the first of `list` with this group and artifact.
pub open spec fn first_root(list: Seq<RootEntryView>, group: Seq<char>, artifact: Seq<char>, i: int) -> bool {
    &&& 0 <= i < list.len()
    &&& list[i].group == group
    &&& list[i].artifact == artifact
    &&& forall|j: int| 0 <= j < i ==> !(list[j].group == group && list[j].artifact == artifact)
}

/// `e` added to `list`: it takes the place of the first entry with its
/// group and artifact, or is appended when there is none.
pub open spec fn put_root(list: Seq<RootEntryView>, e: RootEntryView) -> Seq<RootEntryView> {
    if exists|i: int| first_root(list, e.group, e.artifact, i) {
        list.update(choose|i: int| first_root(list, e.group, e.artifact, i), e)
    } else {
        list.push(e)
    }
}

/// The root entries of the first `upto` tables, or the first error met.
pub open spec fn root_list(deps: Seq<NamedDependencyView>, upto: int) -> Result<Seq<RootEntryView>, ConfigErrorView>
    decreases upto,
{
    if upto <= 0 {
        Ok(Seq::<RootEntryView>::empty())
    } else {
        match root_list(deps, upto - 1) {
            Ok(l) => match remote_of(deps[upto - 1].view) {
                Ok(None) => Ok(l),
                Ok(Some((g, v, s))) => Ok(
                    put_root(l, RootEntryView { group: g, artifact: deps[upto - 1].name@, version: v, scope: s }),
                ),
                Err(e) => Err(e),
            },
            Err(e) => Err(e),
        }
    }
}

/// The local entries of the first `upto` tables, or the first error met.
pub open spec fn local_list(deps: Seq<NamedDependencyView>, facts: Seq<LocalPathFacts>, upto: int) -> Result<Seq<(Seq<char>, Option<Scope>)>, ConfigErrorView>
    decreases upto,
{
    if upto <= 0 {
        Ok(Seq::<(Seq<char>, Option<Scope>)>::empty())
    } else {
        match local_list(deps, facts, upto - 1) {
            Ok(l) => match local_of(deps[upto - 1].view, facts[upto - 1]) {
                Ok(None) => Ok(l),
                Ok(Some(x)) => Ok(l.push(x)),
                Err(e) => Err(e),
            },
            Err(e) => Err(e),
        }
    }
}

/// The views of local config entries.
pub open spec fn local_root_views(v: Seq<LocalRootPackage>) -> Seq<(Seq<char>, Option<Scope>)> {
    v.map_values(|l: LocalRootPackage| (l.path@, l.scope))
}

/// The tables of the config (none without a `[dependencies]` section).
pub open spec fn dependency_tables(c: ConfigTomlEdit) -> Seq<NamedDependencyView> {
    match c.dependencies {
        Some(v) => v@,
        None => Seq::<NamedDependencyView>::empty(),
    }
}

impl ConfigTomlEdit {
    /// Fails with `NoConfig(config_path)` when the config file does not
    /// exist.
    pub fn assert_config_file_exists(config_path: &String, exists: bool) -> (r: Result<(), ConfigError>)
        ensures
            exists <==> r is Ok,
            r matches Err(e) ==> e@ == ConfigErrorView::NoConfig(config_path@),
    {
        if !exists {
            return Err(ConfigError::NoConfig(config_path.clone()));
        }
        Ok(())
    }

    /// The dependencies that the config names by coordinate, each with its
    /// group (from the table) and artifact (the table's name); fails with
    /// the first table that is not a valid remote dependency.
    pub fn root_package_list(&self) -> (r: Result<Vec<RootEntry>, ConfigError>)
        ensures
            match root_list(dependency_tables(*self), dependency_tables(*self).len() as int) {
                Ok(l) => (r matches Ok(v) && root_entry_views(v@) == l),
                Err(ev) => (r matches Err(e) && e@ == ev),
            },
            r matches Ok(v) ==> forall|i: int| 0 <= i < v@.len() ==> groups_agree(#[trigger] v@[i]),
            r matches Ok(v) ==> forall|i: int|
                0 <= i < v@.len() ==> from_table(dependency_tables(*self), #[trigger] v@[i]),
    {
        let deps = match &self.dependencies {
            Some(d) => d,
            None => {
                let v: Vec<RootEntry> = Vec::new();
                assert(root_entry_views(v@) =~= Seq::<RootEntryView>::empty());
                return Ok(v);
            },
        };
        let ghost dv = deps@;
        let mut out: Vec<RootEntry> = Vec::new();
        assert(root_entry_views(out@) =~= Seq::<RootEntryView>::empty());
        let mut i: usize = 0;
        while i < deps.len()
            invariant
                dv == deps@,
                dv == dependency_tables(*self),
                i <= dv.len(),
                root_list(dv, i as int) == Ok::<Seq<RootEntryView>, ConfigErrorView>(root_entry_views(out@)),
                forall|j: int| 0 <= j < out@.len() ==> groups_agree(#[trigger] out@[j]),
                forall|j: int| 0 <= j < out@.len() ==> from_table(dv, #[trigger] out@[j]),
            decreases dv.len() - i,
        {
            let dep = match deps[i].view.to_remote_dependency() {
                Ok(d) => d,
                Err(e) => {
                    proof {
                        lemma_root_list_err(dv, i + 1, dv.len() as int);
                    }
                    return Err(e);
                },
            };
            match dep {
                Some(p) => {
                    let id = PartialMavenId::new(p.group.as_str(), deps[i].name.as_str());
                    let entry = RootEntry { id, package: p };
                    assert(dv[i as int].name@ == entry.id@.artifact);
                    assert(from_table(dv, entry));
                    let ghost before = out@;
                    out = put_root_entry(out, entry);
                    assert forall|j: int| 0 <= j < out@.len() implies from_table(dv, #[trigger] out@[j]) by {
                        if out@[j] != entry {
                            let k = choose|k: int| 0 <= k < before.len() && before[k] == out@[j];
                            assert(from_table(dv, before[k]));
                        }
                    }
                },
                None => {},
            }
            i = i + 1;
        }
        Ok(out)
    }

    /// The local jars that the config names by path, in order, given what
    /// the file system says of each table's path (`facts[i]` for table
    /// `i`); fails with the first table that is not a valid local
    /// dependency.
    pub fn local_package_list(&self, facts: &Vec<LocalPathFacts>) -> (r: Result<Vec<LocalRootPackage>, ConfigError>)
        requires
            facts@.len() == dependency_tables(*self).len(),
        ensures
            match local_list(dependency_tables(*self), facts@, dependency_tables(*self).len() as int) {
                Ok(l) => (r matches Ok(v) && local_root_views(v@) == l),
                Err(ev) => (r matches Err(e) && e@ == ev),
            },
    {
        let deps = match &self.dependencies {
            Some(d) => d,
            None => {
                let v: Vec<LocalRootPackage> = Vec::new();
                assert(local_root_views(v@) =~= Seq::<(Seq<char>, Option<Scope>)>::empty());
                return Ok(v);
            },
        };
        let ghost dv = deps@;
        let mut out: Vec<LocalRootPackage> = Vec::new();
        assert(local_root_views(out@) =~= Seq::<(Seq<char>, Option<Scope>)>::empty());
        let mut i: usize = 0;
        while i < deps.len()
            invariant
                dv == deps@,
                dv == dependency_tables(*self),
                facts@.len() == dv.len(),
                i <= dv.len(),
                local_list(dv, facts@, i as int) == Ok::<Seq<(Seq<char>, Option<Scope>)>, ConfigErrorView>(
                    local_root_views(out@),
                ),
            decreases dv.len() - i,
        {
            let dep = match deps[i].view.to_local_dependency(&facts[i]) {
                Ok(d) => d,
                Err(e) => {
                    proof {
                        lemma_local_list_err(dv, facts@, i + 1, dv.len() as int);
                    }
                    return Err(e);
                },
            };
            match dep {
                Some(l) => {
                    let ghost before = out@;
                    let ghost lv = (l.path@, l.scope);
                    out.push(l);
                    assert(local_root_views(out@) =~= local_root_views(before).push(lv));
                },
                None => {},
            }
            i = i + 1;
        }
        Ok(out)
    }

    /// Brings the lock file in line with the config (see
    /// `LockFile::sync_with_root_packages`): the roots are the config's
    /// remote dependencies, `resolved[i]` the resolved list of root `i`,
    /// the local roots the config's local jars, and `new_locals` the entries
    /// of the local jars the lock file lacks. Fails, leaving the lock file
    /// as it was, when a local dependency is not valid; fails with the lock
    /// file's `PackageNotFound` when the sync of the roots does.
    pub fn sync_lock_file(
        &self,
        lockfile: &mut LockFile,
        facts: &Vec<LocalPathFacts>,
        resolved: Vec<Vec<LockFilePackageRemote>>,
        new_locals: Vec<LockFilePackageLocal>,
    ) -> (r: Result<(), ConfigError>)
        requires
            facts@.len() == dependency_tables(*self).len(),
            (root_list(dependency_tables(*self), dependency_tables(*self).len() as int) matches Ok(l)
                && resolved@.len() == l.len()),
            local_list(dependency_tables(*self), facts@, dependency_tables(*self).len() as int) matches Ok(l)
                ==> local_paths(local_views(new_locals@)) == pair_paths(
                missing_local_roots(old(lockfile).local(), l, l.len() as int),
            ),
        ensures
            match local_list(dependency_tables(*self), facts@, dependency_tables(*self).len() as int) {
                Err(ev) => (r matches Err(e) && e@ == ev) && *final(lockfile) == *old(lockfile),
                Ok(locals) => {
                    let keys = root_view_keys(
                        root_list(dependency_tables(*self), dependency_tables(*self).len() as int)->Ok_0,
                    );
                    let synced = synced_remote(old(lockfile).remote(), keys, resolved_views_of(resolved@));
                    &&& (r is Ok <==> synced is Some)
                    &&& r is Ok ==> final(lockfile).remote() == collect_garbage(synced->0)
                    &&& r is Ok ==> final(lockfile).local() == kept_locals(
                        old(lockfile).local(),
                        locals.map_values(|x: (Seq<char>, Option<Scope>)| x.0),
                    ) + local_views(new_locals@)
                    &&& r is Err ==> (r matches Err(ConfigError::LockFileError(inner)) && inner is PackageNotFound)
                    &&& r is Ok ==> forall|p: Seq<char>|
                        #[trigger] holds_local_path(final(lockfile).local(), p) <==> pair_paths(locals).contains(p)
                },
            },
    {
        let roots = match self.root_package_list() {
            Ok(r) => r,
            Err(e) => {
                return Err(e);
            },
        };
        let locals = match self.local_package_list(facts) {
            Ok(l) => l,
            Err(e) => {
                return Err(e);
            },
        };
        assert(roots@.len() == root_entry_views(roots@).len());
        assert(root_keys(roots@) =~= root_view_keys(root_entry_views(roots@)));
        assert(local_root_paths(locals@) =~= local_root_views(locals@).map_values(
            |x: (Seq<char>, Option<Scope>)| x.0,
        ));
        assert(local_root_paths(locals@) =~= pair_paths(local_root_views(locals@)));
        match lockfile.sync_with_root_packages(&roots, resolved, &locals, new_locals) {
            Ok(()) => Ok(()),
            Err(e) => Err(ConfigError::LockFileError(e)),
        }
    }
}

/// The group and artifact of each root entry, in order.
pub open spec fn root_view_keys(l: Seq<RootEntryView>) -> Seq<(Seq<char>, Seq<char>)> {
    l.map_values(|e: RootEntryView| (e.group, e.artifact))
}

/// The entry is read from a table of `deps`: the table is named after the
/// entry's artifact and has the entry's group, version and scope.
pub open spec fn from_table(deps: Seq<NamedDependencyView>, e: RootEntry) -> bool {
    exists|t: int|
        0 <= t < deps.len() && (#[trigger] deps[t]).name@ == e.id@.artifact && (deps[t].view.group matches Some(g)
            && g@ == e.id@.group) && (deps[t].view.version matches Some(v) && v@ == e.package.version@)
            && deps[t].view.scope == e.package.scope
}

/// The entry's package carries the group of its coordinate.
pub open spec fn groups_agree(e: RootEntry) -> bool {
    e.package.group@ == e.id@.group
}

/// `e` added to `list` by group and artifact (see `put_root`).
fn put_root_entry(entries: Vec<RootEntry>, e: RootEntry) -> (r: Vec<RootEntry>)
    requires
        forall|j: int| 0 <= j < entries@.len() ==> groups_agree(#[trigger] entries@[j]),
        groups_agree(e),
    ensures
        root_entry_views(r@) == put_root(root_entry_views(entries@), root_entry_view(e)),
        forall|j: int| 0 <= j < r@.len() ==> groups_agree(#[trigger] r@[j]),
        forall|j: int| 0 <= j < r@.len() ==> (#[trigger] r@[j] == e || entries@.contains(r@[j])),
{
    let ghost lv = root_entry_views(entries@);
    let ghost ev = root_entry_view(e);
    let mut list = entries;
    let mut i: usize = 0;
    while i < list.len()
        invariant
            lv == root_entry_views(list@),
            lv == root_entry_views(entries@),
            list@ == entries@,
            ev == root_entry_view(e),
            i <= list@.len(),
            groups_agree(e),
            forall|j: int| 0 <= j < list@.len() ==> groups_agree(#[trigger] list@[j]),
            forall|j: int| 0 <= j < i ==> !(lv[j].group == ev.group && lv[j].artifact == ev.artifact),
        decreases list@.len() - i,
    {
        assert(lv[i as int] == root_entry_view(list@[i as int]));
        if list[i].id.group == e.id.group && list[i].id.artifact == e.id.artifact {
            proof {
                assert(i < lv.len());
                assert(lv[i as int].group == ev.group);
                assert(lv[i as int].artifact == ev.artifact);
                assert(first_root(lv, ev.group, ev.artifact, i as int));
                let k = choose|k: int| first_root(lv, ev.group, ev.artifact, k);
                if k < i {
                    assert(!(lv[k].group == ev.group && lv[k].artifact == ev.artifact));
                } else if i < k {
                    assert(lv[i as int].group == ev.group && lv[i as int].artifact == ev.artifact);
                }
            }
            list.set(i, e);
            assert(root_entry_views(list@) =~= lv.update(i as int, ev));
            assert forall|j: int| 0 <= j < list@.len() implies (#[trigger] list@[j] == e || entries@.contains(list@[j])) by {
                if j != i {
                    assert(entries@[j] == list@[j]);
                }
            }
            return list;
        }
        i = i + 1;
    }
    proof {
        if exists|k: int| first_root(lv, ev.group, ev.artifact, k) {
            let k = choose|k: int| first_root(lv, ev.group, ev.artifact, k);
            assert(!(lv[k].group == ev.group && lv[k].artifact == ev.artifact));
        }
    }
    let ghost before = list@;
    list.push(e);
    assert(root_entry_views(list@) =~= lv.push(ev));
    assert forall|j: int| 0 <= j < list@.len() implies (#[trigger] list@[j] == e || entries@.contains(list@[j])) by {
        if j < before.len() {
            assert(entries@[j] == list@[j]);
        }
    }
    list
}

proof fn lemma_root_list_err(deps: Seq<NamedDependencyView>, a: int, b: int)
    requires
        0 < a <= b,
        root_list(deps, a) is Err,
    ensures
        root_list(deps, b) == root_list(deps, a),
    decreases b - a,
{
    if a < b {
        lemma_root_list_err(deps, a, b - 1);
    }
}

proof fn lemma_local_list_err(deps: Seq<NamedDependencyView>, facts: Seq<LocalPathFacts>, a: int, b: int)
    requires
        0 < a <= b,
        local_list(deps, facts, a) is Err,
    ensures
        local_list(deps, facts, b) == local_list(deps, facts, a),
    decreases b - a,
{
    if a < b {
        lemma_local_list_err(deps, facts, a, b - 1);
    }
}

} // verus!
