//! A Maven `pom.xml` for the project, so that other tools can build it: the
//! project's coordinate, the dependencies the project names directly, and
//! the annotation processors among its packages.

use vstd::prelude::*;
use vstd::string::*;
use crate::config::ConfigProject;
use crate::errors::GenerateError;
use crate::lock_file::{LockFile, LockFilePackageLocal, LockFilePackageRemote};
use crate::maven::{DependencyType, Scope};
use crate::services::{lemma_text_lt_irreflexive, lemma_text_lt_transitive, text_less, text_lt};
use crate::text::owned;

verus! {

/// A dependency of the POM.
#[derive(Debug)]
pub struct Dependency {
    pub group_id: String,
    pub artifact_id: String,
    pub version: Option<String>,
    pub scope: Scope,
    pub optional: bool,
    pub dependency_type: DependencyType,
    pub classifier: Option<String>,
    pub system_path: Option<String>,
}

/// The characters of a POM dependency.
pub struct DependencyView {
    pub group_id: Seq<char>,
    pub artifact_id: Seq<char>,
    pub version: Option<Seq<char>>,
    pub scope: Scope,
    pub optional: bool,
    pub dependency_type: DependencyType,
    pub classifier: Option<Seq<char>>,
    pub system_path: Option<Seq<char>>,
}

impl View for Dependency {
    type V = DependencyView;

    open spec fn view(&self) -> DependencyView {
        DependencyView {
            group_id: self.group_id@,
            artifact_id: self.artifact_id@,
            version: crate::lock_file::opt_view(self.version),
            scope: self.scope,
            optional: self.optional,
            dependency_type: self.dependency_type,
            classifier: crate::lock_file::opt_view(self.classifier),
            system_path: crate::lock_file::opt_view(self.system_path),
        }
    }
}

/// The POM's list of dependencies.
#[derive(Debug)]
pub struct Dependencies {
    pub dependency: Vec<Dependency>,
}

/// One annotation processor on the compiler plugin's processor path.
#[derive(Debug)]
pub struct ProcessorPath {
    pub group_id: String,
    pub artifact_id: String,
    pub version: String,
}

/// The processor path of the compiler plugin.
#[derive(Debug)]
pub struct AnnotationProcessorPaths {
    pub path: Vec<ProcessorPath>,
}

/// The compiler plugin's configuration.
#[derive(Debug)]
pub struct Configuration {
    pub annotation_processor_paths: Option<AnnotationProcessorPaths>,
}

/// A build plugin.
#[derive(Debug)]
pub struct Plugin {
    pub group_id: Option<String>,
    pub artifact_id: Option<String>,
    pub version: Option<String>,
    pub configuration: Option<Configuration>,
}

/// The build plugins.
#[derive(Debug)]
pub struct Plugins {
    pub plugin: Vec<Plugin>,
}

/// The `<build>` section.
#[derive(Debug)]
pub struct Build {
    pub plugins: Option<Plugins>,
    pub source: Option<String>,
    pub target: Option<String>,
}

/// A POM property.
#[derive(Debug)]
pub struct Property {
    pub name: String,
    pub value: String,
}

/// A Maven project model.
#[derive(Debug)]
pub struct MavenPom {
    pub model_version: Option<String>,
    pub group_id: String,
    pub artifact_id: String,
    pub version: String,
    pub packaging: DependencyType,
    pub dependencies: Option<Dependencies>,
    pub properties: Vec<Property>,
    pub build: Option<Build>,
}

/// `a` comes before `b` by group, then artifact.
pub open spec fn dep_key_lt(a: DependencyView, b: DependencyView) -> bool {
    text_lt(a.group_id, b.group_id) || (a.group_id == b.group_id && text_lt(a.artifact_id, b.artifact_id))
}

/// The dependencies are ordered by group, then artifact.
pub open spec fn deps_sorted(s: Seq<DependencyView>) -> bool {
    forall|i: int, j: int| 0 <= i < j < s.len() ==> !dep_key_lt(#[trigger] s[j], #[trigger] s[i])
}

/// The views of POM dependencies.
pub open spec fn dep_views(v: Seq<Dependency>) -> Seq<DependencyView> {
    v.map_values(|d: Dependency| d@)
}

/// The POM dependency `d` lists the remote package `p` with its own
/// coordinate, scope and packaging.
pub open spec fn lists_root(d: DependencyView, p: crate::lock_file::RemotePackageView) -> bool {
    &&& d.group_id == p.id.group
    &&& d.artifact_id == p.id.artifact
    &&& d.version == Some(p.id.version)
    &&& d.scope == p.scope
    &&& d.dependency_type == p.packaging
}

/// Every root remote package is listed by some dependency of `ds` (see
/// `lists_root`).
pub open spec fn roots_listed(remote: Seq<crate::lock_file::RemotePackageView>, ds: Seq<DependencyView>) -> bool {
    forall|i: int|
        0 <= i < remote.len() && (#[trigger] remote[i]).root ==> exists|k: int|
            0 <= k < ds.len() && lists_root(#[trigger] ds[k], remote[i])
}

/// The POM dependency for a remote package.
pub open spec fn remote_dependency(p: crate::lock_file::RemotePackageView) -> DependencyView {
    DependencyView {
        group_id: p.id.group,
        artifact_id: p.id.artifact,
        version: Some(p.id.version),
        scope: p.scope,
        optional: false,
        dependency_type: p.packaging,
        classifier: None,
        system_path: None,
    }
}

/// A local jar's path as the POM writes it: relative paths are taken from
/// the project's base folder.
pub open spec fn pom_system_path(path: Seq<char>) -> Seq<char> {
    if path.len() > 0 && path[0] == '/' {
        path
    } else {
        "${project.basedir}/"@ + path
    }
}

/// The POM dependency for a local jar: a made-up coordinate from its name,
/// system scope, and its path.
pub open spec fn local_dependency(p: crate::lock_file::LocalPackageView) -> DependencyView {
    DependencyView {
        group_id: "local-"@ + p.file_name + "-group"@,
        artifact_id: "local-"@ + p.file_name + "-artifact"@,
        version: None,
        scope: Scope::System,
        optional: false,
        dependency_type: p.packaging,
        classifier: None,
        system_path: Some(pom_system_path(p.path)),
    }
}

/// The POM dependencies before ordering: every root remote package, then
/// every local jar.
pub open spec fn pom_dependencies(lock: &LockFile) -> Seq<DependencyView> {
    lock.remote().filter(|p: crate::lock_file::RemotePackageView| p.root).map_values(
        |p: crate::lock_file::RemotePackageView| remote_dependency(p),
    ) + lock.local().map_values(|p: crate::lock_file::LocalPackageView| local_dependency(p))
}

/// The processor path entries: every remote package that declares
/// annotation processors, by coordinate.
pub open spec fn processor_coordinates(lock: &LockFile) -> Seq<crate::maven::MavenIdView> {
    lock.remote().filter(|p: crate::lock_file::RemotePackageView| p.annotations.len() > 0).map_values(
        |p: crate::lock_file::RemotePackageView| p.id,
    )
}

/// The POM dependency for a remote package.
fn remote_to_dependency(p: &LockFilePackageRemote) -> (d: Dependency)
    ensures
        d@ == remote_dependency(p@),
{
    Dependency {
        group_id: p.id.group.clone(),
        artifact_id: p.id.artifact.clone(),
        version: Some(p.id.version.clone()),
        scope: p.scope,
        optional: false,
        dependency_type: p.packaging,
        classifier: None,
        system_path: None,
    }
}

/// The POM dependency for a local jar.
fn local_to_dependency(p: &LockFilePackageLocal) -> (d: Dependency)
    ensures
        d@ == local_dependency(p@),
{
    let mut group = owned("local-");
    group.append(p.file_name.as_str());
    group.append("-group");
    let mut artifact = owned("local-");
    artifact.append(p.file_name.as_str());
    artifact.append("-artifact");
    let n = p.path.as_str().unicode_len();
    let path = if n > 0 && p.path.as_str().get_char(0) == '/' {
        p.path.clone()
    } else {
        let mut s = owned("${project.basedir}/");
        s.append(p.path.as_str());
        s
    };
    Dependency {
        group_id: group,
        artifact_id: artifact,
        version: None,
        scope: Scope::System,
        optional: false,
        dependency_type: p.packaging,
        classifier: None,
        system_path: Some(path),
    }
}

/// Whether `a` comes before `b` by group, then artifact.
fn dep_less(a: &Dependency, b: &Dependency) -> (r: bool)
    ensures
        r == dep_key_lt(a@, b@),
{
    if text_less(&a.group_id, &b.group_id) {
        return true;
    }
    a.group_id == b.group_id && text_less(&a.artifact_id, &b.artifact_id)
}

proof fn lemma_key_lt_transitive(a: DependencyView, b: DependencyView, c: DependencyView)
    requires
        dep_key_lt(a, b),
        dep_key_lt(b, c),
    ensures
        dep_key_lt(a, c),
{
    if text_lt(a.group_id, b.group_id) && text_lt(b.group_id, c.group_id) {
        lemma_text_lt_transitive(a.group_id, b.group_id, c.group_id);
    } else if a.group_id == b.group_id && b.group_id == c.group_id {
        lemma_text_lt_transitive(a.artifact_id, b.artifact_id, c.artifact_id);
    }
}

/// The dependencies of `s` with this group and artifact, in order.
pub open spec fn with_key(s: Seq<DependencyView>, group: Seq<char>, artifact: Seq<char>) -> Seq<DependencyView>
    decreases s.len(),
{
    if s.len() == 0 {
        s
    } else {
        let rest = with_key(s.drop_last(), group, artifact);
        if s.last().group_id == group && s.last().artifact_id == artifact {
            rest.push(s.last())
        } else {
            rest
        }
    }
}

proof fn lemma_with_key_concat(a: Seq<DependencyView>, b: Seq<DependencyView>, g: Seq<char>, k: Seq<char>)
    ensures
        with_key(a + b, g, k) == with_key(a, g, k) + with_key(b, g, k),
    decreases b.len(),
{
    if b.len() == 0 {
        assert(a + b =~= a);
        assert(with_key(a, g, k) + with_key(b, g, k) =~= with_key(a, g, k));
    } else {
        assert((a + b).drop_last() =~= a + b.drop_last());
        assert((a + b).last() == b.last());
        lemma_with_key_concat(a, b.drop_last(), g, k);
        if b.last().group_id == g && b.last().artifact_id == k {
            assert(with_key(a, g, k) + with_key(b.drop_last(), g, k).push(b.last()) =~= (with_key(a, g, k)
                + with_key(b.drop_last(), g, k)).push(b.last()));
        }
    }
}

proof fn lemma_with_key_none(s: Seq<DependencyView>, g: Seq<char>, k: Seq<char>)
    requires
        forall|i: int| 0 <= i < s.len() ==> !(s[i].group_id == g && s[i].artifact_id == k),
    ensures
        with_key(s, g, k) == Seq::<DependencyView>::empty(),
    decreases s.len(),
{
    if s.len() > 0 {
        lemma_with_key_none(s.drop_last(), g, k);
    }
}

/// `v` with `x` put after every dependency that does not come after it.
fn insert_by_key(v: Vec<Dependency>, x: Dependency) -> (r: Vec<Dependency>)
    requires
        deps_sorted(dep_views(v@)),
    ensures
        deps_sorted(dep_views(r@)),
        dep_views(r@).to_multiset() == dep_views(v@).to_multiset().insert(x@),
        forall|g: Seq<char>, k: Seq<char>|
            #[trigger] with_key(dep_views(r@), g, k) == (if x@.group_id == g && x@.artifact_id == k {
                with_key(dep_views(v@), g, k).push(x@)
            } else {
                with_key(dep_views(v@), g, k)
            }),
{
    let ghost vv = dep_views(v@);
    let mut v = v;
    let mut p: usize = 0;
    while p < v.len() && !dep_less(&x, &v[p])
        invariant
            vv == dep_views(v@),
            p <= v@.len(),
            forall|k: int| 0 <= k < p ==> !dep_key_lt(x@, #[trigger] vv[k]),
        decreases v@.len() - p,
    {
        p = p + 1;
    }
    let ghost xv = x@;
    v.insert(p, x);
    let ghost r = dep_views(v@);
    assert(r =~= vv.insert(p as int, xv));
    proof {
        vstd::seq_lib::to_multiset_insert(vv, p as int, xv);
        assert forall|i: int, j: int| 0 <= i < j < r.len() implies !dep_key_lt(#[trigger] r[j], #[trigger] r[i]) by {
            if j < p {
                assert(r[i] == vv[i] && r[j] == vv[j]);
            } else if j == p {
                assert(r[i] == vv[i]);
                assert(!dep_key_lt(xv, vv[i]));
            } else if i == p {
                assert(r[j] == vv[j - 1]);
                assert(p < vv.len() && dep_key_lt(xv, vv[p as int]));
                if dep_key_lt(vv[j - 1], xv) {
                    if j - 1 > p {
                        assert(!dep_key_lt(vv[j - 1], vv[p as int]));
                        lemma_key_lt_transitive(vv[j - 1], xv, vv[p as int]);
                    } else {
                        lemma_key_lt_transitive(xv, vv[p as int], xv);
                        lemma_text_lt_irreflexive(xv.group_id);
                        lemma_text_lt_irreflexive(xv.artifact_id);
                    }
                }
            } else if i < p {
                assert(r[i] == vv[i] && r[j] == vv[j - 1]);
            } else {
                assert(r[i] == vv[i - 1] && r[j] == vv[j - 1]);
            }
        }
        let head = vv.take(p as int);
        let tail = vv.skip(p as int);
        assert(vv =~= head + tail);
        assert(r =~= head + seq![xv] + tail);
        assert forall|g: Seq<char>, k: Seq<char>|
            #[trigger] with_key(r, g, k) == (if xv.group_id == g && xv.artifact_id == k {
                with_key(vv, g, k).push(xv)
            } else {
                with_key(vv, g, k)
            }) by {
            lemma_with_key_concat(head, tail, g, k);
            lemma_with_key_concat(head + seq![xv], tail, g, k);
            lemma_with_key_concat(head, seq![xv], g, k);
            assert(seq![xv].drop_last() =~= Seq::<DependencyView>::empty());
            assert(with_key(Seq::<DependencyView>::empty(), g, k) =~= Seq::<DependencyView>::empty());
            assert(seq![xv].last() == xv);
            if xv.group_id == g && xv.artifact_id == k {
                assert(with_key(seq![xv], g, k) =~= seq![xv]);
            } else {
                assert(with_key(seq![xv], g, k) =~= Seq::<DependencyView>::empty());
            }
            if xv.group_id == g && xv.artifact_id == k {
                assert forall|i: int| 0 <= i < tail.len() implies !(tail[i].group_id == g && tail[i].artifact_id
                    == k) by {
                    if tail[i].group_id == g && tail[i].artifact_id == k {
                        assert(tail[i] == vv[p + i]);
                        if i > 0 {
                            assert(!dep_key_lt(vv[p + i], vv[p as int]));
                        }
                        lemma_text_lt_irreflexive(xv.group_id);
                        lemma_text_lt_irreflexive(xv.artifact_id);
                    }
                }
                lemma_with_key_none(tail, g, k);
                assert(with_key(vv, g, k) =~= with_key(head, g, k));
                assert(with_key(r, g, k) =~= with_key(head, g, k).push(xv));
            } else {
                assert(with_key(r, g, k) =~= with_key(head, g, k) + with_key(tail, g, k));
            }
        }
    }
    v
}

impl MavenPom {
    /// The project model to write as `pom.xml`: the project's group,
    /// artifact and version (each required); the project's direct remote
    /// dependencies and its local jars, ordered by group then artifact (those
    /// with the same group and artifact in their lock-file order); the
    /// Java release as the compiler's release; and, when some package
    /// declares annotation processors, the compiler plugin with those
    /// packages on its processor path.
    pub fn create_pom(project: &Option<ConfigProject>, jdk: &String, lock: &LockFile) -> (r: Result<MavenPom, GenerateError>)
        ensures
            project is None ==> (r matches Err(GenerateError::MissingValue { value_name, .. }) && value_name@
                == "project"@),
            project matches Some(p) ==> (p.group is None ==> (r matches Err(GenerateError::MissingValue { value_name, .. })
                && value_name@ == "group"@)),
            project matches Some(p) ==> (p.group is Some && p.artifact is None ==> (r matches Err(
                GenerateError::MissingValue { value_name, .. },
            ) && value_name@ == "artifact"@)),
            project matches Some(p) ==> (p.group is Some && p.artifact is Some && p.version is None ==> (r matches Err(
                GenerateError::MissingValue { value_name, .. },
            ) && value_name@ == "version"@)),
            r matches Err(GenerateError::MissingValue { generated_value, .. }) ==> generated_value@ == "pom.xml"@,
            r is Ok <==> (project matches Some(p) && p.group is Some && p.artifact is Some && p.version is Some),
            r matches Ok(pom) ==> ({
                let p = project->0;
                &&& pom.group_id@ == p.group->0@
                &&& pom.artifact_id@ == p.artifact->0@
                &&& pom.version@ == p.version->0@
                &&& pom.model_version matches Some(m) && m@ == "4.0.0"@
                &&& pom.packaging == DependencyType::Jar
                &&& pom.properties@.len() == 1
                &&& pom.properties@[0].name@ == "maven.compiler.release"@
                &&& pom.properties@[0].value@ == jdk@
                &&& pom.dependencies matches Some(ds) && deps_sorted(dep_views(ds.dependency@))
                    && dep_views(ds.dependency@).to_multiset() == pom_dependencies(lock).to_multiset()
                    && forall|g: Seq<char>, k: Seq<char>|
                        #[trigger] with_key(dep_views(ds.dependency@), g, k) == with_key(pom_dependencies(lock), g, k)
                &&& pom.dependencies matches Some(ds) && roots_listed(lock.remote(), dep_views(ds.dependency@))
                &&& (processor_coordinates(lock).len() == 0 <==> pom.build is None)
                &&& pom.build matches Some(b) ==> build_has_processors(b, processor_coordinates(lock))
            }),
    {
        let p = match project {
            Some(p) => p,
            None => {
                return Err(missing("project"));
            },
        };
        let group_id = match &p.group {
            Some(g) => g.clone(),
            None => {
                return Err(missing("group"));
            },
        };
        let artifact_id = match &p.artifact {
            Some(a) => a.clone(),
            None => {
                return Err(missing("artifact"));
            },
        };
        let version = match &p.version {
            Some(v) => v.clone(),
            None => {
                return Err(missing("version"));
            },
        };
        let build = processor_build(lock);
        let mut deps: Vec<Dependency> = Vec::new();
        let ghost all = pom_dependencies(lock);
        let ghost roots = lock.remote().filter(|q: crate::lock_file::RemotePackageView| q.root).map_values(
            |q: crate::lock_file::RemotePackageView| remote_dependency(q),
        );
        let ghost locals = lock.local().map_values(|q: crate::lock_file::LocalPackageView| local_dependency(q));
        let mut i: usize = 0;
        proof {
            let e = lock.remote().take(0);
            assert(e =~= Seq::<crate::lock_file::RemotePackageView>::empty());
            assert(e.filter(|q: crate::lock_file::RemotePackageView| q.root) =~= Seq::<crate::lock_file::RemotePackageView>::empty());
            assert(dep_views(deps@) =~= e.filter(|q: crate::lock_file::RemotePackageView| q.root).map_values(
                |q: crate::lock_file::RemotePackageView| remote_dependency(q),
            ));
        }
        while i < lock.packages.len()
            invariant
                i <= lock.packages@.len(),
                deps_sorted(dep_views(deps@)),
                dep_views(deps@).to_multiset() == lock.remote().take(i as int).filter(
                    |q: crate::lock_file::RemotePackageView| q.root,
                ).map_values(|q: crate::lock_file::RemotePackageView| remote_dependency(q)).to_multiset(),
                forall|g: Seq<char>, k: Seq<char>|
                    #[trigger] with_key(dep_views(deps@), g, k) == with_key(
                        lock.remote().take(i as int).filter(|q: crate::lock_file::RemotePackageView| q.root).map_values(
                            |q: crate::lock_file::RemotePackageView| remote_dependency(q),
                        ),
                        g,
                        k,
                    ),
            decreases lock.packages@.len() - i,
        {
            let ghost prev = lock.remote().take(i as int);
            assert(lock.remote().take(i + 1) =~= prev.push(lock.packages@[i as int]@));
            proof {
                prev.lemma_filter_push(lock.packages@[i as int]@, |q: crate::lock_file::RemotePackageView| q.root);
            }
            if lock.packages[i].root {
                let d = remote_to_dependency(&lock.packages[i]);
                let ghost dv = d@;
                deps = insert_by_key(deps, d);
                proof {
                    let f = prev.filter(|q: crate::lock_file::RemotePackageView| q.root);
                    assert(f.push(lock.packages@[i as int]@).map_values(|q: crate::lock_file::RemotePackageView| remote_dependency(q))
                        =~= f.map_values(|q: crate::lock_file::RemotePackageView| remote_dependency(q)).push(dv));
                    vstd::seq_lib::to_multiset_build(f.map_values(|q: crate::lock_file::RemotePackageView| remote_dependency(q)), dv);
                    let fm = f.map_values(|q: crate::lock_file::RemotePackageView| remote_dependency(q));
                    assert(fm.push(dv).drop_last() =~= fm);
                    assert(fm.push(dv).last() == dv);
                }
            }
            i = i + 1;
        }
        assert(lock.remote().take(lock.packages@.len() as int) =~= lock.remote());
        assert(lock.local().take(0) =~= Seq::<crate::lock_file::LocalPackageView>::empty());
        assert(roots + lock.local().take(0).map_values(|q: crate::lock_file::LocalPackageView| local_dependency(q)) =~= roots);
        let mut k: usize = 0;
        while k < lock.local_packages.len()
            invariant
                k <= lock.local_packages@.len(),
                roots == lock.remote().filter(|q: crate::lock_file::RemotePackageView| q.root).map_values(
                    |q: crate::lock_file::RemotePackageView| remote_dependency(q),
                ),
                deps_sorted(dep_views(deps@)),
                dep_views(deps@).to_multiset() == (roots + lock.local().take(k as int).map_values(
                    |q: crate::lock_file::LocalPackageView| local_dependency(q),
                )).to_multiset(),
                forall|g: Seq<char>, key: Seq<char>|
                    #[trigger] with_key(dep_views(deps@), g, key) == with_key(
                        roots + lock.local().take(k as int).map_values(|q: crate::lock_file::LocalPackageView| local_dependency(q)),
                        g,
                        key,
                    ),
            decreases lock.local_packages@.len() - k,
        {
            let d = local_to_dependency(&lock.local_packages[k]);
            let ghost dv = d@;
            deps = insert_by_key(deps, d);
            proof {
                let before = roots + lock.local().take(k as int).map_values(|q: crate::lock_file::LocalPackageView| local_dependency(q));
                assert(roots + lock.local().take(k + 1).map_values(|q: crate::lock_file::LocalPackageView| local_dependency(q))
                    =~= before.push(dv));
                vstd::seq_lib::to_multiset_build(before, dv);
                assert(before.push(dv).drop_last() =~= before);
                assert(before.push(dv).last() == dv);
            }
            k = k + 1;
        }
        assert(lock.local().take(lock.local_packages@.len() as int) =~= lock.local());
        proof {
            assert forall|i: int| 0 <= i < lock.remote().len() && (#[trigger] lock.remote()[i]).root implies exists|k: int|
                0 <= k < dep_views(deps@).len() && lists_root(#[trigger] dep_views(deps@)[k], lock.remote()[i]) by {
                let k = lemma_root_in_pom(lock, dep_views(deps@), i);
                assert(lists_root(dep_views(deps@)[k], lock.remote()[i]));
            }
        }
        let mut properties: Vec<Property> = Vec::new();
        properties.push(Property { name: owned("maven.compiler.release"), value: jdk.clone() });
        let pom = MavenPom {
            model_version: Some(owned("4.0.0")),
            group_id,
            artifact_id,
            version,
            packaging: DependencyType::Jar,
            dependencies: Some(Dependencies { dependency: deps }),
            properties,
            build,
        };
        Ok(pom)
    }
}

/// The missing value `name` for the POM.
fn missing(name: &str) -> (e: GenerateError)
    ensures
        e matches GenerateError::MissingValue { value_name, generated_value } && value_name@ == name@
            && generated_value@ == "pom.xml"@,
{
    GenerateError::MissingValue { value_name: owned(name), generated_value: owned("pom.xml") }
}

/// The views of processor path entries.
pub open spec fn processor_path_views(v: Seq<ProcessorPath>) -> Seq<crate::maven::MavenIdView> {
    v.map_values(|p: ProcessorPath| crate::maven::MavenIdView { group: p.group_id@, artifact: p.artifact_id@, version: p.version@ })
}

/// The build section holds exactly the compiler plugin (version 3.11.0)
/// with these coordinates, in order, on its processor path.
pub open spec fn build_has_processors(b: Build, coords: Seq<crate::maven::MavenIdView>) -> bool {
    &&& b.source is None
    &&& b.target is None
    &&& b.plugins matches Some(ps) && ps.plugin@.len() == 1 && {
        let pl = ps.plugin@[0];
        &&& pl.group_id matches Some(g) && g@ == "org.apache.maven.plugins"@
        &&& pl.artifact_id matches Some(a) && a@ == "maven-compiler-plugin"@
        &&& pl.version matches Some(v) && v@ == "3.11.0"@
        &&& pl.configuration matches Some(c) && c.annotation_processor_paths matches Some(app)
            && processor_path_views(app.path@) == coords
    }
}

/// The build section for the packages that declare annotation processors,
/// or none when no package does.
fn processor_build(lock: &LockFile) -> (r: Option<Build>)
    ensures
        processor_coordinates(lock).len() == 0 <==> r is None,
        r matches Some(b) ==> build_has_processors(b, processor_coordinates(lock)),
{
    let mut paths: Vec<ProcessorPath> = Vec::new();
    let mut i: usize = 0;
    while i < lock.packages.len()
        invariant
            i <= lock.packages@.len(),
            processor_path_views(paths@) == lock.remote().take(i as int).filter(
                |p: crate::lock_file::RemotePackageView| p.annotations.len() > 0,
            ).map_values(|p: crate::lock_file::RemotePackageView| p.id),
        decreases lock.packages@.len() - i,
    {
        let ghost prev = lock.remote().take(i as int);
        assert(lock.remote().take(i + 1) =~= prev.push(lock.packages@[i as int]@));
        proof {
            prev.lemma_filter_push(lock.packages@[i as int]@, |p: crate::lock_file::RemotePackageView| p.annotations.len() > 0);
        }
        if lock.packages[i].annotations.len() > 0 {
            let pp = ProcessorPath {
                group_id: lock.packages[i].id.group.clone(),
                artifact_id: lock.packages[i].id.artifact.clone(),
                version: lock.packages[i].id.version.clone(),
            };
            let ghost before = paths@;
            paths.push(pp);
            assert(processor_path_views(paths@) =~= processor_path_views(before).push(lock.packages@[i as int]@.id));
        }
        i = i + 1;
    }
    assert(lock.remote().take(lock.packages@.len() as int) =~= lock.remote());
    if paths.len() == 0 {
        return None;
    }
    let mut plugin: Vec<Plugin> = Vec::new();
    plugin.push(
        Plugin {
            group_id: Some(owned("org.apache.maven.plugins")),
            artifact_id: Some(owned("maven-compiler-plugin")),
            version: Some(owned("3.11.0")),
            configuration: Some(
                Configuration { annotation_processor_paths: Some(AnnotationProcessorPaths { path: paths }) },
            ),
        },
    );
    Some(Build { plugins: Some(Plugins { plugin }), source: None, target: None })
}

/// A root remote package of the lock file is among any list that holds the
/// same dependencies as the POM's.
proof fn lemma_root_in_pom(lock: &LockFile, ds: Seq<DependencyView>, i: int) -> (k: int)
    requires
        ds.to_multiset() == pom_dependencies(lock).to_multiset(),
        0 <= i < lock.remote().len(),
        lock.remote()[i].root,
    ensures
        0 <= k < ds.len(),
        ds[k] == remote_dependency(lock.remote()[i]),
{
    let p = lock.remote()[i];
    let roots = lock.remote().filter(|q: crate::lock_file::RemotePackageView| q.root);
    lock.remote().lemma_filter_contains(|q: crate::lock_file::RemotePackageView| q.root, i);
    let j = choose|j: int| 0 <= j < roots.len() && roots[j] == p;
    let rd = roots.map_values(|q: crate::lock_file::RemotePackageView| remote_dependency(q));
    assert(rd[j] == remote_dependency(p));
    let locals = lock.local().map_values(|q: crate::lock_file::LocalPackageView| local_dependency(q));
    assert(pom_dependencies(lock) == rd + locals);
    assert((rd + locals)[j] == remote_dependency(p));
    assert(pom_dependencies(lock).contains(remote_dependency(p)));
    vstd::seq_lib::to_multiset_contains(pom_dependencies(lock), remote_dependency(p));
    vstd::seq_lib::to_multiset_contains(ds, remote_dependency(p));
    choose|k: int| 0 <= k < ds.len() && ds[k] == remote_dependency(p)
}

} // verus!
