//! Importing a Maven POM: the config that stands for it.

use vstd::prelude::*;
use crate::config::{ConfigProject, ConfigTomlEdit};
use crate::config_edit::{TableView, added_tables, table_views};

verus! {

/// A dependency as a POM declares it, by coordinates; the version may be
/// left to the dependency management section.
#[derive(Debug)]
pub struct PomDependency {
    pub group_id: String,
    pub artifact_id: String,
    pub version: Option<String>,
}

/// What importing reads of a POM: its coordinates, its dependencies and the
/// dependencies of its dependency management section (each list `None`
/// when the section is absent).
#[derive(Debug)]
pub struct ImportedPom {
    pub group_id: String,
    pub artifact_id: String,
    pub version: String,
    pub dependencies: Option<Vec<PomDependency>>,
    pub managed: Option<Vec<PomDependency>>,
}

/// The config that stands for a POM, and the dependencies left out for want
/// of a version (as group and artifact).
#[derive(Debug)]
pub struct ImportedConfig {
    pub project: ConfigProject,
    pub config: ConfigTomlEdit,
    pub skipped: Vec<(String, String)>,
}

/// The characters of a POM dependency: group, artifact and version.
pub open spec fn pom_dep_view(d: PomDependency) -> (Seq<char>, Seq<char>, Option<Seq<char>>) {
    (
        d.group_id@,
        d.artifact_id@,
        match d.version {
            Some(v) => Some(v@),
            None => None,
        },
    )
}

/// The characters of a list of POM dependencies.
pub open spec fn pom_dep_views(v: Seq<PomDependency>) -> Seq<(Seq<char>, Seq<char>, Option<Seq<char>>)> {
    v.map_values(|d: PomDependency| pom_dep_view(d))
}

/// The managed version of `group:artifact` among the first `upto` managed
/// dependencies: that of the last one with these coordinates and a version.
pub open spec fn managed_version(
    managed: Seq<(Seq<char>, Seq<char>, Option<Seq<char>>)>,
    group: Seq<char>,
    artifact: Seq<char>,
    upto: int,
) -> Option<Seq<char>>
    decreases upto,
{
    if upto <= 0 {
        None
    } else {
        let m = managed[upto - 1];
        if m.0 == group && m.1 == artifact && m.2 is Some {
            m.2
        } else {
            managed_version(managed, group, artifact, upto - 1)
        }
    }
}

/// The version a dependency is imported with: its own, else the managed one.
pub open spec fn import_version(
    d: (Seq<char>, Seq<char>, Option<Seq<char>>),
    managed: Seq<(Seq<char>, Seq<char>, Option<Seq<char>>)>,
) -> Option<Seq<char>> {
    if d.2 is Some {
        d.2
    } else {
        managed_version(managed, d.0, d.1, managed.len() as int)
    }
}

/// The dependency tables after importing the first `upto` dependencies: each
/// with a version is added by its artifact, as `add_package` adds it.
pub open spec fn imported_tables(
    deps: Seq<(Seq<char>, Seq<char>, Option<Seq<char>>)>,
    managed: Seq<(Seq<char>, Seq<char>, Option<Seq<char>>)>,
    upto: int,
) -> Seq<TableView>
    decreases upto,
{
    if upto <= 0 {
        Seq::<TableView>::empty()
    } else {
        let prev = imported_tables(deps, managed, upto - 1);
        let d = deps[upto - 1];
        match import_version(d, managed) {
            Some(v) => added_tables(prev, d.0, d.1, v),
            None => prev,
        }
    }
}

/// The dependencies among the first `upto` that have no version to import.
pub open spec fn skipped_deps(
    deps: Seq<(Seq<char>, Seq<char>, Option<Seq<char>>)>,
    managed: Seq<(Seq<char>, Seq<char>, Option<Seq<char>>)>,
    upto: int,
) -> Seq<(Seq<char>, Seq<char>)>
    decreases upto,
{
    if upto <= 0 {
        Seq::<(Seq<char>, Seq<char>)>::empty()
    } else {
        let prev = skipped_deps(deps, managed, upto - 1);
        let d = deps[upto - 1];
        if import_version(d, managed) is None {
            prev.push((d.0, d.1))
        } else {
            prev
        }
    }
}

/// The characters of a list of group and artifact pairs.
pub open spec fn pair_views(v: Seq<(String, String)>) -> Seq<(Seq<char>, Seq<char>)> {
    v.map_values(|p: (String, String)| (p.0@, p.1@))
}

/// The managed list of a POM (empty without the section).
pub open spec fn managed_of(pom: ImportedPom) -> Seq<(Seq<char>, Seq<char>, Option<Seq<char>>)> {
    match pom.managed {
        Some(m) => pom_dep_views(m@),
        None => Seq::empty(),
    }
}

/// The managed version of `group:artifact`, if any (see `managed_version`).
fn find_managed(managed: &Vec<PomDependency>, group: &String, artifact: &String) -> (r: Option<String>)
    ensures
        match managed_version(pom_dep_views(managed@), group@, artifact@, managed@.len() as int) {
            Some(v) => (r matches Some(s) && s@ == v),
            None => r is None,
        },
{
    let ghost mv = pom_dep_views(managed@);
    let mut i: usize = managed.len();
    while i > 0
        invariant
            i <= managed@.len(),
            mv == pom_dep_views(managed@),
            managed_version(mv, group@, artifact@, managed@.len() as int) == managed_version(
                mv,
                group@,
                artifact@,
                i as int,
            ),
        decreases i,
    {
        let m = &managed[i - 1];
        assert(mv[i - 1] == pom_dep_view(managed@[i - 1]));
        if m.group_id == *group && m.artifact_id == *artifact {
            match &m.version {
                Some(v) => {
                    return Some(v.clone());
                },
                None => {},
            }
        }
        i = i - 1;
    }
    None
}

/// The config that stands for a POM: the project is named after the
/// artifact and takes the POM's coordinates; when the POM lists
/// dependencies, each is added by its artifact with its group and its
/// version (or, failing that, the version of the dependency management
/// section), and one with no version at all is left out and reported.
pub fn import_pom(pom: &ImportedPom) -> (r: ImportedConfig)
    ensures
        r.project.name@ == pom.artifact_id@,
        r.project.group matches Some(g) && g@ == pom.group_id@,
        r.project.artifact matches Some(a) && a@ == pom.artifact_id@,
        r.project.version matches Some(v) && v@ == pom.version@,
        r.config.dependencies is Some <==> pom.dependencies is Some,
        match pom.dependencies {
            Some(d) => {
                &&& table_views(r.config) == imported_tables(pom_dep_views(d@), managed_of(*pom), d@.len() as int)
                &&& pair_views(r.skipped@) == skipped_deps(pom_dep_views(d@), managed_of(*pom), d@.len() as int)
            },
            None => r.skipped@.len() == 0,
        },
{
    let project = ConfigProject {
        name: pom.artifact_id.clone(),
        group: Some(pom.group_id.clone()),
        artifact: Some(pom.artifact_id.clone()),
        version: Some(pom.version.clone()),
    };
    let no_managed: Vec<PomDependency> = Vec::new();
    let managed = match &pom.managed {
        Some(m) => m,
        None => &no_managed,
    };
    assert(pom_dep_views(managed@) =~= managed_of(*pom));
    let mut skipped: Vec<(String, String)> = Vec::new();
    let deps = match &pom.dependencies {
        Some(d) => d,
        None => {
            return ImportedConfig { project, config: ConfigTomlEdit { dependencies: None }, skipped };
        },
    };
    let ghost dv = pom_dep_views(deps@);
    let ghost mv = managed_of(*pom);
    let mut config = ConfigTomlEdit { dependencies: Some(Vec::new()) };
    assert(table_views(config) =~= Seq::<TableView>::empty());
    assert(pair_views(skipped@) =~= Seq::<(Seq<char>, Seq<char>)>::empty());
    let mut i: usize = 0;
    while i < deps.len()
        invariant
            i <= deps@.len(),
            dv == pom_dep_views(deps@),
            mv == pom_dep_views(managed@),
            config.dependencies is Some,
            table_views(config) == imported_tables(dv, mv, i as int),
            pair_views(skipped@) == skipped_deps(dv, mv, i as int),
        decreases deps@.len() - i,
    {
        let d = &deps[i];
        assert(dv[i as int] == pom_dep_view(deps@[i as int]));
        let version = match &d.version {
            Some(v) => Some(v.clone()),
            None => find_managed(managed, &d.group_id, &d.artifact_id),
        };
        match version {
            Some(v) => {
                config.add_package(&d.group_id, &d.artifact_id, &v);
            },
            None => {
                let ghost before = skipped@;
                skipped.push((d.group_id.clone(), d.artifact_id.clone()));
                assert(pair_views(skipped@) =~= pair_views(before).push((d.group_id@, d.artifact_id@)));
            },
        }
        i = i + 1;
    }
    ImportedConfig { project, config, skipped }
}

/// Whether importing writes the config: always when there is none yet; over
/// an existing one only when asked to overwrite it.
pub fn config_write_wanted(config_exists: bool, overwrite: bool) -> (w: bool)
    ensures
        w == (!config_exists || overwrite),
{
    !config_exists || overwrite
}

} // verus!
