//! Adding and removing dependency tables of the config.

use vstd::prelude::*;
use crate::config::{ConfigDependencyTomlEditView, ConfigTomlEdit, NamedDependencyView, dependency_tables};
use crate::errors::{ConfigError, ConfigErrorView};
use crate::maven::Scope;

verus! {

/// A dependency table as plain values: its name (the artifact) and its keys.
pub struct TableView {
    pub name: Seq<char>,
    pub group: Option<Seq<char>>,
    pub version: Option<Seq<char>>,
    pub scope: Option<Scope>,
    pub path: Option<Seq<char>>,
}

/// The plain view of an optional string.
pub open spec fn opt_view(s: Option<String>) -> Option<Seq<char>> {
    match s {
        Some(x) => Some(x@),
        None => None,
    }
}

/// The plain view of a dependency table.
pub open spec fn table_view(d: NamedDependencyView) -> TableView {
    TableView {
        name: d.name@,
        group: opt_view(d.view.group),
        version: opt_view(d.view.version),
        scope: d.view.scope,
        path: opt_view(d.view.path),
    }
}

/// The plain views of a list of tables.
pub open spec fn views_of(deps: Seq<NamedDependencyView>) -> Seq<TableView> {
    deps.map_values(|d: NamedDependencyView| table_view(d))
}

/// The plain views of the tables of a config.
pub open spec fn table_views(c: ConfigTomlEdit) -> Seq<TableView> {
    views_of(dependency_tables(c))
}

/// Table `i` is the first one named `name`.
pub open spec fn first_named(ts: Seq<TableView>, name: Seq<char>, i: int) -> bool {
    &&& 0 <= i < ts.len()
    &&& ts[i].name == name
    &&& forall|j: int| 0 <= j < i ==> ts[j].name != name
}

/// The table that adding `group:artifact:version` writes: only the group and
/// the version, under the artifact's name.
pub open spec fn new_table(group: Seq<char>, artifact: Seq<char>, version: Seq<char>) -> TableView {
    TableView { name: artifact, group: Some(group), version: Some(version), scope: None, path: None }
}

/// The tables after adding `group:artifact:version`: the new table takes
/// the place of the first table with the artifact's name, or is appended
/// when there is none.
pub open spec fn added_tables(ts: Seq<TableView>, group: Seq<char>, artifact: Seq<char>, version: Seq<char>) -> Seq<TableView> {
    if exists|i: int| first_named(ts, artifact, i) {
        ts.update(choose|i: int| first_named(ts, artifact, i), new_table(group, artifact, version))
    } else {
        ts.push(new_table(group, artifact, version))
    }
}

/// The version that removing `group:artifact` finds: that of the first
/// table named `artifact`, when that table has this group and a version.
pub open spec fn removed_version(ts: Seq<TableView>, group: Seq<char>, artifact: Seq<char>) -> Option<Seq<char>> {
    if exists|i: int| first_named(ts, artifact, i) {
        let t = ts[choose|i: int| first_named(ts, artifact, i)];
        if t.group == Some(group) && t.version is Some {
            t.version
        } else {
            None
        }
    } else {
        None
    }
}

/// The tables not named `name`, in order.
pub open spec fn without_name(ts: Seq<TableView>, name: Seq<char>) -> Seq<TableView>
    decreases ts.len(),
{
    if ts.len() == 0 {
        ts
    } else {
        let rest = without_name(ts.drop_last(), name);
        if ts.last().name == name {
            rest
        } else {
            rest.push(ts.last())
        }
    }
}

/// The index of the first table named `name`, if any.
fn find_named(deps: &Vec<NamedDependencyView>, name: &String) -> (r: Option<usize>)
    ensures
        match r {
            Some(i) => first_named(views_of(deps@), name@, i as int),
            None => !exists|i: int| #[trigger] first_named(views_of(deps@), name@, i),
        },
{
    let ghost ts = views_of(deps@);
    let mut i: usize = 0;
    while i < deps.len()
        invariant
            ts == views_of(deps@),
            i <= deps@.len(),
            forall|j: int| 0 <= j < i ==> ts[j].name != name@,
        decreases deps@.len() - i,
    {
        assert(ts[i as int] == table_view(deps@[i as int]));
        if deps[i].name == *name {
            return Some(i);
        }
        i = i + 1;
    }
    proof {
        if exists|k: int| first_named(ts, name@, k) {
            let k = choose|k: int| first_named(ts, name@, k);
            assert(ts[k].name != name@);
        }
    }
    None
}

proof fn lemma_first_named_unique(ts: Seq<TableView>, name: Seq<char>, i: int, k: int)
    requires
        first_named(ts, name, i),
        first_named(ts, name, k),
    ensures
        i == k,
{
    if i < k {
        assert(ts[i].name != name);
    } else if k < i {
        assert(ts[k].name != name);
    }
}

proof fn lemma_some_named_has_first(ts: Seq<TableView>, name: Seq<char>, j: int)
    requires
        0 <= j < ts.len(),
        ts[j].name == name,
    ensures
        exists|i: int| first_named(ts, name, i),
    decreases j,
{
    if exists|k: int| 0 <= k < j && ts[k].name == name {
        let k = choose|k: int| 0 <= k < j && ts[k].name == name;
        lemma_some_named_has_first(ts, name, k);
    } else {
        assert(first_named(ts, name, j));
    }
}

impl ConfigTomlEdit {
    /// Writes the table of `group:artifact:version` under the artifact's
    /// name, holding only the group and the version: it replaces the table
    /// of that name, or is appended, and the `[dependencies]` section is
    /// created when the config has none.
    pub fn add_package(&mut self, group: &String, artifact: &String, version: &String)
        ensures
            final(self).dependencies is Some,
            table_views(*final(self)) == added_tables(table_views(*old(self)), group@, artifact@, version@),
    {
        let table = NamedDependencyView {
            name: artifact.clone(),
            view: ConfigDependencyTomlEditView {
                group: Some(group.clone()),
                version: Some(version.clone()),
                scope: None,
                path: None,
            },
        };
        assert(table_view(table) == new_table(group@, artifact@, version@));
        let mut deps = match self.dependencies.take() {
            Some(d) => d,
            None => Vec::new(),
        };
        let ghost ts = table_views(*old(self));
        assert(views_of(deps@) =~= ts);
        match find_named(&deps, artifact) {
            Some(i) => {
                proof {
                    let k = choose|k: int| first_named(ts, artifact@, k);
                    lemma_first_named_unique(ts, artifact@, i as int, k);
                }
                deps.set(i, table);
                assert(views_of(deps@) =~= ts.update(
                    i as int,
                    new_table(group@, artifact@, version@),
                ));
            },
            None => {
                deps.push(table);
                assert(views_of(deps@) =~= ts.push(
                    new_table(group@, artifact@, version@),
                ));
            },
        }
        self.dependencies = Some(deps);
    }

    /// Removes the table of `group:artifact` and gives back its version.
    /// Fails with `PackageNotFound`, leaving the config as it was, unless
    /// the first table named `artifact` has this group and a version; else
    /// every table of that name goes.
    pub fn remove_package(&mut self, group: &String, artifact: &String) -> (r: Result<String, ConfigError>)
        ensures
            match removed_version(table_views(*old(self)), group@, artifact@) {
                None => (r matches Err(e) && e@ == ConfigErrorView::PackageNotFound) && *final(self) == *old(
                    self,
                ),
                Some(v) => (r matches Ok(s) && s@ == v) && final(self).dependencies is Some && table_views(
                    *final(self),
                ) == without_name(table_views(*old(self)), artifact@),
            },
    {
        let ghost ts = table_views(*self);
        let found = match &self.dependencies {
            Some(deps) => {
                assert(views_of(deps@) =~= ts);
                match find_named(deps, artifact) {
                    Some(i) => {
                        proof {
                            let k = choose|k: int| first_named(ts, artifact@, k);
                            lemma_first_named_unique(ts, artifact@, i as int, k);
                        }
                        assert(ts[i as int] == table_view(deps@[i as int]));
                        let same_group = match &deps[i].view.group {
                            Some(g) => *g == *group,
                            None => false,
                        };
                        if same_group {
                            match &deps[i].view.version {
                                Some(v) => Some(v.clone()),
                                None => None,
                            }
                        } else {
                            None
                        }
                    },
                    None => None,
                }
            },
            None => {
                assert(ts =~= Seq::<TableView>::empty());
                None
            },
        };
        let version = match found {
            Some(v) => v,
            None => {
                return Err(ConfigError::PackageNotFound);
            },
        };
        let deps = match self.dependencies.take() {
            Some(d) => d,
            None => Vec::new(),
        };
        assert(views_of(deps@) =~= ts);
        let mut kept: Vec<NamedDependencyView> = Vec::new();
        let mut rest = deps;
        proof {
            assert(ts.take(0) =~= Seq::<TableView>::empty());
            assert(views_of(kept@) =~= Seq::<TableView>::empty());
        }
        let n: usize = rest.len();
        let mut i: usize = 0;
        while i < n
            invariant
                n == ts.len(),
                i <= n,
                rest@.len() == n - i,
                forall|j: int| 0 <= j < n - i ==> table_view(#[trigger] rest@[j]) == ts[i + j],
                views_of(kept@) == without_name(ts.take(i as int), artifact@),
            decreases n - i,
        {
            let d = rest.remove(0);
            assert(table_view(d) == ts[i as int]);
            assert(ts.take(i as int + 1).drop_last() =~= ts.take(i as int));
            assert(ts.take(i as int + 1).last() == ts[i as int]);
            let ghost before = kept@;
            if d.name != *artifact {
                kept.push(d);
                assert(views_of(kept@) =~= views_of(before).push(ts[i as int]));
            }
            i = i + 1;
        }
        assert(ts.take(n as int) =~= ts);
        self.dependencies = Some(kept);
        Ok(version)
    }
}

/// What a removal gives back of an addition: after `group:artifact:version`
/// is added to any config, removing `group:artifact` succeeds with that
/// version.
pub proof fn lemma_remove_finds_added(ts: Seq<TableView>, group: Seq<char>, artifact: Seq<char>, version: Seq<char>)
    ensures
        removed_version(added_tables(ts, group, artifact, version), group, artifact) == Some(version),
{
    let after = added_tables(ts, group, artifact, version);
    if exists|i: int| first_named(ts, artifact, i) {
        let i = choose|i: int| first_named(ts, artifact, i);
        assert(after == ts.update(i, new_table(group, artifact, version)));
        assert(first_named(after, artifact, i));
        let k = choose|k: int| first_named(after, artifact, k);
        lemma_first_named_unique(after, artifact, i, k);
    } else {
        assert(after == ts.push(new_table(group, artifact, version)));
        let i = ts.len() as int;
        assert forall|j: int| 0 <= j < i implies after[j].name != artifact by {
            if ts[j].name == artifact {
                lemma_some_named_has_first(ts, artifact, j);
            }
        }
        assert(first_named(after, artifact, i));
        let k = choose|k: int| first_named(after, artifact, k);
        lemma_first_named_unique(after, artifact, i, k);
    }
}

/// After a removal no table of the removed name is left, and the others
/// stay.
pub proof fn lemma_removed_name_gone(ts: Seq<TableView>, name: Seq<char>, t: TableView)
    ensures
        !without_name(ts, name).contains(t) || t.name != name,
        t.name != name ==> (ts.contains(t) <==> without_name(ts, name).contains(t)),
    decreases ts.len(),
{
    if ts.len() > 0 {
        lemma_removed_name_gone(ts.drop_last(), name, t);
        let rest = without_name(ts.drop_last(), name);
        if ts.last().name != name {
            assert(rest.push(ts.last()).contains(t) <==> (rest.contains(t) || ts.last() == t)) by {
                if rest.push(ts.last()).contains(t) {
                    let k = choose|k: int| 0 <= k < rest.len() + 1 && rest.push(ts.last())[k] == t;
                    if k < rest.len() {
                        assert(rest[k] == t);
                    }
                }
                if rest.contains(t) {
                    let k = choose|k: int| 0 <= k < rest.len() && rest[k] == t;
                    assert(rest.push(ts.last())[k] == t);
                }
                if ts.last() == t {
                    assert(rest.push(ts.last())[rest.len() as int] == t);
                }
            }
        }
        assert(ts.contains(t) <==> (ts.drop_last().contains(t) || ts.last() == t)) by {
            if ts.contains(t) {
                let k = choose|k: int| 0 <= k < ts.len() && ts[k] == t;
                if k < ts.len() - 1 {
                    assert(ts.drop_last()[k] == t);
                }
            }
            if ts.drop_last().contains(t) {
                let k = choose|k: int| 0 <= k < ts.len() - 1 && ts.drop_last()[k] == t;
                assert(ts[k] == t);
            }
        }
    }
}

} // verus!
