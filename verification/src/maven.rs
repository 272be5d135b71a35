//! Maven coordinates, scopes and packaging kinds.

use vstd::prelude::*;
use vstd::string::*;
use crate::text::{owned, push_char};

verus! {

/// The characters of a Maven coordinate `group:artifact:version`.
pub struct MavenIdView {
    pub group: Seq<char>,
    pub artifact: Seq<char>,
    pub version: Seq<char>,
}

/// A full Maven coordinate.
#[derive(Debug)]
pub struct MavenId {
    pub group: String,
    pub artifact: String,
    pub version: String,
}

impl View for MavenId {
    type V = MavenIdView;

    open spec fn view(&self) -> MavenIdView {
        MavenIdView { group: self.group@, artifact: self.artifact@, version: self.version@ }
    }
}

impl MavenId {
    /// A coordinate from its three parts.
    pub fn new(group: &str, artifact: &str, version: &str) -> (id: MavenId)
        ensures
            id@ == (MavenIdView { group: group@, artifact: artifact@, version: version@ }),
    {
        MavenId { group: owned(group), artifact: owned(artifact), version: owned(version) }
    }

    /// A copy with the same three parts.
    pub fn copy(&self) -> (id: MavenId)
        ensures
            id@ == self@,
    {
        MavenId {
            group: self.group.clone(),
            artifact: self.artifact.clone(),
            version: self.version.clone(),
        }
    }

    /// Whether both coordinates have the same three parts.
    pub fn same_as(&self, other: &MavenId) -> (b: bool)
        ensures
            b == (self@ == other@),
    {
        self.group == other.group && self.artifact == other.artifact && self.version
            == other.version
    }

    /// The coordinate without its version.
    pub fn to_partial(&self) -> (p: PartialMavenId)
        ensures
            p@ == (PartialMavenIdView { group: self@.group, artifact: self@.artifact }),
    {
        PartialMavenId { group: self.group.clone(), artifact: self.artifact.clone() }
    }

    /// `group:artifact:version`.
    pub fn to_display_string(&self) -> (s: String)
        ensures
            s@ == self@.group + seq![':'] + self@.artifact + seq![':'] + self@.version,
    {
        let mut s = self.group.clone();
        push_char(&mut s, ':');
        s.append(self.artifact.as_str());
        push_char(&mut s, ':');
        s.append(self.version.as_str());
        s
    }
}

/// The characters of a coordinate without version.
pub struct PartialMavenIdView {
    pub group: Seq<char>,
    pub artifact: Seq<char>,
}

/// A Maven coordinate without version: `group:artifact`.
#[derive(Debug)]
pub struct PartialMavenId {
    pub group: String,
    pub artifact: String,
}

impl View for PartialMavenId {
    type V = PartialMavenIdView;

    open spec fn view(&self) -> PartialMavenIdView {
        PartialMavenIdView { group: self.group@, artifact: self.artifact@ }
    }
}

impl PartialMavenId {
    /// A coordinate without version from its two parts.
    pub fn new(group: &str, artifact: &str) -> (id: PartialMavenId)
        ensures
            id@ == (PartialMavenIdView { group: group@, artifact: artifact@ }),
    {
        PartialMavenId { group: owned(group), artifact: owned(artifact) }
    }

    /// The full coordinate with `version` added.
    pub fn to_full(&self, version: &str) -> (id: MavenId)
        ensures
            id@ == (MavenIdView {
                group: self@.group,
                artifact: self@.artifact,
                version: version@,
            }),
    {
        MavenId { group: self.group.clone(), artifact: self.artifact.clone(), version: owned(version) }
    }

    /// Whether both have the same group and artifact.
    pub fn same_as(&self, other: &PartialMavenId) -> (b: bool)
        ensures
            b == (self@ == other@),
    {
        self.group == other.group && self.artifact == other.artifact
    }

    /// A copy with the same two parts.
    pub fn copy(&self) -> (id: PartialMavenId)
        ensures
            id@ == self@,
    {
        PartialMavenId { group: self.group.clone(), artifact: self.artifact.clone() }
    }
}

/// The Maven scope of a dependency.
#[derive(Debug, Clone, Copy, PartialEq, Eq, Structural)]
pub enum Scope {
    Compile,
    Provided,
    Runtime,
    Test,
    System,
    Import,
}

impl Scope {
    /// The scope a dependency has when none is given: `compile`.
    pub fn default_scope() -> (s: Scope)
        ensures
            s == Scope::Compile,
    {
        Scope::Compile
    }

    /// Whether `scopes` holds this scope.
    pub fn is_in(&self, scopes: &[Scope]) -> (b: bool)
        ensures
            b == scopes@.contains(*self),
    {
        let mut i: usize = 0;
        while i < scopes.len()
            invariant
                i <= scopes@.len(),
                forall|j: int| 0 <= j < i ==> scopes@[j] != *self,
            decreases scopes@.len() - i,
        {
            if scopes[i] == *self {
                assert(scopes@[i as int] == *self);
                return true;
            }
            i = i + 1;
        }
        false
    }
}

/// How a dependency is packaged.
#[derive(Debug, Clone, Copy, PartialEq, Eq, Structural)]
pub enum DependencyType {
    Jar,
    Pom,
    War,
    Ear,
    Bundle,
}

/// The Maven repository that packages are fetched from.
pub const MAVEN_URL: &'static str = "https://repo1.maven.org/maven2/";

/// Every `.` of `s` turned into `/`.
pub open spec fn dots_to_slashes(s: Seq<char>) -> Seq<char> {
    s.map_values(|c: char| if c == '.' { '/' } else { c })
}

/// The folder of an artifact in the Maven repository: the repository's
/// address, the group with its dots as slashes, the artifact, each followed
/// by a slash.
pub fn create_maven_url(group: &str, artifact: &str) -> (r: String)
    ensures
        r@ == MAVEN_URL@ + dots_to_slashes(group@) + seq!['/'] + artifact@ + seq!['/'],
{
    let mut r = owned(MAVEN_URL);
    let ghost start = r@;
    let n = group.unicode_len();
    let mut i: usize = 0;
    while i < n
        invariant
            n == group@.len(),
            i <= n,
            r@ == start + dots_to_slashes(group@.take(i as int)),
        decreases n - i,
    {
        let c = group.get_char(i);
        let ghost before = r@;
        if c == '.' {
            push_char(&mut r, '/');
        } else {
            push_char(&mut r, c);
        }
        assert(dots_to_slashes(group@.take(i + 1)) =~= dots_to_slashes(group@.take(i as int)).push(
            if c == '.' { '/' } else { c },
        ));
        i = i + 1;
    }
    assert(group@.take(n as int) =~= group@);
    push_char(&mut r, '/');
    r.append(artifact);
    push_char(&mut r, '/');
    r
}

} // verus!
