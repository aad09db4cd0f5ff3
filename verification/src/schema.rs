//! Node and edge types of the dependency graph.
//!
//! Every package ecosystem, package, version and dependency edge is a plain
//! value here; each type has a view over `Seq<char>` that the contracts use.
use vstd::prelude::*;
use crate::text::{push_char, push_str, index_of, lemma_index_of_unique};

verus! {

broadcast use vstd::string::group_string_axioms;

// ── Ecosystem ───────────────────────────────────────────────────────────────

/// Every supported package ecosystem. Stored as a string label in the graph.
#[derive(Debug, Clone, Copy, PartialEq, Eq, Hash, Structural)]
pub enum Ecosystem {
    Npm,
    PyPI,
    Cargo,
    Composer,
    Maven,
    NuGet,
    Go,
    RubyGems,
    Hex,
}

/// The lowercase label of an ecosystem, as it is written into graph ids.
pub open spec fn ecosystem_label(e: Ecosystem) -> Seq<char> {
    match e {
        Ecosystem::Npm => "npm"@,
        Ecosystem::PyPI => "pypi"@,
        Ecosystem::Cargo => "cargo"@,
        Ecosystem::Composer => "composer"@,
        Ecosystem::Maven => "maven"@,
        Ecosystem::NuGet => "nuget"@,
        Ecosystem::Go => "go"@,
        Ecosystem::RubyGems => "rubygems"@,
        Ecosystem::Hex => "hex"@,
    }
}

impl Ecosystem {
    /// The lowercase label of this ecosystem.
    pub fn label(&self) -> (r: &'static str)
        ensures
            r@ == ecosystem_label(*self),
    {
        match self {
            Ecosystem::Npm => "npm",
            Ecosystem::PyPI => "pypi",
            Ecosystem::Cargo => "cargo",
            Ecosystem::Composer => "composer",
            Ecosystem::Maven => "maven",
            Ecosystem::NuGet => "nuget",
            Ecosystem::Go => "go",
            Ecosystem::RubyGems => "rubygems",
            Ecosystem::Hex => "hex",
        }
    }

    /// The label as an owned string (what the ecosystem displays as).
    pub fn to_string(&self) -> (r: String)
        ensures
            r@ == ecosystem_label(*self),
    {
        self.label().to_string()
    }
}

/// Distinct ecosystems have distinct labels, so a label names one ecosystem.
pub proof fn lemma_ecosystem_label_injective(a: Ecosystem, b: Ecosystem)
    requires
        ecosystem_label(a) == ecosystem_label(b),
    ensures
        a == b,
{
    reveal_strlit("npm");
    reveal_strlit("pypi");
    reveal_strlit("cargo");
    reveal_strlit("composer");
    reveal_strlit("maven");
    reveal_strlit("nuget");
    reveal_strlit("go");
    reveal_strlit("rubygems");
    reveal_strlit("hex");
    let la = ecosystem_label(a);
    let lb = ecosystem_label(b);
    if a != b {
        assert(la.len() != lb.len() || exists|i: int| 0 <= i < la.len() && la[i] != lb[i]) by {
            match (a, b) {
                (Ecosystem::Npm, Ecosystem::Hex) => { assert(la[0] != lb[0]); },
                (Ecosystem::Hex, Ecosystem::Npm) => { assert(la[0] != lb[0]); },
                (Ecosystem::Maven, Ecosystem::NuGet) => { assert(la[0] != lb[0]); },
                (Ecosystem::NuGet, Ecosystem::Maven) => { assert(la[0] != lb[0]); },
                (Ecosystem::Cargo, Ecosystem::Maven) => { assert(la[0] != lb[0]); },
                (Ecosystem::Maven, Ecosystem::Cargo) => { assert(la[0] != lb[0]); },
                (Ecosystem::Cargo, Ecosystem::NuGet) => { assert(la[0] != lb[0]); },
                (Ecosystem::NuGet, Ecosystem::Cargo) => { assert(la[0] != lb[0]); },
                (Ecosystem::PyPI, Ecosystem::Npm) => { assert(la[0] != lb[0]); },
                (Ecosystem::Npm, Ecosystem::PyPI) => { assert(la[0] != lb[0]); },
                _ => {
                    if la.len() == lb.len() {
                        assert(la[0] != lb[0] || la[1] != lb[1]);
                    }
                },
            }
        }
    }
}

// ── Dependency kinds and severities ─────────────────────────────────────────

/// How one version depends on another.
#[derive(Debug, Clone, Copy, PartialEq, Eq, Structural)]
pub enum DependencyKind {
    /// Normal runtime dependency
    Normal,
    /// Dev / test only
    Dev,
    /// Optional feature dependency
    Optional,
    /// Peer dependency (npm-style)
    Peer,
    /// Build-time only
    Build,
}

/// The lowercase label of a dependency kind.
pub open spec fn kind_label(k: DependencyKind) -> Seq<char> {
    match k {
        DependencyKind::Normal => "normal"@,
        DependencyKind::Dev => "dev"@,
        DependencyKind::Optional => "optional"@,
        DependencyKind::Peer => "peer"@,
        DependencyKind::Build => "build"@,
    }
}

impl DependencyKind {
    /// The lowercase label of this kind.
    pub fn label(&self) -> (r: &'static str)
        ensures
            r@ == kind_label(*self),
    {
        match self {
            DependencyKind::Normal => "normal",
            DependencyKind::Dev => "dev",
            DependencyKind::Optional => "optional",
            DependencyKind::Peer => "peer",
            DependencyKind::Build => "build",
        }
    }

    /// The label as an owned string (what the kind displays as).
    pub fn to_string(&self) -> (r: String)
        ensures
            r@ == kind_label(*self),
    {
        self.label().to_string()
    }
}

/// Severity of a known vulnerability.
#[derive(Debug, Clone, Copy, PartialEq, Eq, Structural)]
pub enum VulnSeverity {
    Critical,
    High,
    Medium,
    Low,
    /// No severity assigned.
    Unrated,
}

// ── Nodes ───────────────────────────────────────────────────────────────────

/// An instant in UTC: whole seconds since the Unix epoch and the nanoseconds
/// past that second.
#[derive(Debug, Clone, Copy, PartialEq, Eq, Structural)]
pub struct Timestamp {
    pub secs: i64,
    pub nanos: u32,
}

/// A package — the logical name within an ecosystem.
/// e.g. { name: "lodash", ecosystem: Npm }
#[derive(Debug)]
pub struct PackageNode {
    pub name: String,
    pub ecosystem: Ecosystem,
    pub description: Option<String>,
}

pub struct PackageView {
    pub name: Seq<char>,
    pub ecosystem: Ecosystem,
    pub description: Option<Seq<char>>,
}

pub open spec fn opt_view(o: Option<String>) -> Option<Seq<char>> {
    match o {
        Some(s) => Some(s@),
        None => None,
    }
}

/// Copies an optional string.
pub fn copy_opt(o: &Option<String>) -> (r: Option<String>)
    ensures
        r == *o,
{
    match o {
        Some(s) => Some(s.clone()),
        None => None,
    }
}

impl View for PackageNode {
    type V = PackageView;

    open spec fn view(&self) -> PackageView {
        PackageView { name: self.name@, ecosystem: self.ecosystem, description: opt_view(self.description) }
    }
}

impl Clone for PackageNode {
    fn clone(&self) -> (r: Self)
        ensures
            r == *self,
    {
        PackageNode { name: self.name.clone(), ecosystem: self.ecosystem, description: copy_opt(&self.description) }
    }
}

/// A specific published version of a package.
/// Nodes are keyed by (name, ecosystem, semver).
///
/// DEPENDS_ON edges connect Version → Version, not Package → Package.
/// This lets us model exact transitive resolution across all ecosystems.
#[derive(Debug)]
pub struct VersionNode {
    /// Canonical package name
    pub name: String,
    pub ecosystem: Ecosystem,
    /// Normalized semver string, e.g. "1.2.3"
    pub semver: String,
    pub published_at: Option<Timestamp>,
    /// SHA-256 or ecosystem-native checksum
    pub checksum: Option<String>,
    /// Yanked / retracted versions are kept but flagged
    pub yanked: bool,
}

pub struct VersionView {
    pub name: Seq<char>,
    pub ecosystem: Ecosystem,
    pub semver: Seq<char>,
    pub published_at: Option<Timestamp>,
    pub checksum: Option<Seq<char>>,
    pub yanked: bool,
}

impl View for VersionNode {
    type V = VersionView;

    open spec fn view(&self) -> VersionView {
        VersionView {
            name: self.name@,
            ecosystem: self.ecosystem,
            semver: self.semver@,
            published_at: self.published_at,
            checksum: opt_view(self.checksum),
            yanked: self.yanked,
        }
    }
}

impl Clone for VersionNode {
    fn clone(&self) -> (r: Self)
        ensures
            r == *self,
    {
        VersionNode {
            name: self.name.clone(),
            ecosystem: self.ecosystem,
            semver: self.semver.clone(),
            published_at: self.published_at,
            checksum: copy_opt(&self.checksum),
            yanked: self.yanked,
        }
    }
}

/// The graph id of a version: `{ecosystem}:{name}:{semver}`.
pub open spec fn version_id(ecosystem: Ecosystem, name: Seq<char>, semver: Seq<char>) -> Seq<char> {
    ecosystem_label(ecosystem) + ":"@ + name + ":"@ + semver
}

/// No ecosystem label holds a `:`.
proof fn lemma_label_no_colon(e: Ecosystem)
    ensures
        forall|j: int| 0 <= j < ecosystem_label(e).len() ==> ecosystem_label(e)[j] != ':',
{
    reveal_strlit("npm");
    reveal_strlit("pypi");
    reveal_strlit("cargo");
    reveal_strlit("composer");
    reveal_strlit("maven");
    reveal_strlit("nuget");
    reveal_strlit("go");
    reveal_strlit("rubygems");
    reveal_strlit("hex");
}

/// Version ids are unique: two versions share an id only if they share
/// ecosystem, name and version, for names without `:`.
pub proof fn lemma_version_id_injective(
    e1: Ecosystem,
    n1: Seq<char>,
    s1: Seq<char>,
    e2: Ecosystem,
    n2: Seq<char>,
    s2: Seq<char>,
)
    requires
        forall|j: int| 0 <= j < n1.len() ==> n1[j] != ':',
        forall|j: int| 0 <= j < n2.len() ==> n2[j] != ':',
        version_id(e1, n1, s1) == version_id(e2, n2, s2),
    ensures
        e1 == e2,
        n1 == n2,
        s1 == s2,
{
    reveal_strlit(":");
    lemma_label_no_colon(e1);
    lemma_label_no_colon(e2);
    let id = version_id(e1, n1, s1);
    let l1 = ecosystem_label(e1);
    let l2 = ecosystem_label(e2);
    assert(id == version_id(e2, n2, s2));
    assert forall|j: int| 0 <= j < l1.len() implies id[j] != ':' by {
        assert(id[j] == l1[j]);
    }
    assert(id[l1.len() as int] == ':');
    lemma_index_of_unique(id, ':', l1.len() as int);
    assert forall|j: int| 0 <= j < l2.len() implies id[j] != ':' by {
        assert(version_id(e2, n2, s2)[j] == l2[j]);
    }
    assert(version_id(e2, n2, s2)[l2.len() as int] == ':');
    lemma_index_of_unique(id, ':', l2.len() as int);
    assert(l1 =~= id.take(l1.len() as int));
    assert(l2 =~= id.take(l2.len() as int));
    lemma_ecosystem_label_injective(e1, e2);
    let r = id.skip(l1.len() as int + 1);
    assert(r =~= n1 + ":"@ + s1);
    assert(r =~= n2 + ":"@ + s2);
    assert forall|j: int| 0 <= j < n1.len() implies r[j] != ':' by {
        assert(r[j] == n1[j]);
    }
    assert(r[n1.len() as int] == ':');
    lemma_index_of_unique(r, ':', n1.len() as int);
    assert forall|j: int| 0 <= j < n2.len() implies r[j] != ':' by {
        assert((n2 + ":"@ + s2)[j] == n2[j]);
    }
    assert((n2 + ":"@ + s2)[n2.len() as int] == ':');
    lemma_index_of_unique(r, ':', n2.len() as int);
    assert(n1 =~= r.take(n1.len() as int));
    assert(n2 =~= r.take(n2.len() as int));
    assert(s1 =~= r.skip(n1.len() as int + 1));
    assert(s2 =~= r.skip(n2.len() as int + 1));
}

impl VersionNode {
    /// Stable unique key for use as a graph node ID.
    pub fn id(&self) -> (r: String)
        ensures
            r@ == version_id(self.ecosystem, self.name@, self.semver@),
    {
        make_version_id(self.ecosystem, self.name.as_str(), self.semver.as_str())
    }
}

/// Builds `{ecosystem}:{name}:{semver}`.
pub fn make_version_id(ecosystem: Ecosystem, name: &str, semver: &str) -> (r: String)
    ensures
        r@ == version_id(ecosystem, name@, semver@),
{
    let mut s = ecosystem.to_string();
    push_char(&mut s, ':');
    push_str(&mut s, name);
    push_char(&mut s, ':');
    push_str(&mut s, semver);
    proof {
        reveal_strlit(":");
        assert(s@ =~= version_id(ecosystem, name@, semver@));
    }
    s
}

/// A version node for a placeholder or root version: no publication time,
/// no checksum, not yanked.
pub open spec fn plain_version(name: Seq<char>, semver: Seq<char>, ecosystem: Ecosystem) -> VersionView {
    VersionView { name, ecosystem, semver, published_at: None, checksum: None, yanked: false }
}

/// Builds a version node with no publication time or checksum.
pub fn make_version(name: &str, semver: &str, ecosystem: Ecosystem) -> (r: VersionNode)
    ensures
        r@ == plain_version(name@, semver@, ecosystem),
{
    VersionNode {
        name: name.to_string(),
        ecosystem,
        semver: semver.to_string(),
        published_at: None,
        checksum: None,
        yanked: false,
    }
}

/// A project on disk that owns one or more manifests.
#[derive(Debug)]
pub struct ProjectNode {
    pub name: String,
    pub root_path: String,
}

/// A manifest file parsed from disk (package.json, Cargo.toml, etc.).
#[derive(Debug)]
pub struct ManifestNode {
    pub path: String,
    pub ecosystem: Ecosystem,
}

/// An SPDX license.
#[derive(Debug)]
pub struct LicenseNode {
    pub spdx_id: String,
    pub is_osi_approved: bool,
    pub is_copyleft: bool,
}

// ── Edges ───────────────────────────────────────────────────────────────────

/// The core edge: one version depends on another.
///
/// `kind` encodes whether this is a runtime, dev, optional, or peer dep.
/// `version_req` stores the constraint as the manifest writes it (e.g. "^1.2", ">=3,<4").
#[derive(Debug)]
pub struct DependsOnEdge {
    pub from_id: String,
    pub to_id: String,
    pub kind: DependencyKind,
    /// Raw version constraint as written in the manifest
    pub version_req: String,
}

pub struct EdgeView {
    pub from_id: Seq<char>,
    pub to_id: Seq<char>,
    pub kind: DependencyKind,
    pub version_req: Seq<char>,
}

impl View for DependsOnEdge {
    type V = EdgeView;

    open spec fn view(&self) -> EdgeView {
        EdgeView { from_id: self.from_id@, to_id: self.to_id@, kind: self.kind, version_req: self.version_req@ }
    }
}

impl Clone for DependsOnEdge {
    fn clone(&self) -> (r: Self)
        ensures
            r == *self,
    {
        DependsOnEdge {
            from_id: self.from_id.clone(),
            to_id: self.to_id.clone(),
            kind: self.kind,
            version_req: self.version_req.clone(),
        }
    }
}

} // verus!
