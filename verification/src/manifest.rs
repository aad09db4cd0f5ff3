//! The parsed output of any manifest file, expressed as graph nodes and edges.
use vstd::prelude::*;
use crate::text::push_str;
use crate::schema::{
    Ecosystem, DependencyKind, PackageNode, PackageView, VersionNode, VersionView, DependsOnEdge, EdgeView,
    version_id, plain_version, make_version, opt_view,
};

verus! {

broadcast use vstd::string::group_string_axioms;

/// The parsed output of any manifest file, expressed as graph nodes + edges.
/// This is what every manifest parser returns; it is then written into the
/// graph store.
#[derive(Debug)]
pub struct ManifestGraph {
    pub packages: Vec<PackageNode>,
    pub versions: Vec<VersionNode>,
    pub depends_on: Vec<DependsOnEdge>,
}

pub struct ManifestGraphView {
    pub packages: Seq<PackageView>,
    pub versions: Seq<VersionView>,
    pub depends_on: Seq<EdgeView>,
}

impl View for ManifestGraph {
    type V = ManifestGraphView;

    open spec fn view(&self) -> ManifestGraphView {
        ManifestGraphView {
            packages: self.packages@.map_values(|p: PackageNode| p@),
            versions: self.versions@.map_values(|v: VersionNode| v@),
            depends_on: self.depends_on@.map_values(|e: DependsOnEdge| e@),
        }
    }
}

/// The root package of a manifest: its name, version and description.
pub struct RootSpec {
    pub name: Seq<char>,
    pub semver: Seq<char>,
    pub description: Option<Seq<char>>,
}

/// One dependency as a manifest declares it: name, version constraint, kind.
pub struct Dep {
    pub name: Seq<char>,
    pub req: Seq<char>,
    pub kind: DependencyKind,
}

pub open spec fn empty_graph() -> ManifestGraphView {
    ManifestGraphView { packages: seq![], versions: seq![], depends_on: seq![] }
}

/// The graph with only the root package and its version.
pub open spec fn root_graph(root: RootSpec, eco: Ecosystem) -> ManifestGraphView {
    ManifestGraphView {
        packages: seq![PackageView { name: root.name, ecosystem: eco, description: root.description }],
        versions: seq![plain_version(root.name, root.semver, eco)],
        depends_on: seq![],
    }
}

/// `g` with one dependency of the root (whose id is `root_id`) added: a
/// package without description, a placeholder version whose semver is the
/// constraint, and an edge from the root to it.
pub open spec fn add_dep(g: ManifestGraphView, root_id: Seq<char>, eco: Ecosystem, d: Dep) -> ManifestGraphView {
    ManifestGraphView {
        packages: g.packages.push(PackageView { name: d.name, ecosystem: eco, description: None }),
        versions: g.versions.push(plain_version(d.name, d.req, eco)),
        depends_on: g.depends_on.push(
            EdgeView { from_id: root_id, to_id: version_id(eco, d.name, d.req), kind: d.kind, version_req: d.req },
        ),
    }
}

/// The graph of a manifest whose root is `root` and whose dependencies are
/// `deps`, in order.
pub open spec fn graph_of(root: RootSpec, eco: Ecosystem, deps: Seq<Dep>) -> ManifestGraphView
    decreases deps.len(),
{
    if deps.len() == 0 {
        root_graph(root, eco)
    } else {
        add_dep(graph_of(root, eco, deps.drop_last()), version_id(eco, root.name, root.semver), eco, deps.last())
    }
}

/// What every parsed manifest looks like: one more package and version than
/// edges, the root first, every edge from the root to the version at the
/// same position after it, with that version's constraint.
pub open spec fn well_shaped(g: ManifestGraphView) -> bool {
    &&& g.packages.len() >= 1
    &&& g.packages.len() == g.versions.len()
    &&& g.depends_on.len() + 1 == g.versions.len()
    &&& forall|i: int| 0 <= i < g.versions.len() ==> #[trigger] g.packages[i].name == g.versions[i].name
        && g.packages[i].ecosystem == g.versions[i].ecosystem
    &&& forall|i: int| 0 <= i < g.depends_on.len() ==> {
        &&& (#[trigger] g.depends_on[i]).from_id == version_id(
            g.versions[0].ecosystem,
            g.versions[0].name,
            g.versions[0].semver,
        )
        &&& g.depends_on[i].to_id == version_id(
            g.versions[i + 1].ecosystem,
            g.versions[i + 1].name,
            g.versions[i + 1].semver,
        )
        &&& g.depends_on[i].version_req == g.versions[i + 1].semver
    }
}

/// The first package of a manifest graph is its root, with the root's name
/// and description.
pub proof fn lemma_graph_of_root_package(root: RootSpec, eco: Ecosystem, deps: Seq<Dep>)
    ensures
        graph_of(root, eco, deps).packages.len() >= 1,
        graph_of(root, eco, deps).packages[0] == (PackageView { name: root.name, ecosystem: eco, description: root.description }),
    decreases deps.len(),
{
    if deps.len() > 0 {
        lemma_graph_of_root_package(root, eco, deps.drop_last());
    }
}

/// Every manifest graph is well shaped (see `well_shaped`), and lists the
/// dependencies in the order given, each with its kind and constraint.
pub proof fn lemma_graph_of_shape(root: RootSpec, eco: Ecosystem, deps: Seq<Dep>)
    ensures
        well_shaped(graph_of(root, eco, deps)),
        graph_of(root, eco, deps).versions[0] == plain_version(root.name, root.semver, eco),
        graph_of(root, eco, deps).depends_on.len() == deps.len(),
        forall|i: int| 0 <= i < graph_of(root, eco, deps).versions.len() ==>
            (#[trigger] graph_of(root, eco, deps).versions[i]).ecosystem == eco,
        forall|i: int| 0 <= i < deps.len() ==> {
            &&& (#[trigger] graph_of(root, eco, deps).depends_on[i]).kind == deps[i].kind
            &&& graph_of(root, eco, deps).depends_on[i].version_req == deps[i].req
            &&& graph_of(root, eco, deps).versions[i + 1].name == deps[i].name
        },
    decreases deps.len(),
{
    let g = graph_of(root, eco, deps);
    if deps.len() > 0 {
        lemma_graph_of_shape(root, eco, deps.drop_last());
        let h = graph_of(root, eco, deps.drop_last());
        let n = h.versions.len() as int;
        let d = deps.last();
        assert(g.versions[0] == h.versions[0]);
        assert(g.versions[n] == plain_version(d.name, d.req, eco));
        assert(g.packages[n].name == d.name && g.packages[n].ecosystem == eco);
        assert forall|i: int| 0 <= i < g.versions.len() implies (#[trigger] g.versions[i]).ecosystem == eco by {
            if i < n {
                assert(g.versions[i] == h.versions[i]);
            }
        }
        assert forall|i: int| 0 <= i < g.versions.len() implies #[trigger] g.packages[i].name == g.versions[i].name
            && g.packages[i].ecosystem == g.versions[i].ecosystem by {
            if i < n {
                assert(g.packages[i] == h.packages[i]);
                assert(g.versions[i] == h.versions[i]);
                assert(h.packages[i].name == h.versions[i].name);
            }
        }
        assert forall|i: int| 0 <= i < g.depends_on.len() implies {
            &&& (#[trigger] g.depends_on[i]).from_id == version_id(
                g.versions[0].ecosystem,
                g.versions[0].name,
                g.versions[0].semver,
            )
            &&& g.depends_on[i].to_id == version_id(
                g.versions[i + 1].ecosystem,
                g.versions[i + 1].name,
                g.versions[i + 1].semver,
            )
            &&& g.depends_on[i].version_req == g.versions[i + 1].semver
        } by {
            if i < n - 1 {
                assert(g.depends_on[i] == h.depends_on[i]);
                assert(g.versions[i + 1] == h.versions[i + 1]);
            }
        }
        assert forall|i: int| 0 <= i < deps.len() implies {
            &&& (#[trigger] g.depends_on[i]).kind == deps[i].kind
            &&& g.depends_on[i].version_req == deps[i].req
            &&& g.versions[i + 1].name == deps[i].name
        } by {
            if i < deps.len() - 1 {
                assert(g.depends_on[i] == h.depends_on[i]);
                assert(g.versions[i + 1] == h.versions[i + 1]);
                assert(deps.drop_last()[i] == deps[i]);
            }
        }
    }
}

impl ManifestGraph {
    /// An empty graph.
    pub fn new() -> (g: Self)
        ensures
            g@ == empty_graph(),
    {
        let g = ManifestGraph { packages: Vec::new(), versions: Vec::new(), depends_on: Vec::new() };
        assert(g@.packages =~= Seq::<PackageView>::empty());
        assert(g@.versions =~= Seq::<VersionView>::empty());
        assert(g@.depends_on =~= Seq::<EdgeView>::empty());
        g
    }

    /// Appends all nodes and edges of `other` after those of `self`.
    pub fn merge(&mut self, other: ManifestGraph)
        ensures
            final(self)@ == (ManifestGraphView {
                packages: old(self)@.packages + other@.packages,
                versions: old(self)@.versions + other@.versions,
                depends_on: old(self)@.depends_on + other@.depends_on,
            }),
    {
        let mut other = other;
        let ghost o = other@;
        let ghost s = self@;
        self.packages.append(&mut other.packages);
        self.versions.append(&mut other.versions);
        self.depends_on.append(&mut other.depends_on);
        assert(self@.packages =~= s.packages + o.packages);
        assert(self@.versions =~= s.versions + o.versions);
        assert(self@.depends_on =~= s.depends_on + o.depends_on);
    }

    /// Whether the graph has no packages.
    pub fn is_empty(&self) -> (r: bool)
        ensures
            r == (self@.packages.len() == 0),
    {
        self.packages.len() == 0
    }

    /// The graph holding only the root package and version; returns it with
    /// the root's id.
    pub fn with_root(name: &str, semver: &str, description: Option<String>, eco: Ecosystem) -> (r: (
        ManifestGraph,
        String,
    ))
        ensures
            r.0@ == root_graph(RootSpec { name: name@, semver: semver@, description: opt_view(description) }, eco),
            r.1@ == version_id(eco, name@, semver@),
    {
        let mut g = ManifestGraph::new();
        let ghost desc = opt_view(description);
        g.packages.push(PackageNode { name: name.to_string(), ecosystem: eco, description });
        let root = make_version(name, semver, eco);
        let id = root.id();
        g.versions.push(root);
        assert(g@.packages =~= seq![PackageView { name: name@, ecosystem: eco, description: desc }]);
        assert(g@.versions =~= seq![plain_version(name@, semver@, eco)]);
        assert(g@.depends_on =~= Seq::<EdgeView>::empty());
        (g, id)
    }

    /// Adds one dependency of the root (whose id is `root_id`).
    pub fn push_dep(&mut self, root_id: &str, name: &str, req: &str, eco: Ecosystem, kind: DependencyKind)
        ensures
            final(self)@ == add_dep(old(self)@, root_id@, eco, Dep { name: name@, req: req@, kind }),
    {
        let ghost s = self@;
        let dep = make_version(name, req, eco);
        let to_id = dep.id();
        self.packages.push(PackageNode { name: name.to_string(), ecosystem: eco, description: None });
        self.depends_on.push(
            DependsOnEdge { from_id: root_id.to_string(), to_id, kind, version_req: req.to_string() },
        );
        self.versions.push(dep);
        let ghost d = Dep { name: name@, req: req@, kind };
        assert(self@.packages =~= add_dep(s, root_id@, eco, d).packages);
        assert(self@.versions =~= add_dep(s, root_id@, eco, d).versions);
        assert(self@.depends_on =~= add_dep(s, root_id@, eco, d).depends_on);
    }
}

/// Why a manifest text could not be read: the file and the parser's message.
#[derive(Debug)]
pub struct ParseError {
    pub file: String,
    pub detail: String,
}

/// The message of a manifest that could not be read.
pub open spec fn parse_error_message(e: ParseError) -> Seq<char> {
    "parsing "@ + e.file@ + ": "@ + e.detail@
}

impl ParseError {
    /// The error for the file `file`, with the parser's message.
    pub fn new(file: &str, detail: String) -> (r: ParseError)
        ensures
            r.file@ == file@,
            r.detail == detail,
    {
        ParseError { file: file.to_string(), detail }
    }

    /// The message of this error.
    pub fn message(&self) -> (r: String)
        ensures
            r@ == parse_error_message(*self),
    {
        let mut s = "parsing ".to_string();
        push_str(&mut s, self.file.as_str());
        push_str(&mut s, ": ");
        push_str(&mut s, self.detail.as_str());
        s
    }
}

/// One dependency entry collected from a manifest.
#[derive(Debug)]
pub struct DepEntry {
    pub name: String,
    pub req: String,
    pub kind: DependencyKind,
}

impl View for DepEntry {
    type V = Dep;

    open spec fn view(&self) -> Dep {
        Dep { name: self.name@, req: self.req@, kind: self.kind }
    }
}

pub open spec fn deps_view(v: Seq<DepEntry>) -> Seq<Dep> {
    v.map_values(|d: DepEntry| d@)
}

pub proof fn lemma_deps_view_push(v: Seq<DepEntry>, d: DepEntry)
    ensures
        deps_view(v.push(d)) == deps_view(v).push(d@),
{
    assert(deps_view(v.push(d)) =~= deps_view(v).push(d@));
}

/// Builds the graph of a manifest from its root and its dependency list.
pub fn build_graph(name: &str, semver: &str, description: Option<String>, eco: Ecosystem, deps: &Vec<DepEntry>) -> (g:
    ManifestGraph)
    ensures
        g@ == graph_of(
            RootSpec { name: name@, semver: semver@, description: opt_view(description) },
            eco,
            deps_view(deps@),
        ),
{
    let ghost root = RootSpec { name: name@, semver: semver@, description: opt_view(description) };
    let (mut g, root_id) = ManifestGraph::with_root(name, semver, description, eco);
    let mut i: usize = 0;
    assert(deps_view(deps@.take(0)) =~= Seq::<Dep>::empty());
    while i < deps.len()
        invariant
            i <= deps.len(),
            root_id@ == version_id(eco, root.name, root.semver),
            g@ == graph_of(root, eco, deps_view(deps@.take(i as int))),
        decreases deps.len() - i,
    {
        let d = &deps[i];
        g.push_dep(root_id.as_str(), d.name.as_str(), d.req.as_str(), eco, d.kind);
        proof {
            let prev = deps_view(deps@.take(i as int));
            let next = deps_view(deps@.take(i + 1));
            assert(deps@.take(i + 1) == deps@.take(i as int).push(deps@[i as int]));
            lemma_deps_view_push(deps@.take(i as int), deps@[i as int]);
            assert(next.drop_last() == prev);
            assert(next.last() == deps@[i as int]@);
        }
        i = i + 1;
    }
    assert(deps@.take(deps.len() as int) == deps@);
    g
}

} // verus!
