//! Orchestration: the configuration of a run, the engine that owns the graph
//! store and the adapter registry, writing a manifest graph into the store,
//! and raw queries.
use vstd::prelude::*;
use crate::adapters::registry::{
    AdapterInfo, AdapterRegistry, AdapterInfoView, info_views, detected, named, default_adapters, str_views,
};
use crate::manifest::ManifestGraph;
use crate::store::{
    GraphStore, GraphError, accepts, all_accepted, query_outcome, schema_statements, package_merge_statement,
    version_merge_statement, depends_on_merge_statement, why_installed_statement, blast_radius_statement,
    copyleft_statement,
};
use crate::schema::{PackageNode, VersionNode, DependsOnEdge};
use crate::toolchain::{path_join, joined_path};
use crate::text::push_str;

verus! {

broadcast use vstd::string::group_string_axioms;

// ── Configuration ───────────────────────────────────────────────────────────

/// Runtime configuration of one run.
pub struct Config {
    /// Directory containing the project manifest(s).
    pub project_root: String,
    /// Path to the graph database: `<project_root>/.gpm/graph`.
    pub graph_db_path: String,
}

/// Where the graph of a project rooted at `root` is kept.
pub open spec fn graph_path_of(root: Seq<char>) -> Seq<char> {
    joined_path(joined_path(root, ".gpm"@), "graph"@)
}

impl Config {
    /// The configuration of the project rooted at `root`.
    pub fn with_root(root: &str) -> (r: Config)
        ensures
            r.project_root@ == root@,
            r.graph_db_path@ == graph_path_of(root@),
    {
        let dir = path_join(root, ".gpm");
        let db = path_join(dir.as_str(), "graph");
        Config { project_root: root.to_string(), graph_db_path: db }
    }
}

// ── Errors ──────────────────────────────────────────────────────────────────

/// Why the engine could not choose an adapter.
#[derive(Debug)]
pub enum EngineError {
    /// An ecosystem was named that no registered adapter has.
    UnknownEcosystem(String),
    /// No ecosystem was named and none was detected.
    NoEcosystemDetected,
    /// No ecosystem was named and several were detected.
    AmbiguousEcosystem,
    /// No adapter applies to the project directory (the root is given).
    NoManifest(String),
}

/// The message of an engine error.
pub open spec fn engine_error_message(e: EngineError) -> Seq<char> {
    match e {
        EngineError::UnknownEcosystem(name) => "unknown ecosystem: "@ + name@,
        EngineError::NoEcosystemDetected => "no ecosystem detected"@,
        EngineError::AmbiguousEcosystem => "multiple ecosystems detected — use --ecosystem to specify one"@,
        EngineError::NoManifest(root) => "no supported package manifest found in "@ + root@,
    }
}

impl EngineError {
    /// The message of this error.
    pub fn message(&self) -> (r: String)
        ensures
            r@ == engine_error_message(*self),
    {
        match self {
            EngineError::UnknownEcosystem(name) => {
                let mut s = "unknown ecosystem: ".to_string();
                push_str(&mut s, name.as_str());
                s
            },
            EngineError::NoEcosystemDetected => "no ecosystem detected".to_string(),
            EngineError::AmbiguousEcosystem => "multiple ecosystems detected — use --ecosystem to specify one".to_string(),
            EngineError::NoManifest(root) => {
                let mut s = "no supported package manifest found in ".to_string();
                push_str(&mut s, root.as_str());
                s
            },
        }
    }
}

// ── Adapter choice ──────────────────────────────────────────────────────────

/// How the adapter for an add or remove is chosen, on views: by name where
/// one is given, else the only adapter that applies to the files present.
pub enum Choice {
    Chosen(AdapterInfoView),
    Unknown,
    NoneDetected,
    Ambiguous,
}

pub open spec fn choose_adapter(
    adapters: Seq<AdapterInfoView>,
    ecosystem: Option<Seq<char>>,
    present: Seq<Seq<char>>,
) -> Choice {
    match ecosystem {
        Some(name) => match named(adapters, name) {
            Some(a) => Choice::Chosen(a),
            None => Choice::Unknown,
        },
        None => {
            let d = detected(adapters, present);
            if d.len() == 0 {
                Choice::NoneDetected
            } else if d.len() == 1 {
                Choice::Chosen(d[0])
            } else {
                Choice::Ambiguous
            }
        },
    }
}

pub open spec fn opt_str_view(o: Option<&str>) -> Option<Seq<char>> {
    match o {
        Some(s) => Some(s@),
        None => None,
    }
}

// ── Engine ──────────────────────────────────────────────────────────────────

/// The central handle for all operations; one per run.
pub struct Engine {
    pub store: GraphStore,
    pub registry: AdapterRegistry,
    pub project_root: String,
}

impl Engine {
    /// Opens the graph store of `config` and loads the built-in adapters; it
    /// fails as opening the store fails.
    pub fn new(config: &Config) -> (r: Result<Engine, GraphError>)
        ensures
            (r is Ok) == all_accepted(schema_statements()),
            r matches Ok(e) ==> e.store.db_path() == config.graph_db_path@ && e.registry@ == default_adapters()
                && e.project_root@ == config.project_root@,
    {
        let store = match GraphStore::open(config.graph_db_path.as_str()) {
            Ok(s) => s,
            Err(e) => return Err(e),
        };
        let registry = AdapterRegistry::with_defaults();
        Ok(Engine { store, registry, project_root: config.project_root.clone() })
    }

    /// The adapters whose manifests are among the files `present` in the
    /// project directory; it is an error if there are none.
    pub fn sync_targets(&self, present: &Vec<String>) -> (r: Result<Vec<AdapterInfo>, EngineError>)
        ensures
            detected(self.registry@, str_views(present@)).len() == 0 <==> r is Err,
            r matches Ok(v) ==> info_views(v@) == detected(self.registry@, str_views(present@)),
            r matches Err(e) ==> (e matches EngineError::NoManifest(root) && root@ == self.project_root@),
    {
        let adapters = self.registry.detect(present);
        if adapters.len() == 0 {
            Err(EngineError::NoManifest(self.project_root.clone()))
        } else {
            Ok(adapters)
        }
    }

    /// The adapter that an add or remove goes through: the one named
    /// `ecosystem` where it is given, else the only one detected among the
    /// files `present`.
    pub fn resolve_adapter(&self, ecosystem: Option<&str>, present: &Vec<String>) -> (r: Result<
        AdapterInfo,
        EngineError,
    >)
        ensures
            match choose_adapter(self.registry@, opt_str_view(ecosystem), str_views(present@)) {
                Choice::Chosen(a) => r matches Ok(x) && x@ == a,
                Choice::Unknown => r matches Err(EngineError::UnknownEcosystem(n)) && ecosystem matches Some(
                    name,
                ) && n@ == name@,
                Choice::NoneDetected => r matches Err(EngineError::NoEcosystemDetected),
                Choice::Ambiguous => r matches Err(EngineError::AmbiguousEcosystem),
            },
    {
        match ecosystem {
            Some(name) => match self.registry.get(name) {
                Some(a) => Ok(a),
                None => Err(EngineError::UnknownEcosystem(name.to_string())),
            },
            None => {
                let mut found = self.registry.detect(present);
                if found.len() == 0 {
                    Err(EngineError::NoEcosystemDetected)
                } else if found.len() == 1 {
                    assert(info_views(found@)[0] == found@[0]@);
                    Ok(found.remove(0))
                } else {
                    Err(EngineError::AmbiguousEcosystem)
                }
            },
        }
    }

    /// Why a package is installed: the shortest path from the project root.
    pub fn why(&self, project: &str, package: &str) -> (r: Result<Vec<String>, GraphError>)
        ensures
            query_outcome(why_installed_statement(project@, package@), r),
    {
        self.store.why_is_installed(project, package)
    }

    /// All versions transitively affected by a CVE.
    pub fn audit_cve(&self, project: &str, cve: &str) -> (r: Result<Vec<String>, GraphError>)
        ensures
            query_outcome(blast_radius_statement(project@, cve@), r),
    {
        self.store.blast_radius(project, cve)
    }

    /// All transitive dependencies under a copyleft license.
    pub fn licenses(&self, project: &str) -> (r: Result<Vec<String>, GraphError>)
        ensures
            query_outcome(copyleft_statement(project@), r),
    {
        self.store.copyleft_deps(project)
    }
}

// ── Writing a manifest graph ────────────────────────────────────────────────

/// Writes a manifest graph into the store.
pub struct GraphSync;

impl GraphSync {
    /// Upserts every package, then every version, then every edge of
    /// `graph`, in order, stopping at the first failure: it succeeds exactly
    /// when the database accepts every statement of `sync_statements`.
    pub fn write_to_store(store: &GraphStore, graph: ManifestGraph) -> (r: Result<(), GraphError>)
        ensures
            (r is Ok) == all_accepted(sync_statements(graph)),
    {
        let ghost all = sync_statements(graph);
        let ghost np = graph.packages@.len();
        let ghost nv = graph.versions@.len();
        proof {
            lemma_sync_statements(graph);
        }
        let mut i: usize = 0;
        while i < graph.packages.len()
            invariant
                i <= graph.packages.len(),
                all == sync_statements(graph),
                np == graph.packages@.len(),
                nv == graph.versions@.len(),
                all.len() == np + nv + graph.depends_on@.len(),
                forall|x: int| 0 <= x < np ==> all[x] == package_merge_statement(#[trigger] graph.packages@[x]),
                forall|j: int| 0 <= j < i ==> accepts(#[trigger] all[j]),
            decreases graph.packages.len() - i,
        {
            match store.upsert_package(&graph.packages[i]) {
                Ok(()) => {},
                Err(e) => {
                    assert(!accepts(all[i as int]));
                    return Err(e);
                },
            }
            i = i + 1;
        }
        let mut j: usize = 0;
        while j < graph.versions.len()
            invariant
                j <= graph.versions.len(),
                all == sync_statements(graph),
                np == graph.packages@.len(),
                nv == graph.versions@.len(),
                all.len() == np + nv + graph.depends_on@.len(),
                forall|x: int| 0 <= x < nv ==> all[np + x] == version_merge_statement(#[trigger] graph.versions@[x]),
                forall|x: int| 0 <= x < np + j ==> accepts(#[trigger] all[x]),
            decreases graph.versions.len() - j,
        {
            match store.upsert_version(&graph.versions[j]) {
                Ok(()) => {},
                Err(e) => {
                    assert(!accepts(all[np + j]));
                    return Err(e);
                },
            }
            j = j + 1;
        }
        let mut k: usize = 0;
        while k < graph.depends_on.len()
            invariant
                k <= graph.depends_on.len(),
                all == sync_statements(graph),
                np == graph.packages@.len(),
                nv == graph.versions@.len(),
                all.len() == np + nv + graph.depends_on@.len(),
                forall|x: int|
                    0 <= x < graph.depends_on@.len() ==> all[np + nv + x] == depends_on_merge_statement(
                        #[trigger] graph.depends_on@[x],
                    ),
                forall|x: int| 0 <= x < np + nv + k ==> accepts(#[trigger] all[x]),
            decreases graph.depends_on.len() - k,
        {
            match store.upsert_depends_on(&graph.depends_on[k]) {
                Ok(()) => {},
                Err(e) => {
                    assert(!accepts(all[np + nv + k]));
                    return Err(e);
                },
            }
            k = k + 1;
        }
        Ok(())
    }
}

/// The statements that writing `graph` into the store sends, in order: the
/// merge of every package, then of every version, then of every edge.
pub open spec fn sync_statements(graph: ManifestGraph) -> Seq<Seq<char>> {
    graph.packages@.map_values(|p: PackageNode| package_merge_statement(p)) + graph.versions@.map_values(
        |v: VersionNode| version_merge_statement(v),
    ) + graph.depends_on@.map_values(|e: DependsOnEdge| depends_on_merge_statement(e))
}

/// Where each statement of `sync_statements` stands.
proof fn lemma_sync_statements(graph: ManifestGraph)
    ensures
        ({
            let all = sync_statements(graph);
            let np = graph.packages@.len();
            let nv = graph.versions@.len();
            &&& all.len() == np + nv + graph.depends_on@.len()
            &&& forall|x: int| 0 <= x < np ==> all[x] == package_merge_statement(#[trigger] graph.packages@[x])
            &&& forall|x: int| 0 <= x < nv ==> all[np + x] == version_merge_statement(#[trigger] graph.versions@[x])
            &&& forall|x: int|
                0 <= x < graph.depends_on@.len() ==> all[np + nv + x] == depends_on_merge_statement(
                    #[trigger] graph.depends_on@[x],
                )
        }),
{
}

// ── Queries ─────────────────────────────────────────────────────────────────

/// A typed query planner over the store's raw queries.
pub struct QueryPlanner<'a> {
    store: &'a GraphStore,
}

impl<'a> QueryPlanner<'a> {
    /// A planner over `store`.
    pub fn new(store: &'a GraphStore) -> (r: QueryPlanner<'a>)
        ensures
            r.store() == store,
    {
        QueryPlanner { store }
    }

    /// The store this planner queries.
    pub closed spec fn store(&self) -> &'a GraphStore {
        self.store
    }

    /// Runs a raw Cypher statement.
    pub fn raw(&self, cypher: &str) -> (r: Result<Vec<String>, GraphError>)
        ensures
            query_outcome(cypher@, r),
    {
        self.store.query_raw(cypher)
    }
}

} // verus!
