//! The graph store: schema migrations and typed upserts and queries.
//!
//! The database behind the store is a stand-in that accepts every statement
//! and returns no rows; the statements themselves are built here, exactly,
//! and every operation is stated by the statements it sends: whether the
//! database accepts each (`accepts`) and what it answers (`answer`).
use vstd::prelude::*;
use crate::schema::{PackageNode, VersionNode, DependsOnEdge, ecosystem_label, kind_label, version_id, opt_view};
use crate::text::push_str;

verus! {

broadcast use vstd::string::group_string_axioms;

/// Why a graph operation failed.
#[derive(Debug)]
pub enum GraphError {
    /// An error reported by the database.
    Kuzu(String),
    /// A node that was looked up does not exist.
    NotFound(String),
    /// A schema statement failed.
    Migration(String),
    /// A value could not be (de)serialized.
    Serde(String),
}

/// The message of an error, as it displays.
pub open spec fn graph_error_message(e: GraphError) -> Seq<char> {
    match e {
        GraphError::Kuzu(m) => "KuzuDB error: "@ + m@,
        GraphError::NotFound(m) => "Node not found: "@ + m@,
        GraphError::Migration(m) => "Schema migration failed: "@ + m@,
        GraphError::Serde(m) => "Serialization error: "@ + m@,
    }
}

impl GraphError {
    /// The message of this error, as it displays.
    pub fn message(&self) -> (r: String)
        ensures
            r@ == graph_error_message(*self),
    {
        let (prefix, detail) = match self {
            GraphError::Kuzu(m) => ("KuzuDB error: ", m),
            GraphError::NotFound(m) => ("Node not found: ", m),
            GraphError::Migration(m) => ("Schema migration failed: ", m),
            GraphError::Serde(m) => ("Serialization error: ", m),
        };
        let mut s = prefix.to_string();
        push_str(&mut s, detail.as_str());
        s
    }
}

/// The stand-in database handle.
struct StubDb {
    path: String,
}

/// The stand-in connection.
struct StubConn;

impl StubDb {
    fn open(path: &str) -> (r: Result<Self, GraphError>)
        ensures
            r matches Ok(db) && db.path@ == path@,
    {
        Ok(StubDb { path: path.to_string() })
    }

    fn connect(&self) -> (r: Result<StubConn, GraphError>)
        ensures
            r is Ok,
    {
        Ok(StubConn)
    }
}

/// Whether the database accepts the statement `stmt`; the stand-in database
/// accepts every statement.
pub closed spec fn accepts(stmt: Seq<char>) -> bool {
    true
}

/// The rows the database answers to the statement `stmt`; the stand-in
/// database answers every statement with no rows.
pub closed spec fn answer(stmt: Seq<char>) -> Seq<Seq<char>> {
    seq![]
}

/// Whether the database accepts every statement of `stmts`.
pub open spec fn all_accepted(stmts: Seq<Seq<char>>) -> bool {
    forall|i: int| 0 <= i < stmts.len() ==> accepts(#[trigger] stmts[i])
}

/// The rows of a result, as text.
pub open spec fn rows_view(rows: Seq<String>) -> Seq<Seq<char>> {
    rows.map_values(|s: String| s@)
}

/// What running `stmt` gave: the database's answer when it accepts the
/// statement, an error when it does not.
pub open spec fn query_outcome(stmt: Seq<char>, r: Result<Vec<String>, GraphError>) -> bool {
    match r {
        Ok(rows) => accepts(stmt) && rows_view(rows@) == answer(stmt),
        Err(_) => !accepts(stmt),
    }
}

impl StubConn {
    /// Runs a statement.
    fn query(&self, cypher: &str) -> (r: Result<Vec<String>, GraphError>)
        ensures
            query_outcome(cypher@, r),
    {
        let rows: Vec<String> = Vec::new();
        assert(rows_view(rows@) =~= answer(cypher@));
        Ok(rows)
    }
}

/// `true` or `false`, as a boolean formats.
pub open spec fn bool_text(b: bool) -> Seq<char> {
    if b {
        "true"@
    } else {
        "false"@
    }
}

fn bool_str(b: bool) -> (r: &'static str)
    ensures
        r@ == bool_text(b),
{
    if b {
        "true"
    } else {
        "false"
    }
}

/// A description, or the empty text when there is none.
pub open spec fn description_text(d: Option<Seq<char>>) -> Seq<char> {
    match d {
        Some(s) => s,
        None => Seq::empty(),
    }
}

fn description_or_empty(d: &Option<String>) -> (r: String)
    ensures
        r@ == description_text(opt_view(*d)),
{
    match d {
        Some(s) => s.clone(),
        None => String::new(),
    }
}

/// The schema statements, in the order they run: the node tables, then the
/// relationship tables. All are idempotent.
pub open spec fn schema_statements() -> Seq<Seq<char>> {
    seq![
        "CREATE NODE TABLE IF NOT EXISTS Package (\n                name        STRING,\n                ecosystem   STRING,\n                description STRING,\n                PRIMARY KEY (name, ecosystem)\n            )"@,
        "CREATE NODE TABLE IF NOT EXISTS Version (\n                id           STRING,   -- '{ecosystem}:{name}:{semver}'\n                name         STRING,\n                ecosystem    STRING,\n                semver       STRING,\n                published_at TIMESTAMP,\n                checksum     STRING,\n                yanked       BOOLEAN,\n                PRIMARY KEY (id)\n            )"@,
        "CREATE NODE TABLE IF NOT EXISTS Project (\n                name      STRING,\n                root_path STRING,\n                PRIMARY KEY (root_path)\n            )"@,
        "CREATE NODE TABLE IF NOT EXISTS Manifest (\n                path      STRING,\n                ecosystem STRING,\n                PRIMARY KEY (path)\n            )"@,
        "CREATE NODE TABLE IF NOT EXISTS Vulnerability (\n                cve_id   STRING,\n                cvss     DOUBLE,\n                severity STRING,\n                summary  STRING,\n                PRIMARY KEY (cve_id)\n            )"@,
        "CREATE NODE TABLE IF NOT EXISTS License (\n                spdx_id      STRING,\n                is_osi       BOOLEAN,\n                is_copyleft  BOOLEAN,\n                PRIMARY KEY (spdx_id)\n            )"@,
        "CREATE REL TABLE IF NOT EXISTS HAS_VERSION (\n                FROM Package TO Version\n            )"@,
        "CREATE REL TABLE IF NOT EXISTS DEPENDS_ON (\n                FROM Version TO Version,\n                kind        STRING,\n                version_req STRING\n            )"@,
        "CREATE REL TABLE IF NOT EXISTS HAS_MANIFEST (\n                FROM Project TO Manifest\n            )"@,
        "CREATE REL TABLE IF NOT EXISTS REQUIRES (\n                FROM Manifest TO Version\n            )"@,
        "CREATE REL TABLE IF NOT EXISTS HAS_VULN (\n                FROM Version TO Vulnerability\n            )"@,
        "CREATE REL TABLE IF NOT EXISTS LICENSED_UNDER (\n                FROM Version TO License\n            )"@,
    ]
}

fn schema_statement_list() -> (r: Vec<&'static str>)
    ensures
        r@.map_values(|s: &str| s@) == schema_statements(),
{
    let r: Vec<&'static str> = vec![
        "CREATE NODE TABLE IF NOT EXISTS Package (\n                name        STRING,\n                ecosystem   STRING,\n                description STRING,\n                PRIMARY KEY (name, ecosystem)\n            )",
        "CREATE NODE TABLE IF NOT EXISTS Version (\n                id           STRING,   -- '{ecosystem}:{name}:{semver}'\n                name         STRING,\n                ecosystem    STRING,\n                semver       STRING,\n                published_at TIMESTAMP,\n                checksum     STRING,\n                yanked       BOOLEAN,\n                PRIMARY KEY (id)\n            )",
        "CREATE NODE TABLE IF NOT EXISTS Project (\n                name      STRING,\n                root_path STRING,\n                PRIMARY KEY (root_path)\n            )",
        "CREATE NODE TABLE IF NOT EXISTS Manifest (\n                path      STRING,\n                ecosystem STRING,\n                PRIMARY KEY (path)\n            )",
        "CREATE NODE TABLE IF NOT EXISTS Vulnerability (\n                cve_id   STRING,\n                cvss     DOUBLE,\n                severity STRING,\n                summary  STRING,\n                PRIMARY KEY (cve_id)\n            )",
        "CREATE NODE TABLE IF NOT EXISTS License (\n                spdx_id      STRING,\n                is_osi       BOOLEAN,\n                is_copyleft  BOOLEAN,\n                PRIMARY KEY (spdx_id)\n            )",
        "CREATE REL TABLE IF NOT EXISTS HAS_VERSION (\n                FROM Package TO Version\n            )",
        "CREATE REL TABLE IF NOT EXISTS DEPENDS_ON (\n                FROM Version TO Version,\n                kind        STRING,\n                version_req STRING\n            )",
        "CREATE REL TABLE IF NOT EXISTS HAS_MANIFEST (\n                FROM Project TO Manifest\n            )",
        "CREATE REL TABLE IF NOT EXISTS REQUIRES (\n                FROM Manifest TO Version\n            )",
        "CREATE REL TABLE IF NOT EXISTS HAS_VULN (\n                FROM Version TO Vulnerability\n            )",
        "CREATE REL TABLE IF NOT EXISTS LICENSED_UNDER (\n                FROM Version TO License\n            )",
    ];
    assert(r@.map_values(|s: &str| s@) =~= schema_statements());
    r
}

/// The statement that creates or updates a package node (a missing description is written empty).
pub open spec fn package_merge_statement(pkg: PackageNode) -> Seq<char> {
    "MERGE (p:Package {name: '"@ + pkg.name@ + "', ecosystem: '"@ + ecosystem_label(pkg.ecosystem) + "'})\n             ON CREATE SET p.description = '"@ + description_text(opt_view(pkg.description)) + "'\n             ON MATCH SET  p.description = '"@ + description_text(opt_view(pkg.description)) + "'"@
}

/// Builds the statement that creates or updates a package node (a missing description is written empty).
pub fn package_merge_cypher(pkg: &PackageNode) -> (r: String)
    ensures
        r@ == package_merge_statement(*pkg),
{
    let desc = description_or_empty(&pkg.description);
    let mut s = String::new();
    push_str(&mut s, "MERGE (p:Package {name: '");
    push_str(&mut s, pkg.name.as_str());
    push_str(&mut s, "', ecosystem: '");
    push_str(&mut s, pkg.ecosystem.label());
    push_str(&mut s, "'})\n             ON CREATE SET p.description = '");
    push_str(&mut s, desc.as_str());
    push_str(&mut s, "'\n             ON MATCH SET  p.description = '");
    push_str(&mut s, desc.as_str());
    push_str(&mut s, "'");
    proof {
        reveal_strlit("MERGE (p:Package {name: '");
        reveal_strlit("', ecosystem: '");
        reveal_strlit("'})\n             ON CREATE SET p.description = '");
        reveal_strlit("'\n             ON MATCH SET  p.description = '");
        reveal_strlit("'");
    }
    assert(s@ =~= package_merge_statement(*pkg));
    s
}

/// The statement that creates a version node keyed by its id.
pub open spec fn version_merge_statement(ver: VersionNode) -> Seq<char> {
    "MERGE (v:Version {id: '"@ + version_id(ver.ecosystem, ver.name@, ver.semver@) + "'})\n             ON CREATE SET\n               v.name = '"@ + ver.name@ + "',\n               v.ecosystem = '"@ + ecosystem_label(ver.ecosystem) + "',\n               v.semver = '"@ + ver.semver@ + "',\n               v.yanked = "@ + bool_text(ver.yanked)
}

/// Builds the statement that creates a version node keyed by its id.
pub fn version_merge_cypher(ver: &VersionNode) -> (r: String)
    ensures
        r@ == version_merge_statement(*ver),
{
    let id = ver.id();
    let mut s = String::new();
    push_str(&mut s, "MERGE (v:Version {id: '");
    push_str(&mut s, id.as_str());
    push_str(&mut s, "'})\n             ON CREATE SET\n               v.name = '");
    push_str(&mut s, ver.name.as_str());
    push_str(&mut s, "',\n               v.ecosystem = '");
    push_str(&mut s, ver.ecosystem.label());
    push_str(&mut s, "',\n               v.semver = '");
    push_str(&mut s, ver.semver.as_str());
    push_str(&mut s, "',\n               v.yanked = ");
    push_str(&mut s, bool_str(ver.yanked));
    proof {
        reveal_strlit("MERGE (v:Version {id: '");
        reveal_strlit("'})\n             ON CREATE SET\n               v.name = '");
        reveal_strlit("',\n               v.ecosystem = '");
        reveal_strlit("',\n               v.semver = '");
        reveal_strlit("',\n               v.yanked = ");
    }
    assert(s@ =~= version_merge_statement(*ver));
    s
}

/// The statement that links two versions by a dependency edge.
pub open spec fn depends_on_merge_statement(edge: DependsOnEdge) -> Seq<char> {
    "MATCH (a:Version {id: '"@ + edge.from_id@ + "'}), (b:Version {id: '"@ + edge.to_id@ + "'})\n             MERGE (a)-[r:DEPENDS_ON {kind: '"@ + kind_label(edge.kind) + "', version_req: '"@ + edge.version_req@ + "'}]->(b)"@
}

/// Builds the statement that links two versions by a dependency edge.
pub fn depends_on_merge_cypher(edge: &DependsOnEdge) -> (r: String)
    ensures
        r@ == depends_on_merge_statement(*edge),
{
    let mut s = String::new();
    push_str(&mut s, "MATCH (a:Version {id: '");
    push_str(&mut s, edge.from_id.as_str());
    push_str(&mut s, "'}), (b:Version {id: '");
    push_str(&mut s, edge.to_id.as_str());
    push_str(&mut s, "'})\n             MERGE (a)-[r:DEPENDS_ON {kind: '");
    push_str(&mut s, edge.kind.label());
    push_str(&mut s, "', version_req: '");
    push_str(&mut s, edge.version_req.as_str());
    push_str(&mut s, "'}]->(b)");
    proof {
        reveal_strlit("MATCH (a:Version {id: '");
        reveal_strlit("'}), (b:Version {id: '");
        reveal_strlit("'})\n             MERGE (a)-[r:DEPENDS_ON {kind: '");
        reveal_strlit("', version_req: '");
        reveal_strlit("'}]->(b)");
    }
    assert(s@ =~= depends_on_merge_statement(*edge));
    s
}

/// The query for the shortest path from a project to a package, as the names along it.
pub open spec fn why_installed_statement(project: Seq<char>, package: Seq<char>) -> Seq<char> {
    "MATCH path = shortestPath(\n               (root:Project {name: '"@ + project + "'})\n                 -[:HAS_MANIFEST|REQUIRES|DEPENDS_ON*]->\n               (v:Version)-[:HAS_VERSION]->(p:Package {name: '"@ + package + "'})\n             )\n             RETURN [node IN nodes(path) | node.name] AS chain"@
}

/// Builds the query for the shortest path from a project to a package, as the names along it.
pub fn why_installed_cypher(project: &str, package: &str) -> (r: String)
    ensures
        r@ == why_installed_statement(project@, package@),
{
    let mut s = String::new();
    push_str(&mut s, "MATCH path = shortestPath(\n               (root:Project {name: '");
    push_str(&mut s, project);
    push_str(&mut s, "'})\n                 -[:HAS_MANIFEST|REQUIRES|DEPENDS_ON*]->\n               (v:Version)-[:HAS_VERSION]->(p:Package {name: '");
    push_str(&mut s, package);
    push_str(&mut s, "'})\n             )\n             RETURN [node IN nodes(path) | node.name] AS chain");
    proof {
        reveal_strlit("MATCH path = shortestPath(\n               (root:Project {name: '");
        reveal_strlit("'})\n                 -[:HAS_MANIFEST|REQUIRES|DEPENDS_ON*]->\n               (v:Version)-[:HAS_VERSION]->(p:Package {name: '");
        reveal_strlit("'})\n             )\n             RETURN [node IN nodes(path) | node.name] AS chain");
    }
    assert(s@ =~= why_installed_statement(project@, package@));
    s
}

/// The query for the versions a project requires that transitively reach a vulnerability.
pub open spec fn blast_radius_statement(project: Seq<char>, cve_id: Seq<char>) -> Seq<char> {
    "MATCH (v:Version)-[:DEPENDS_ON*]->(vv:Version)\n                   -[:HAS_VULN]->(vuln:Vulnerability {cve_id: '"@ + cve_id + "'})\n             WHERE (v)<-[:REQUIRES]-(:Manifest)<-[:HAS_MANIFEST]-\n                   (:Project {name: '"@ + project + "'})\n             RETURN DISTINCT v.semver, vuln.severity\n             ORDER BY vuln.severity DESC"@
}

/// Builds the query for the versions a project requires that transitively reach a vulnerability.
pub fn blast_radius_cypher(project: &str, cve_id: &str) -> (r: String)
    ensures
        r@ == blast_radius_statement(project@, cve_id@),
{
    let mut s = String::new();
    push_str(&mut s, "MATCH (v:Version)-[:DEPENDS_ON*]->(vv:Version)\n                   -[:HAS_VULN]->(vuln:Vulnerability {cve_id: '");
    push_str(&mut s, cve_id);
    push_str(&mut s, "'})\n             WHERE (v)<-[:REQUIRES]-(:Manifest)<-[:HAS_MANIFEST]-\n                   (:Project {name: '");
    push_str(&mut s, project);
    push_str(&mut s, "'})\n             RETURN DISTINCT v.semver, vuln.severity\n             ORDER BY vuln.severity DESC");
    proof {
        reveal_strlit("MATCH (v:Version)-[:DEPENDS_ON*]->(vv:Version)\n                   -[:HAS_VULN]->(vuln:Vulnerability {cve_id: '");
        reveal_strlit("'})\n             WHERE (v)<-[:REQUIRES]-(:Manifest)<-[:HAS_MANIFEST]-\n                   (:Project {name: '");
        reveal_strlit("'})\n             RETURN DISTINCT v.semver, vuln.severity\n             ORDER BY vuln.severity DESC");
    }
    assert(s@ =~= blast_radius_statement(project@, cve_id@));
    s
}

/// The query for the transitive dependencies of a project under copyleft licenses.
pub open spec fn copyleft_statement(project: Seq<char>) -> Seq<char> {
    "MATCH (root:Project {name: '"@ + project + "'})\n               -[:HAS_MANIFEST|REQUIRES|DEPENDS_ON*]->\n               (v:Version)-[:LICENSED_UNDER]->(l:License)\n             WHERE l.is_copyleft = true\n             RETURN DISTINCT v.name, l.spdx_id\n             ORDER BY l.spdx_id"@
}

/// Builds the query for the transitive dependencies of a project under copyleft licenses.
pub fn copyleft_cypher(project: &str) -> (r: String)
    ensures
        r@ == copyleft_statement(project@),
{
    let mut s = String::new();
    push_str(&mut s, "MATCH (root:Project {name: '");
    push_str(&mut s, project);
    push_str(&mut s, "'})\n               -[:HAS_MANIFEST|REQUIRES|DEPENDS_ON*]->\n               (v:Version)-[:LICENSED_UNDER]->(l:License)\n             WHERE l.is_copyleft = true\n             RETURN DISTINCT v.name, l.spdx_id\n             ORDER BY l.spdx_id");
    proof {
        reveal_strlit("MATCH (root:Project {name: '");
        reveal_strlit("'})\n               -[:HAS_MANIFEST|REQUIRES|DEPENDS_ON*]->\n               (v:Version)-[:LICENSED_UNDER]->(l:License)\n             WHERE l.is_copyleft = true\n             RETURN DISTINCT v.name, l.spdx_id\n             ORDER BY l.spdx_id");
    }
    assert(s@ =~= copyleft_statement(project@));
    s
}

/// The message of a failed schema statement.
pub open spec fn migration_failure(e: GraphError, stmt: Seq<char>) -> Seq<char> {
    "statement failed: "@ + graph_error_message(e) + "\nSQL: "@ + stmt
}

fn migration_failure_message(e: &GraphError, stmt: &str) -> (r: String)
    ensures
        r@ == migration_failure(*e, stmt@),
{
    let mut s = "statement failed: ".to_string();
    let m = e.message();
    push_str(&mut s, m.as_str());
    push_str(&mut s, "\nSQL: ");
    push_str(&mut s, stmt);
    s
}

/// The typed handle on the graph.
pub struct GraphStore {
    _db: StubDb,
    conn: StubConn,
}

impl GraphStore {
    /// The path the store was opened at.
    pub closed spec fn db_path(&self) -> Seq<char> {
        self._db.path@
    }

    /// Open (or create) the graph at `db_path` and run schema migrations:
    /// it opens when the database accepts every schema statement.
    pub fn open(db_path: &str) -> (r: Result<Self, GraphError>)
        ensures
            (r is Ok) == all_accepted(schema_statements()),
            r matches Ok(store) ==> store.db_path() == db_path@,
            r is Err ==> r matches Err(GraphError::Migration(_)),
    {
        let db = match StubDb::open(db_path) {
            Ok(db) => db,
            Err(e) => return Err(e),
        };
        let conn = match db.connect() {
            Ok(c) => c,
            Err(e) => return Err(e),
        };
        let store = GraphStore { _db: db, conn };
        match store.migrate() {
            Ok(()) => Ok(store),
            Err(e) => Err(e),
        }
    }

    /// Idempotent schema creation: runs every schema statement in order.
    fn migrate(&self) -> (r: Result<(), GraphError>)
        ensures
            (r is Ok) == all_accepted(schema_statements()),
            r is Err ==> r matches Err(GraphError::Migration(_)),
    {
        let stmts = schema_statement_list();
        let ghost sv = stmts@.map_values(|s: &str| s@);
        let mut i: usize = 0;
        while i < stmts.len()
            invariant
                i <= stmts.len(),
                sv == stmts@.map_values(|s: &str| s@),
                sv == schema_statements(),
                forall|j: int| 0 <= j < i ==> accepts(#[trigger] sv[j]),
            decreases stmts.len() - i,
        {
            assert(sv[i as int] == stmts@[i as int]@);
            match self.conn.query(stmts[i]) {
                Ok(_) => {},
                Err(e) => {
                    assert(!accepts(sv[i as int]));
                    return Err(GraphError::Migration(migration_failure_message(&e, stmts[i])));
                },
            }
            i = i + 1;
        }
        Ok(())
    }

    // ── Write operations ────────────────────────────────────────────────────

    /// Creates or updates the node of a package.
    pub fn upsert_package(&self, pkg: &PackageNode) -> (r: Result<(), GraphError>)
        ensures
            (r is Ok) == accepts(package_merge_statement(*pkg)),
    {
        let cypher = package_merge_cypher(pkg);
        match self.conn.query(cypher.as_str()) {
            Ok(_) => Ok(()),
            Err(e) => Err(e),
        }
    }

    /// Creates the node of a version (keyed by its id) if it is new.
    pub fn upsert_version(&self, ver: &VersionNode) -> (r: Result<(), GraphError>)
        ensures
            (r is Ok) == accepts(version_merge_statement(*ver)),
    {
        let cypher = version_merge_cypher(ver);
        match self.conn.query(cypher.as_str()) {
            Ok(_) => Ok(()),
            Err(e) => Err(e),
        }
    }

    /// Links two versions by a dependency edge.
    pub fn upsert_depends_on(&self, edge: &DependsOnEdge) -> (r: Result<(), GraphError>)
        ensures
            (r is Ok) == accepts(depends_on_merge_statement(*edge)),
    {
        let cypher = depends_on_merge_cypher(edge);
        match self.conn.query(cypher.as_str()) {
            Ok(_) => Ok(()),
            Err(e) => Err(e),
        }
    }

    // ── Read / query operations ─────────────────────────────────────────────

    /// Raw Cypher passthrough.
    pub fn query_raw(&self, cypher: &str) -> (r: Result<Vec<String>, GraphError>)
        ensures
            query_outcome(cypher@, r),
    {
        self.conn.query(cypher)
    }

    /// Shortest path from a project root to a named package.
    /// Returns each hop in the chain as a string.
    pub fn why_is_installed(&self, project: &str, package: &str) -> (r: Result<Vec<String>, GraphError>)
        ensures
            query_outcome(why_installed_statement(project@, package@), r),
    {
        let cypher = why_installed_cypher(project, package);
        self.conn.query(cypher.as_str())
    }

    /// All versions in the project transitively affected by a CVE.
    pub fn blast_radius(&self, project: &str, cve_id: &str) -> (r: Result<Vec<String>, GraphError>)
        ensures
            query_outcome(blast_radius_statement(project@, cve_id@), r),
    {
        let cypher = blast_radius_cypher(project, cve_id);
        self.conn.query(cypher.as_str())
    }

    /// All transitive dependencies with copyleft licenses.
    pub fn copyleft_deps(&self, project: &str) -> (r: Result<Vec<String>, GraphError>)
        ensures
            query_outcome(copyleft_statement(project@), r),
    {
        let cypher = copyleft_cypher(project);
        self.conn.query(cypher.as_str())
    }
}

} // verus!
