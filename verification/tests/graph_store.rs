use gpm::schema::{DependencyKind, DependsOnEdge, Ecosystem, PackageNode, VersionNode, make_version, make_version_id};
use gpm::store::{
    GraphError, GraphStore, blast_radius_cypher, copyleft_cypher, depends_on_merge_cypher, package_merge_cypher,
    version_merge_cypher, why_installed_cypher,
};

#[test]
fn test_open_and_migrate() {
    let dir = tempfile::tempdir().unwrap();
    let store = GraphStore::open(dir.path().to_str().unwrap());
    assert!(store.is_ok());
}

#[test]
fn test_version_id_format() {
    let v = VersionNode {
        name: "lodash".into(),
        ecosystem: Ecosystem::Npm,
        semver: "4.17.21".into(),
        published_at: None,
        checksum: None,
        yanked: false,
    };
    assert_eq!(v.id(), "npm:lodash:4.17.21");
}

#[test]
fn version_ids_of_distinct_versions_differ() {
    let a = make_version_id(Ecosystem::Npm, "lodash", "4.17.21");
    let b = make_version_id(Ecosystem::Cargo, "lodash", "4.17.21");
    let c = make_version_id(Ecosystem::Npm, "lodash", "4.17.20");
    assert_ne!(a, b);
    assert_ne!(a, c);
    assert_eq!(b, "cargo:lodash:4.17.21");
}

#[test]
fn make_version_is_plain() {
    let v = make_version("serde", "^1", Ecosystem::Cargo);
    assert_eq!(v.name, "serde");
    assert_eq!(v.semver, "^1");
    assert!(v.published_at.is_none());
    assert!(v.checksum.is_none());
    assert!(!v.yanked);
    assert_eq!(v.id(), "cargo:serde:^1");
}

#[test]
fn ecosystem_and_kind_labels() {
    assert_eq!(Ecosystem::Npm.to_string(), "npm");
    assert_eq!(Ecosystem::PyPI.to_string(), "pypi");
    assert_eq!(Ecosystem::Cargo.to_string(), "cargo");
    assert_eq!(Ecosystem::Composer.to_string(), "composer");
    assert_eq!(Ecosystem::Maven.to_string(), "maven");
    assert_eq!(Ecosystem::NuGet.to_string(), "nuget");
    assert_eq!(Ecosystem::Go.to_string(), "go");
    assert_eq!(Ecosystem::RubyGems.to_string(), "rubygems");
    assert_eq!(Ecosystem::Hex.to_string(), "hex");
    assert_eq!(DependencyKind::Normal.to_string(), "normal");
    assert_eq!(DependencyKind::Dev.to_string(), "dev");
    assert_eq!(DependencyKind::Optional.to_string(), "optional");
    assert_eq!(DependencyKind::Peer.to_string(), "peer");
    assert_eq!(DependencyKind::Build.to_string(), "build");
}

#[test]
fn graph_error_messages() {
    assert_eq!(GraphError::Kuzu("boom".to_string()).message(), "KuzuDB error: boom");
    assert_eq!(GraphError::NotFound("x".to_string()).message(), "Node not found: x");
    assert_eq!(GraphError::Migration("m".to_string()).message(), "Schema migration failed: m");
    assert_eq!(GraphError::Serde("s".to_string()).message(), "Serialization error: s");
}

#[test]
fn package_statement_is_exact() {
    let p = PackageNode { name: "lodash".to_string(), ecosystem: Ecosystem::Npm, description: Some("util".to_string()) };
    assert_eq!(
        package_merge_cypher(&p),
        "MERGE (p:Package {name: 'lodash', ecosystem: 'npm'})\n             ON CREATE SET p.description = 'util'\n             ON MATCH SET  p.description = 'util'"
    );
    let q = PackageNode { name: "a".to_string(), ecosystem: Ecosystem::Cargo, description: None };
    assert_eq!(
        package_merge_cypher(&q),
        "MERGE (p:Package {name: 'a', ecosystem: 'cargo'})\n             ON CREATE SET p.description = ''\n             ON MATCH SET  p.description = ''"
    );
}

#[test]
fn version_statement_is_exact() {
    let mut v = make_version("lodash", "4.17.21", Ecosystem::Npm);
    v.yanked = true;
    assert_eq!(
        version_merge_cypher(&v),
        "MERGE (v:Version {id: 'npm:lodash:4.17.21'})\n             ON CREATE SET\n               v.name = 'lodash',\n               v.ecosystem = 'npm',\n               v.semver = '4.17.21',\n               v.yanked = true"
    );
}

#[test]
fn edge_statement_is_exact() {
    let e = DependsOnEdge {
        from_id: "npm:app:1.0.0".to_string(),
        to_id: "npm:lodash:^4".to_string(),
        kind: DependencyKind::Dev,
        version_req: "^4".to_string(),
    };
    assert_eq!(
        depends_on_merge_cypher(&e),
        "MATCH (a:Version {id: 'npm:app:1.0.0'}), (b:Version {id: 'npm:lodash:^4'})\n             MERGE (a)-[r:DEPENDS_ON {kind: 'dev', version_req: '^4'}]->(b)"
    );
}

#[test]
fn query_statements_are_exact() {
    assert_eq!(
        why_installed_cypher("app", "lodash"),
        "MATCH path = shortestPath(\n               (root:Project {name: 'app'})\n                 -[:HAS_MANIFEST|REQUIRES|DEPENDS_ON*]->\n               (v:Version)-[:HAS_VERSION]->(p:Package {name: 'lodash'})\n             )\n             RETURN [node IN nodes(path) | node.name] AS chain"
    );
    assert_eq!(
        blast_radius_cypher("app", "CVE-1"),
        "MATCH (v:Version)-[:DEPENDS_ON*]->(vv:Version)\n                   -[:HAS_VULN]->(vuln:Vulnerability {cve_id: 'CVE-1'})\n             WHERE (v)<-[:REQUIRES]-(:Manifest)<-[:HAS_MANIFEST]-\n                   (:Project {name: 'app'})\n             RETURN DISTINCT v.semver, vuln.severity\n             ORDER BY vuln.severity DESC"
    );
    assert_eq!(
        copyleft_cypher("app"),
        "MATCH (root:Project {name: 'app'})\n               -[:HAS_MANIFEST|REQUIRES|DEPENDS_ON*]->\n               (v:Version)-[:LICENSED_UNDER]->(l:License)\n             WHERE l.is_copyleft = true\n             RETURN DISTINCT v.name, l.spdx_id\n             ORDER BY l.spdx_id"
    );
}

#[test]
fn store_operations_succeed_with_no_rows() {
    let store = GraphStore::open("/nonexistent/graph").ok().unwrap();
    let p = PackageNode { name: "a".to_string(), ecosystem: Ecosystem::Npm, description: None };
    assert!(store.upsert_package(&p).is_ok());
    assert!(store.upsert_version(&make_version("a", "1", Ecosystem::Npm)).is_ok());
    let e = DependsOnEdge {
        from_id: "x".to_string(),
        to_id: "y".to_string(),
        kind: DependencyKind::Normal,
        version_req: "*".to_string(),
    };
    assert!(store.upsert_depends_on(&e).is_ok());
    assert!(store.query_raw("MATCH (n) RETURN n").ok().unwrap().is_empty());
    assert!(store.why_is_installed("app", "a").ok().unwrap().is_empty());
    assert!(store.blast_radius("app", "CVE-1").ok().unwrap().is_empty());
    assert!(store.copyleft_deps("app").ok().unwrap().is_empty());
}
