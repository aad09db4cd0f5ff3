use gpm::adapters::cargo::CargoAdapter;
use gpm::adapters::composer::ComposerAdapter;
use gpm::adapters::npm::NpmAdapter;
use gpm::adapters::pypi::PypiAdapter;
use gpm::adapters::registry::{AdapterInfo, AdapterRegistry};
use gpm::clients::{DepsDev, OsvClient, RegistryClient};
use gpm::engine::{Config, Engine, EngineError, GraphSync, QueryPlanner};
use gpm::manifest::{DepEntry, build_graph};
use gpm::schema::{DependencyKind, Ecosystem};
use gpm::security::{AuditFinding, AuditReport, Auditor, join_strings};
use gpm::store::GraphStore;

fn s(x: &str) -> String {
    x.to_string()
}

fn files(names: &[&str]) -> Vec<String> {
    names.iter().map(|n| n.to_string()).collect()
}

fn names(v: &[AdapterInfo]) -> Vec<String> {
    v.iter().map(|a| a.name.clone()).collect()
}

#[test]
fn default_registry_detection() {
    let reg = AdapterRegistry::with_defaults();
    assert_eq!(names(&reg.detect(&files(&["Cargo.toml", "README.md"]))), vec![s("cargo")]);
    assert_eq!(names(&reg.detect(&files(&["requirements.txt"]))), vec![s("pypi")]);
    assert_eq!(names(&reg.detect(&files(&["pyproject.toml"]))), vec![s("pypi")]);
    assert_eq!(
        names(&reg.detect(&files(&["composer.json", "package.json", "Cargo.toml"]))),
        vec![s("cargo"), s("npm"), s("composer")]
    );
    assert!(reg.detect(&files(&["Makefile"])).is_empty());
}

#[test]
fn adapters_detect_their_manifests() {
    let present = files(&["package.json"]);
    assert!(NpmAdapter.detect(&present));
    assert!(!CargoAdapter.detect(&present));
    assert!(!PypiAdapter.detect(&present));
    assert!(!ComposerAdapter.detect(&present));
    assert_eq!(PypiAdapter.info().manifests, files(&["pyproject.toml", "requirements.txt"]));
    assert_eq!(ComposerAdapter.info().ecosystem, Ecosystem::Composer);
}

#[test]
fn registry_lookup_and_registration() {
    let mut reg = AdapterRegistry::with_defaults();
    assert_eq!(reg.get("npm").map(|a| a.ecosystem), Some(Ecosystem::Npm));
    assert!(reg.get("maven").is_none());
    reg.register(AdapterInfo::new(Ecosystem::Maven, "maven", files(&["pom.xml"])));
    assert_eq!(reg.get("maven").map(|a| a.manifests), Some(files(&["pom.xml"])));
    reg.register(AdapterInfo::new(Ecosystem::Go, "npm", files(&["go.mod"])));
    assert_eq!(reg.get("npm").map(|a| a.ecosystem), Some(Ecosystem::Npm));
    assert_eq!(names(&reg.detect(&files(&["pom.xml", "go.mod"]))), vec![s("maven"), s("npm")]);
}

#[test]
fn config_paths() {
    let c = Config::with_root("/work/app");
    assert_eq!(c.project_root, "/work/app");
    assert_eq!(c.graph_db_path, "/work/app/.gpm/graph");
}

#[test]
fn engine_chooses_adapters() {
    let engine = Engine::new(&Config::with_root("/work/app")).ok().unwrap();
    assert_eq!(engine.project_root, "/work/app");
    let chosen = engine.resolve_adapter(Some("composer"), &files(&["package.json"])).ok().unwrap();
    assert_eq!(chosen.name, "composer");
    match engine.resolve_adapter(Some("pip"), &files(&[])) {
        Err(EngineError::UnknownEcosystem(n)) => assert_eq!(n, "pip"),
        _ => panic!("expected an unknown ecosystem"),
    }
    assert_eq!(engine.resolve_adapter(None, &files(&["package.json"])).ok().unwrap().name, "npm");
    assert!(matches!(engine.resolve_adapter(None, &files(&[])), Err(EngineError::NoEcosystemDetected)));
    assert!(matches!(
        engine.resolve_adapter(None, &files(&["package.json", "composer.json"])),
        Err(EngineError::AmbiguousEcosystem)
    ));
}

#[test]
fn engine_sync_targets() {
    let engine = Engine::new(&Config::with_root("/work/app")).ok().unwrap();
    let t = engine.sync_targets(&files(&["pyproject.toml", "package.json"])).ok().unwrap();
    assert_eq!(names(&t), vec![s("npm"), s("pypi")]);
    match engine.sync_targets(&files(&["notes.txt"])) {
        Err(e) => assert_eq!(e.message(), "no supported package manifest found in /work/app"),
        Ok(_) => panic!("expected no manifest"),
    }
}

#[test]
fn engine_error_messages() {
    assert_eq!(EngineError::UnknownEcosystem(s("pip")).message(), "unknown ecosystem: pip");
    assert_eq!(EngineError::NoEcosystemDetected.message(), "no ecosystem detected");
    assert_eq!(
        EngineError::AmbiguousEcosystem.message(),
        "multiple ecosystems detected — use --ecosystem to specify one"
    );
}

#[test]
fn engine_queries_and_sync() {
    let engine = Engine::new(&Config::with_root("/work/app")).ok().unwrap();
    assert!(engine.why("app", "lodash").ok().unwrap().is_empty());
    assert!(engine.audit_cve("app", "CVE-2024-1").ok().unwrap().is_empty());
    assert!(engine.licenses("app").ok().unwrap().is_empty());
    let g = build_graph("app", "1.0", None, Ecosystem::Npm, &vec![DepEntry { name: s("lodash"), req: s("^4"), kind: DependencyKind::Normal }]);
    assert!(GraphSync::write_to_store(&engine.store, g).is_ok());
    let planner = QueryPlanner::new(&engine.store);
    assert!(planner.raw("MATCH (n) RETURN n").ok().unwrap().is_empty());
    let store = GraphStore::open("/tmp/other").ok().unwrap();
    assert!(QueryPlanner::new(&store).raw("RETURN 1").is_ok());
}

#[test]
fn registry_clients_know_nothing_yet() {
    let c = RegistryClient::new();
    assert_eq!(c.latest_version(&Ecosystem::Cargo, "serde"), "0.0.0");
    assert!(c.all_versions(&Ecosystem::Npm, "react").is_empty());
    let d = DepsDev::new();
    assert!(d.transitive_deps("npm", "react", "18.0.0").is_empty());
    assert!(d.vulnerabilities("npm", "react", "18.0.0").is_empty());
    let _ = OsvClient::new();
}

fn finding(pkg: &str, via: &[&str]) -> AuditFinding {
    AuditFinding {
        package: s(pkg),
        version: s("1.0.0"),
        cve_id: s("CVE-2024-0001"),
        severity: s("HIGH"),
        affected_via: files(via),
    }
}

#[test]
fn audit_summaries() {
    let clean = Auditor.run("app");
    assert!(clean.is_clean());
    assert_eq!(clean.summary(), "✓ No known vulnerabilities found.\n");
    let report = AuditReport { findings: vec![finding("left-pad", &["app", "lib", "left-pad"]), finding("x", &[])] };
    assert!(!report.is_clean());
    assert_eq!(
        report.summary(),
        "⚠ 2 vulnerabilities found:\n  left-pad 1.0.0 — CVE-2024-0001 (HIGH)\n    via: app → lib → left-pad\n  x 1.0.0 — CVE-2024-0001 (HIGH)\n    via: \n"
    );
    assert_ne!(report.summary(), clean.summary());
}

#[test]
fn joining() {
    assert_eq!(join_strings(&files(&["a", "b", "c"]), " → "), "a → b → c");
    assert_eq!(join_strings(&files(&["only"]), ", "), "only");
    assert_eq!(join_strings(&files(&[]), ", "), "");
}
