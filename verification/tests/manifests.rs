use gpm::adapters::cargo::CargoAdapter;
use gpm::adapters::composer::{ComposerAdapter, parse_composer_json, platform_requirement};
use gpm::adapters::npm::{NpmAdapter, PackageJson};
use gpm::adapters::pypi::{PypiAdapter, PythonManifest, parse_requirements_txt, poetry_req};
use gpm::docmodel::{JsonValue, TomlValue};
use gpm::manifest::{DepEntry, ManifestGraph, build_graph};
use gpm::schema::{DependencyKind, Ecosystem};

fn s(x: &str) -> String {
    x.to_string()
}

fn tstr(x: &str) -> TomlValue {
    TomlValue::String(s(x))
}

fn jstr(x: &str) -> JsonValue {
    JsonValue::String(s(x))
}

/// (package name, version, edge target id, edge kind label, edge requirement) of each dependency.
fn deps_of(g: &ManifestGraph) -> Vec<(String, String, String, String, String)> {
    let mut out = Vec::new();
    for i in 0..g.depends_on.len() {
        let e = &g.depends_on[i];
        out.push((
            g.packages[i + 1].name.clone(),
            g.versions[i + 1].semver.clone(),
            e.to_id.clone(),
            e.kind.to_string(),
            e.version_req.clone(),
        ));
    }
    out
}

#[test]
fn cargo_manifest_graph() {
    let doc = TomlValue::Table(vec![
        (s("package"), TomlValue::Table(vec![(s("name"), tstr("app")), (s("version"), tstr("1.2.0")), (s("description"), tstr("an app"))])),
        (
            s("dependencies"),
            TomlValue::Table(vec![
                (s("serde"), tstr("1")),
                (s("tokio"), TomlValue::Table(vec![(s("version"), tstr("1.0")), (s("features"), TomlValue::Array(vec![tstr("full")]))])),
                (s("local"), TomlValue::Table(vec![(s("path"), tstr("../local"))])),
            ]),
        ),
        (s("dev-dependencies"), TomlValue::Table(vec![(s("tempfile"), tstr("3"))])),
        (s("build-dependencies"), TomlValue::Table(vec![(s("cc"), tstr("1.0"))])),
    ]);
    let g = CargoAdapter.parse_manifest(&doc);
    assert_eq!(g.packages[0].name, "app");
    assert_eq!(g.packages[0].description.as_deref(), Some("an app"));
    assert_eq!(g.versions[0].id(), "cargo:app:1.2.0");
    let d = deps_of(&g);
    assert_eq!(d.len(), 5);
    assert_eq!(d[0], (s("serde"), s("1"), s("cargo:serde:1"), s("normal"), s("1")));
    assert_eq!(d[1], (s("tokio"), s("1.0"), s("cargo:tokio:1.0"), s("normal"), s("1.0")));
    assert_eq!(d[2], (s("local"), s("*"), s("cargo:local:*"), s("normal"), s("*")));
    assert_eq!(d[3], (s("tempfile"), s("3"), s("cargo:tempfile:3"), s("dev"), s("3")));
    assert_eq!(d[4], (s("cc"), s("1.0"), s("cargo:cc:1.0"), s("build"), s("1.0")));
    for e in &g.depends_on {
        assert_eq!(e.from_id, "cargo:app:1.2.0");
    }
}

#[test]
fn cargo_manifest_defaults() {
    let g = CargoAdapter.parse_manifest(&TomlValue::Table(vec![]));
    assert_eq!(g.packages.len(), 1);
    assert_eq!(g.versions[0].id(), "cargo:unknown:0.0.0");
    assert!(g.depends_on.is_empty());
    assert_eq!(CargoAdapter.name(), "cargo");
    assert_eq!(CargoAdapter.ecosystem(), Ecosystem::Cargo);
}

#[test]
fn npm_manifest_graph() {
    let pkg = PackageJson {
        name: Some(s("web")),
        version: Some(s("0.1.0")),
        description: None,
        dependencies: Some(vec![(s("react"), s("^18"))]),
        dev_dependencies: Some(vec![(s("jest"), s("^29"))]),
        peer_dependencies: Some(vec![(s("react-dom"), s(">=18"))]),
        optional_dependencies: Some(vec![(s("fsevents"), s("*"))]),
    };
    let g = NpmAdapter.parse_manifest(pkg);
    assert_eq!(g.versions[0].id(), "npm:web:0.1.0");
    let d = deps_of(&g);
    assert_eq!(d.len(), 4);
    assert_eq!(d[0], (s("react"), s("^18"), s("npm:react:^18"), s("normal"), s("^18")));
    assert_eq!(d[1], (s("jest"), s("^29"), s("npm:jest:^29"), s("dev"), s("^29")));
    assert_eq!(d[2], (s("react-dom"), s(">=18"), s("npm:react-dom:>=18"), s("peer"), s(">=18")));
    assert_eq!(d[3], (s("fsevents"), s("*"), s("npm:fsevents:*"), s("optional"), s("*")));
    assert_eq!(NpmAdapter.name(), "npm");
}

#[test]
fn npm_manifest_defaults() {
    let pkg = PackageJson {
        name: None,
        version: None,
        description: Some(s("d")),
        dependencies: None,
        dev_dependencies: None,
        peer_dependencies: None,
        optional_dependencies: None,
    };
    let g = NpmAdapter.parse_manifest(pkg);
    assert_eq!(g.versions[0].id(), "npm:unknown:0.0.0");
    assert_eq!(g.packages[0].description.as_deref(), Some("d"));
    assert!(g.depends_on.is_empty());
}

#[test]
fn requirements_txt_graph() {
    let content = "requests>=2.0\n# a comment\n\n-r other.txt\nFlask_Login==0.6 ; python_version<'3.12'\nnumpy  # pinned later\n";
    let g = parse_requirements_txt(Some(s("proj")), content);
    assert_eq!(g.versions[0].id(), "pypi:proj:0.0.0");
    let d = deps_of(&g);
    assert_eq!(d.len(), 3);
    assert_eq!(d[0], (s("requests"), s(">=2.0"), s("pypi:requests:>=2.0"), s("normal"), s(">=2.0")));
    assert_eq!(d[1], (s("flask-login"), s("==0.6"), s("pypi:flask-login:==0.6"), s("normal"), s("==0.6")));
    assert_eq!(d[2], (s("numpy"), s("*"), s("pypi:numpy:*"), s("normal"), s("*")));
    let h = parse_requirements_txt(None, "");
    assert_eq!(h.versions[0].id(), "pypi:project:0.0.0");
}

#[test]
fn pep621_pyproject_graph() {
    let doc = TomlValue::Table(vec![(
        s("project"),
        TomlValue::Table(vec![
            (s("name"), tstr("tool")),
            (s("version"), tstr("2.0")),
            (s("dependencies"), TomlValue::Array(vec![tstr("httpx[http2]>=0.27"), tstr("Click")])),
            (s("optional-dependencies"), TomlValue::Table(vec![(s("test"), TomlValue::Array(vec![tstr("pytest>=8")]))])),
        ]),
    )]);
    let g = PypiAdapter.parse_manifest(PythonManifest::Pyproject(doc));
    assert_eq!(g.versions[0].id(), "pypi:tool:2.0");
    let d = deps_of(&g);
    assert_eq!(d.len(), 3);
    assert_eq!(d[0], (s("httpx"), s(">=0.27"), s("pypi:httpx:>=0.27"), s("normal"), s(">=0.27")));
    assert_eq!(d[1], (s("click"), s("*"), s("pypi:click:*"), s("normal"), s("*")));
    assert_eq!(d[2], (s("pytest"), s(">=8"), s("pypi:pytest:>=8"), s("optional"), s(">=8")));
}

#[test]
fn poetry_pyproject_graph() {
    let doc = TomlValue::Table(vec![(
        s("tool"),
        TomlValue::Table(vec![(
            s("poetry"),
            TomlValue::Table(vec![
                (s("name"), tstr("poet")),
                (s("version"), tstr("0.3.0")),
                (s("dependencies"), TomlValue::Table(vec![(s("python"), tstr("^3.11")), (s("requests"), tstr("^2.31"))])),
                (s("dev-dependencies"), TomlValue::Table(vec![(s("black"), TomlValue::Table(vec![(s("version"), tstr("^24"))]))])),
                (
                    s("group"),
                    TomlValue::Table(vec![(s("docs"), TomlValue::Table(vec![(s("dependencies"), TomlValue::Table(vec![(s("mkdocs"), tstr("*"))]))]))]),
                ),
            ]),
        )]),
    )]);
    let g = PypiAdapter.parse_manifest(PythonManifest::Pyproject(doc));
    assert_eq!(g.versions[0].id(), "pypi:poet:0.3.0");
    let d = deps_of(&g);
    assert_eq!(d.len(), 3);
    assert_eq!(d[0], (s("requests"), s("^2.31"), s("pypi:requests:^2.31"), s("normal"), s("^2.31")));
    assert_eq!(d[1], (s("black"), s("^24"), s("pypi:black:^24"), s("dev"), s("^24")));
    assert_eq!(d[2], (s("mkdocs"), s("*"), s("pypi:mkdocs:*"), s("dev"), s("*")));
}

#[test]
fn poetry_requirement_values() {
    assert_eq!(poetry_req(&tstr("^1.2")), "^1.2");
    assert_eq!(poetry_req(&TomlValue::Table(vec![(s("version"), tstr(">=3"))])), ">=3");
    assert_eq!(poetry_req(&TomlValue::Table(vec![(s("git"), tstr("https://x"))])), "*");
    assert_eq!(poetry_req(&TomlValue::Integer(3)), "*");
}

#[test]
fn composer_manifest_graph() {
    let json = JsonValue::Object(vec![
        (s("name"), jstr("acme/site")),
        (s("description"), jstr("site")),
        (
            s("require"),
            JsonValue::Object(vec![(s("php"), jstr(">=8.1")), (s("ext-json"), jstr("*")), (s("monolog/monolog"), jstr("^3.0"))]),
        ),
        (s("require-dev"), JsonValue::Object(vec![(s("phpunit/phpunit"), jstr("^10")), (s("lib-pcre"), jstr("*"))])),
    ]);
    let g = ComposerAdapter.parse_manifest(&json);
    assert_eq!(g.versions[0].id(), "composer:acme/site:0.0.0");
    let d = deps_of(&g);
    assert_eq!(d.len(), 2);
    assert_eq!(d[0], (s("monolog/monolog"), s("^3.0"), s("composer:monolog/monolog:^3.0"), s("normal"), s("^3.0")));
    assert_eq!(d[1], (s("phpunit/phpunit"), s("^10"), s("composer:phpunit/phpunit:^10"), s("dev"), s("^10")));
    let h = parse_composer_json(&JsonValue::Null);
    assert_eq!(h.versions[0].id(), "composer:unknown:0.0.0");
}

#[test]
fn platform_requirements() {
    assert!(platform_requirement("php"));
    assert!(platform_requirement("ext-mbstring"));
    assert!(platform_requirement("lib-icu"));
    assert!(!platform_requirement("phpunit/phpunit"));
    assert!(!platform_requirement("php-di/php-di"));
}

#[test]
fn graph_shape_of_built_graph() {
    let deps = vec![
        DepEntry { name: s("a"), req: s("1"), kind: DependencyKind::Normal },
        DepEntry { name: s("b"), req: s("2"), kind: DependencyKind::Dev },
    ];
    let g = build_graph("root", "0.1", None, Ecosystem::Go, &deps);
    assert_eq!(g.packages.len(), 3);
    assert_eq!(g.versions.len(), 3);
    assert_eq!(g.depends_on.len(), 2);
    for (i, e) in g.depends_on.iter().enumerate() {
        assert_eq!(e.from_id, "go:root:0.1");
        assert_eq!(e.to_id, g.versions[i + 1].id());
        assert_eq!(g.packages[i + 1].name, g.versions[i + 1].name);
    }
}

#[test]
fn graph_merge_and_emptiness() {
    let mut g = ManifestGraph::new();
    assert!(g.is_empty());
    let h = build_graph("r", "1", None, Ecosystem::Npm, &vec![DepEntry { name: s("x"), req: s("2"), kind: DependencyKind::Normal }]);
    g.merge(h);
    assert!(!g.is_empty());
    assert_eq!(g.packages.len(), 2);
    assert_eq!(g.depends_on.len(), 1);
    let (root, id) = ManifestGraph::with_root("p", "3", Some(s("d")), Ecosystem::Hex);
    assert_eq!(id, "hex:p:3");
    assert_eq!(root.packages.len(), 1);
    g.merge(root);
    assert_eq!(g.packages.len(), 3);
    assert_eq!(g.packages[2].name, "p");
}
