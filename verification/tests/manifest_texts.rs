use gpm::adapters::cargo::CargoAdapter;
use gpm::adapters::composer::{
    ComposerEditError, ComposerFileError, composer_json_add_text, composer_json_remove_text, parse_composer_text,
};
use gpm::adapters::pypi::parse_pyproject_text;
use gpm::adapters::pyproject_edit::{pyproject_add, pyproject_remove};
use gpm::formats::{parse_json, parse_toml, render_json_pretty};
use gpm::docmodel::{JsonValue, TomlValue};
use gpm::toolchain::release_version_text;

fn s(x: &str) -> String {
    x.to_string()
}

#[test]
fn cargo_text_graph() {
    let text = "[package]\nname = \"app\"\nversion = \"1.0.0\"\n\n[dependencies]\ntokio = { version = \"1.0\", features = [\"full\"] }\nserde = \"1\"\n\n[dev-dependencies]\ntempfile = \"3\"\n";
    let g = CargoAdapter.parse_manifest_text(text).ok().unwrap();
    assert_eq!(g.versions[0].id(), "cargo:app:1.0.0");
    let ids: Vec<String> = g.depends_on.iter().map(|e| e.to_id.clone()).collect();
    assert_eq!(ids, vec![s("cargo:serde:1"), s("cargo:tokio:1.0"), s("cargo:tempfile:3")]);
    match CargoAdapter.parse_manifest_text("[package") {
        Err(e) => {
            assert_eq!(e.file, "Cargo.toml");
            assert!(e.message().starts_with("parsing Cargo.toml: "));
        }
        Ok(_) => panic!("invalid TOML accepted"),
    }
}

#[test]
fn pyproject_text_graph() {
    let text = "[project]\nname = \"tool\"\nversion = \"2.0\"\ndependencies = [\"httpx>=0.27\"]\n";
    let g = parse_pyproject_text(text).ok().unwrap();
    assert_eq!(g.versions[0].id(), "pypi:tool:2.0");
    assert_eq!(g.depends_on[0].to_id, "pypi:httpx:>=0.27");
    assert!(parse_pyproject_text("name = ").is_err());
}

#[test]
fn composer_text_graph() {
    let text = "{\"name\": \"acme/site\", \"require\": {\"php\": \">=8\", \"monolog/monolog\": \"^3.0\"}}";
    let g = parse_composer_text(text).ok().unwrap();
    assert_eq!(g.versions[0].id(), "composer:acme/site:0.0.0");
    assert_eq!(g.depends_on.len(), 1);
    assert_eq!(g.depends_on[0].to_id, "composer:monolog/monolog:^3.0");
    match parse_composer_text("{") {
        Err(e) => assert_eq!(e.file, "composer.json"),
        Ok(_) => panic!("invalid JSON accepted"),
    }
}

#[test]
fn composer_text_edits() {
    let out = composer_json_add_text("{\"name\": \"a/b\", \"extra\": {\"n\": 1.5}}", "x/y:^1", false).ok().unwrap();
    assert_eq!(
        out,
        "{\n  \"extra\": {\n    \"n\": 1.5\n  },\n  \"name\": \"a/b\",\n  \"require\": {\n    \"x/y\": \"^1\"\n  }\n}\n"
    );
    let again = composer_json_add_text(&out, "x/y:^1", false).ok().unwrap();
    assert_eq!(again, out);
    let removed = composer_json_remove_text(&out, "x/y").ok().unwrap();
    assert_eq!(removed, "{\n  \"extra\": {\n    \"n\": 1.5\n  },\n  \"name\": \"a/b\",\n  \"require\": {}\n}\n");
    assert!(matches!(composer_json_add_text("[1]", "a/b", false), Err(ComposerFileError::Edit(ComposerEditError::RootNotObject))));
    assert!(matches!(composer_json_add_text("nope", "a/b", false), Err(ComposerFileError::Parse(_))));
    assert!(composer_json_remove_text("{", "a/b").is_err());
    match composer_json_add_text("[1]", "a/b", false) {
        Err(e) => assert_eq!(e.message(), "composer.json root is not a JSON object"),
        Ok(_) => panic!("array root accepted"),
    }
}

#[test]
fn document_readers() {
    match parse_toml("a = 1\nb = [true, \"x\"]\n").ok().unwrap() {
        TomlValue::Table(entries) => {
            assert_eq!(entries.len(), 2);
            assert_eq!(entries[0].0, "a");
            assert!(matches!(entries[0].1, TomlValue::Integer(1)));
        }
        _ => panic!("not a table"),
    }
    assert!(parse_toml("a = ").is_err());
    let j = parse_json("{\"k\": [null, false, 2]}").ok().unwrap();
    assert_eq!(render_json_pretty(&j), "{\n  \"k\": [\n    null,\n    false,\n    2\n  ]\n}");
    assert!(matches!(parse_json("[]").ok().unwrap(), JsonValue::Array(_)));
    assert!(parse_json("{").is_err());
}

#[test]
fn release_texts() {
    assert_eq!(release_version_text("{\"tag_name\": \"v0.8.0\"}"), Ok(Some(s("0.8.0"))));
    assert_eq!(release_version_text("{}"), Ok(None));
    assert!(release_version_text("not json").is_err());
}

#[test]
fn pyproject_add_then_remove_gives_dependencies_back() {
    let content = "[project]\nname = \"x\"\ndependencies = [\"flask\"]\n\n[project.optional-dependencies]\ndev = []\n";
    let added = pyproject_add(content, "requests>=2", false).ok().unwrap();
    assert!(added.contains("\"requests>=2\""));
    let removed = pyproject_remove(&added, "requests").ok().unwrap();
    assert!(!removed.contains("requests"));
    assert!(removed.contains("dependencies = [\"flask\"]"));
}
