use gpm::adapters::composer::{ComposerEditError, composer_json_add, composer_json_remove};
use gpm::adapters::pypi::{requirements_txt_add, requirements_txt_remove};
use gpm::adapters::pyproject_edit::{PyprojectEditError, pyproject_add, pyproject_remove};
use gpm::docmodel::JsonValue;
use gpm::pep508::{collapse_separators, parse_pep508, pep503_normalize, pep508_name};

fn s(x: &str) -> String {
    x.to_string()
}

fn member<'a>(v: &'a JsonValue, key: &str) -> Option<&'a JsonValue> {
    match v {
        JsonValue::Object(m) => m.iter().find(|(k, _)| k == key).map(|(_, v)| v),
        _ => None,
    }
}

fn string_of(v: Option<&JsonValue>) -> Option<String> {
    match v {
        Some(JsonValue::String(x)) => Some(x.clone()),
        _ => None,
    }
}

// ── PEP 508 / PEP 503 ──────────────────────────────────────────────────────

#[test]
fn pep508_specifiers() {
    assert_eq!(parse_pep508("requests>=2.0"), (s("requests"), s(">=2.0")));
    assert_eq!(parse_pep508("Flask_SQLAlchemy[async] >= 3 ; python_version > '3.8'"), (s("flask-sqlalchemy"), s(">= 3")));
    assert_eq!(parse_pep508("numpy"), (s("numpy"), s("*")));
    assert_eq!(parse_pep508("pkg[extra]"), (s("pkg"), s("*")));
    assert_eq!(parse_pep508("  Django~=4.2  "), (s("django"), s("~=4.2")));
    assert_eq!(pep508_name("My.Package==1"), "my-package");
}

#[test]
fn pep503_names() {
    assert_eq!(pep503_normalize("Foo.Bar__baz"), "foo-bar-baz");
    assert_eq!(pep503_normalize("a-_.b"), "a-b");
    assert_eq!(pep503_normalize("simple"), "simple");
    assert_eq!(collapse_separators("x__y..z"), "x-y-z");
}

#[test]
fn collapsing_twice_changes_nothing() {
    for name in ["a__b", "-._x", "x-y", "plain", "..", ""] {
        let once = collapse_separators(name);
        assert_eq!(collapse_separators(&once), once);
    }
}

// ── requirements.txt ───────────────────────────────────────────────────────

#[test]
fn requirements_add_appends_line() {
    assert_eq!(requirements_txt_add("flask\n", "requests>=2"), Some(s("flask\nrequests>=2\n")));
    assert_eq!(requirements_txt_add("flask", "requests"), Some(s("flask\nrequests\n")));
    assert_eq!(requirements_txt_add("", "requests"), Some(s("requests\n")));
}

#[test]
fn requirements_add_is_idempotent() {
    let once = requirements_txt_add("flask\n", "Requests==2.31").unwrap();
    assert_eq!(requirements_txt_add(&once, "Requests==2.31"), None);
    assert_eq!(requirements_txt_add(&once, "requests"), None);
    assert_eq!(requirements_txt_add("REQUESTS>=1  # pinned\n", "requests"), None);
}

#[test]
fn requirements_remove_drops_only_that_project() {
    let content = "# deps\nrequests>=2\n\nflask  # web\nRequests_Extra\n  # requests\nrequests ; python_version<'3'\n";
    assert_eq!(
        requirements_txt_remove(content, "requests"),
        "# deps\n\nflask  # web\nRequests_Extra\n  # requests\n"
    );
}

#[test]
fn requirements_removed_package_is_gone() {
    let added = requirements_txt_add("flask\r\n", "requests").unwrap();
    let removed = requirements_txt_remove(&added, "requests");
    assert_eq!(removed, "flask\n");
    assert!(requirements_txt_add(&removed, "requests").is_some());
}

// ── composer.json ──────────────────────────────────────────────────────────

#[test]
fn composer_add_sets_constraint() {
    let json = JsonValue::Object(vec![(s("name"), JsonValue::String(s("a/b")))]);
    let out = composer_json_add(json, "monolog/monolog:^3.0", false).ok().unwrap();
    assert_eq!(string_of(member(member(&out, "require").unwrap(), "monolog/monolog")), Some(s("^3.0")));
    let out2 = composer_json_add(out, "phpunit/phpunit", true).ok().unwrap();
    assert_eq!(string_of(member(member(&out2, "require-dev").unwrap(), "phpunit/phpunit")), Some(s("*")));
    let out3 = composer_json_add(out2, " monolog/monolog : ^3.5 ", false).ok().unwrap();
    assert_eq!(string_of(member(member(&out3, "require").unwrap(), "monolog/monolog")), Some(s("^3.5")));
    match member(&out3, "require").unwrap() {
        JsonValue::Object(m) => assert_eq!(m.len(), 1),
        _ => panic!("require is not an object"),
    }
}

#[test]
fn composer_add_errors() {
    assert_eq!(composer_json_add(JsonValue::Array(vec![]), "a/b", false).err(), Some(ComposerEditError::RootNotObject));
    let bad = JsonValue::Object(vec![(s("require"), JsonValue::String(s("x")))]);
    assert_eq!(composer_json_add(bad, "a/b", false).err(), Some(ComposerEditError::SectionNotObject));
}

#[test]
fn composer_remove_drops_from_both_sections() {
    let json = JsonValue::Object(vec![
        (s("require"), JsonValue::Object(vec![(s("a/b"), JsonValue::String(s("^1"))), (s("c/d"), JsonValue::String(s("*")))])),
        (s("require-dev"), JsonValue::Object(vec![(s("a/b"), JsonValue::String(s("^2")))])),
    ]);
    let out = composer_json_remove(json, "a/b");
    assert!(member(member(&out, "require").unwrap(), "a/b").is_none());
    assert!(member(member(&out, "require").unwrap(), "c/d").is_some());
    assert!(member(member(&out, "require-dev").unwrap(), "a/b").is_none());
    match composer_json_remove(JsonValue::Null, "a/b") {
        JsonValue::Null => {},
        _ => panic!("a non-object changed"),
    }
}

#[test]
fn composer_add_then_remove() {
    let json = JsonValue::Object(vec![]);
    let added = composer_json_add(json, "x/y:^1", false).ok().unwrap();
    let removed = composer_json_remove(added, "x/y");
    match member(&removed, "require").unwrap() {
        JsonValue::Object(m) => assert!(m.is_empty()),
        _ => panic!("require is not an object"),
    }
}

// ── pyproject.toml ─────────────────────────────────────────────────────────

#[test]
fn pyproject_pep621_add() {
    let content = "[project]\nname = \"x\"\ndependencies = [\"flask\"]\n";
    let out = pyproject_add(content, "requests>=2", false).ok().unwrap();
    assert!(out.contains("\"flask\""));
    assert!(out.contains("\"requests>=2\""));
    let again = pyproject_add(&out, "Requests", false).ok().unwrap();
    assert_eq!(again, out);
}

#[test]
fn pyproject_pep621_add_dev() {
    let content = "[project]\nname = \"x\"\ndependencies = []\n\n[project.optional-dependencies]\ndev = []\n";
    let out = pyproject_add(content, "pytest", true).ok().unwrap();
    assert!(out.contains("dev = [\"pytest\"]"));
}

#[test]
fn pyproject_poetry_add() {
    let content = "[tool.poetry]\nname = \"p\"\n\n[tool.poetry.dependencies]\npython = \"^3.11\"\n";
    let out = pyproject_add(content, "Requests>=2.31", false).ok().unwrap();
    assert!(out.contains("requests = \">=2.31\""));
    let dev = pyproject_add(&out, "black", true).ok().unwrap();
    assert!(dev.contains("black = \"*\""));
}

#[test]
fn pyproject_add_errors() {
    assert!(matches!(pyproject_add("[project\n", "a", false), Err(PyprojectEditError::InvalidToml(_))));
    assert!(matches!(pyproject_add("[build-system]\nrequires = []\n", "a", false), Err(PyprojectEditError::Unsupported)));
    assert!(matches!(pyproject_add("[project]\nname = \"x\"\n", "a", false), Err(PyprojectEditError::NotEditable)));
}

#[test]
fn pyproject_pep621_remove() {
    let content = "[project]\nname = \"x\"\ndependencies = [\"requests>=2\", \"flask\"]\n\n[project.optional-dependencies]\ndev = [\"Requests\", \"pytest\"]\n";
    let out = pyproject_remove(content, "requests").ok().unwrap();
    assert!(!out.contains("equests"));
    assert!(out.contains("\"flask\""));
    assert!(out.contains("\"pytest\""));
}

#[test]
fn pyproject_poetry_remove() {
    let content = "[tool.poetry]\nname = \"p\"\n\n[tool.poetry.dependencies]\npython = \"^3.11\"\nrequests = \"^2\"\n\n[tool.poetry.dev-dependencies]\nrequests = \"*\"\nblack = \"*\"\n";
    let out = pyproject_remove(content, "requests").ok().unwrap();
    assert!(!out.contains("requests"));
    assert!(out.contains("black = \"*\""));
    assert!(out.contains("python = \"^3.11\""));
}

#[test]
fn pyproject_remove_errors() {
    assert!(matches!(pyproject_remove("= x", "a"), Err(PyprojectEditError::InvalidToml(_))));
    assert!(matches!(
        pyproject_remove("[project]\nname = \"x\"\ndependencies = []\n", "a"),
        Err(PyprojectEditError::NotEditable)
    ));
    let plain = "[build-system]\nrequires = []\n";
    assert_eq!(pyproject_remove(plain, "a").ok().unwrap(), plain);
}

#[test]
fn edit_error_messages() {
    assert_eq!(ComposerEditError::RootNotObject.message(), "composer.json root is not a JSON object");
    assert_eq!(ComposerEditError::SectionNotObject.message(), "require section is not a JSON object");
    assert_eq!(PyprojectEditError::InvalidToml(s("bad")).message(), "parsing pyproject.toml: bad");
    assert_eq!(
        PyprojectEditError::Unsupported.message(),
        "unsupported pyproject.toml — no [project] or [tool.poetry] section found"
    );
    assert_eq!(
        PyprojectEditError::NotEditable.message(),
        "pyproject.toml: a section on the way to the dependency list is missing or not a table"
    );
    match pyproject_add("[project\n", "a", false) {
        Err(e) => assert!(e.message().starts_with("parsing pyproject.toml: ")),
        Ok(_) => panic!("invalid TOML accepted"),
    }
}

#[test]
fn composer_add_twice_is_add_once() {
    let json = JsonValue::Object(vec![(s("require"), JsonValue::Object(vec![(s("a/b"), JsonValue::String(s("^1")))]))]);
    let once = composer_json_add(json, "c/d:^2", false).ok().unwrap();
    let shown = format!("{once:?}");
    let twice = composer_json_add(once, "c/d:^2", false).ok().unwrap();
    assert_eq!(format!("{twice:?}"), shown);
}

#[test]
fn normalized_names_have_no_separator_runs() {
    for name in ["Foo__Bar", "a._-b", "__x__", "Zope.Interface", "plain"] {
        let n = pep503_normalize(name);
        assert!(!n.contains('_') && !n.contains('.') && !n.contains("--"));
        assert_eq!(collapse_separators(&n), n);
    }
}

#[test]
fn requirements_add_twice_with_padding() {
    let once = requirements_txt_add("", "  Requests >= 2  ").unwrap();
    assert_eq!(once, "  Requests >= 2  \n");
    assert_eq!(requirements_txt_add(&once, "  Requests >= 2  "), None);
}

#[test]
fn pep503_normal_form_is_stable_and_lowercase() {
    for name in ["Foo.Bar__baz", "A-_.B", "simple", "X", "--Y--", ""] {
        let once = pep503_normalize(name);
        assert_eq!(pep503_normalize(&once), once);
        assert_eq!(once.to_lowercase(), once);
    }
}

#[test]
fn pyproject_add_twice_changes_nothing() {
    let pep621 = "[project]\nname = \"x\"\ndependencies = []\n\n[project.optional-dependencies]\ndev = []\n";
    for dev in [false, true] {
        let once = pyproject_add(pep621, "httpx>=0.27", dev).ok().unwrap();
        assert_eq!(pyproject_add(&once, "httpx>=0.27", dev).ok().unwrap(), once);
    }
    let poetry = "[tool.poetry]\nname = \"p\"\n\n[tool.poetry.dependencies]\npython = \"^3.11\"\n";
    let once = pyproject_add(poetry, "Requests>=2.31", false).ok().unwrap();
    assert_eq!(pyproject_add(&once, "Requests>=2.31", false).ok().unwrap(), once);
}

#[test]
fn pyproject_add_keeps_the_rest() {
    let content = "# top comment\n[build-system]\nrequires = [\"hatchling\"]\n\n[project]\nname = \"x\"  # the name\nversion = \"1.0\"\ndependencies = [\"flask\"]\n\n[tool.ruff]\nline-length = 100\n";
    let out = pyproject_add(content, "requests", false).ok().unwrap();
    assert_eq!(out, content.replace("[\"flask\"]", "[\"flask\", \"requests\"]"));
}

#[test]
fn pyproject_remove_keeps_the_rest() {
    let content = "[project]\nname = \"x\"  # the name\ndependencies = [\"flask\", \"requests\"]\n\n[project.optional-dependencies]\ndev = [\"pytest\"]\n\n[tool.ruff]\nline-length = 100\n";
    let out = pyproject_remove(content, "requests").ok().unwrap();
    assert!(out.contains("# the name"));
    assert!(out.contains("[tool.ruff]\nline-length = 100"));
    assert!(out.contains("dev = [\"pytest\"]"));
    assert!(!out.contains("requests"));
}
