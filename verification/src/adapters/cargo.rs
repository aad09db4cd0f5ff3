//! Cargo (`Cargo.toml`).
use vstd::prelude::*;
use crate::docmodel::{TomlValue, toml_get, toml_get_opt, toml_str, toml_str_or, toml_table, toml_get_in, toml_str_or_exec, toml_str_exec, opt_ref};
use crate::manifest::{ManifestGraph, RootSpec, Dep, DepEntry, ParseError, deps_view, graph_of, build_graph, lemma_deps_view_push};
use crate::formats::{parse_toml, parsed_toml};
use crate::schema::{DependencyKind, Ecosystem};
use crate::adapters::pypi::{poetry_req, dep_value_req};

verus! {

broadcast use vstd::string::group_string_axioms;

/// The adapter for Rust projects managed by Cargo.
pub struct CargoAdapter;

/// The dependencies listed in a table of `name = value` entries, each with
/// the constraint its value gives (see `dep_value_req`).
pub open spec fn table_deps(entries: Seq<(String, TomlValue)>, kind: DependencyKind) -> Seq<Dep> {
    entries.map_values(|kv: (String, TomlValue)| Dep { name: kv.0@, req: dep_value_req(kv.1), kind })
}

/// The dependencies of one `Cargo.toml` section, none if it is not a table.
pub open spec fn cargo_section(doc: TomlValue, section: Seq<char>, kind: DependencyKind) -> Seq<Dep> {
    match toml_table(toml_get(doc, section)) {
        Some(e) => table_deps(e, kind),
        None => seq![],
    }
}

/// The dependencies of a `Cargo.toml`: `[dependencies]`, then
/// `[dev-dependencies]`, then `[build-dependencies]`.
pub open spec fn cargo_deps(doc: TomlValue) -> Seq<Dep> {
    cargo_section(doc, "dependencies"@, DependencyKind::Normal) + cargo_section(
        doc,
        "dev-dependencies"@,
        DependencyKind::Dev,
    ) + cargo_section(doc, "build-dependencies"@, DependencyKind::Build)
}

/// The root package of a `Cargo.toml`: `[package]` name (else "unknown"),
/// version (else "0.0.0") and description.
pub open spec fn cargo_root(doc: TomlValue) -> RootSpec {
    let p = toml_get(doc, "package"@);
    RootSpec {
        name: toml_str_or(toml_get_opt(p, "name"@), "unknown"@),
        semver: toml_str_or(toml_get_opt(p, "version"@), "0.0.0"@),
        description: toml_str(toml_get_opt(p, "description"@)),
    }
}

/// Appends the dependencies of one section of `doc` to `out`.
fn push_table_section(doc: &TomlValue, section: &str, kind: DependencyKind, out: &mut Vec<DepEntry>)
    ensures
        deps_view(final(out)@) == deps_view(old(out)@) + cargo_section(*doc, section@, kind),
{
    match doc.get(section) {
        Some(TomlValue::Table(entries)) => {
            let ghost base = deps_view(out@);
            let mut i: usize = 0;
            assert(table_deps(entries@.take(0), kind) =~= Seq::<Dep>::empty());
            while i < entries.len()
                invariant
                    i <= entries.len(),
                    deps_view(out@) == base + table_deps(entries@.take(i as int), kind),
                decreases entries.len() - i,
            {
                let req = poetry_req(&entries[i].1);
                let d = DepEntry { name: entries[i].0.clone(), req, kind };
                let ghost prev = out@;
                out.push(d);
                proof {
                    lemma_deps_view_push(prev, d);
                    assert(entries@.take(i + 1) == entries@.take(i as int).push(entries@[i as int]));
                    assert(table_deps(entries@.take(i + 1), kind) =~= table_deps(entries@.take(i as int), kind).push(d@));
                }
                i = i + 1;
            }
            assert(entries@.take(entries.len() as int) == entries@);
        },
        _ => {
            assert(deps_view(out@) + cargo_section(*doc, section@, kind) =~= deps_view(out@));
        },
    }
}

impl CargoAdapter {
    /// Which ecosystem this adapter handles.
    pub fn ecosystem(&self) -> (r: Ecosystem)
        ensures
            r == Ecosystem::Cargo,
    {
        Ecosystem::Cargo
    }

    /// The adapter's name.
    pub fn name(&self) -> (r: &'static str)
        ensures
            r@ == "cargo"@,
    {
        "cargo"
    }

    /// Builds the graph of a parsed `Cargo.toml`: the root package and a
    /// placeholder version for every dependency, with an edge to it.
    pub fn parse_manifest(&self, doc: &TomlValue) -> (g: ManifestGraph)
        ensures
            g@ == graph_of(cargo_root(*doc), Ecosystem::Cargo, cargo_deps(*doc)),
    {
        let package = doc.get("package");
        let root_name = toml_str_or_exec(toml_get_in(package, "name"), "unknown");
        let root_version = toml_str_or_exec(toml_get_in(package, "version"), "0.0.0");
        let description = toml_str_exec(toml_get_in(package, "description"));
        let mut deps: Vec<DepEntry> = Vec::new();
        push_table_section(doc, "dependencies", DependencyKind::Normal, &mut deps);
        push_table_section(doc, "dev-dependencies", DependencyKind::Dev, &mut deps);
        push_table_section(doc, "build-dependencies", DependencyKind::Build, &mut deps);
        assert(deps_view(Seq::<DepEntry>::empty()) =~= Seq::<Dep>::empty());
        assert(deps_view(deps@) =~= cargo_deps(*doc));
        build_graph(root_name.as_str(), root_version.as_str(), description, Ecosystem::Cargo, &deps)
    }
}

impl CargoAdapter {
    /// Parses the text of a `Cargo.toml` and builds its graph; a text that is
    /// not valid TOML is refused with the parser's message.
    pub fn parse_manifest_text(&self, content: &str) -> (r: Result<ManifestGraph, ParseError>)
        ensures
            match parsed_toml(content@) {
                Some(d) => r matches Ok(g) && g@ == graph_of(cargo_root(d), Ecosystem::Cargo, cargo_deps(d)),
                None => r matches Err(e) && e.file@ == "Cargo.toml"@,
            },
    {
        match parse_toml(content) {
            Ok(doc) => Ok(self.parse_manifest(&doc)),
            Err(detail) => Err(ParseError::new("Cargo.toml", detail)),
        }
    }
}

} // verus!
