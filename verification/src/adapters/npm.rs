//! npm (`package.json`).
use vstd::prelude::*;
use crate::manifest::{ManifestGraph, RootSpec, Dep, DepEntry, deps_view, graph_of, build_graph, lemma_deps_view_push};
use crate::schema::{DependencyKind, Ecosystem, opt_view};

verus! {

broadcast use vstd::string::group_string_axioms;

/// The adapter for JavaScript projects managed by npm.
pub struct NpmAdapter;

/// The fields of a `package.json` that the graph is built from. Each
/// dependency map is a list of `name → constraint` pairs.
#[derive(Debug)]
pub struct PackageJson {
    pub name: Option<String>,
    pub version: Option<String>,
    pub description: Option<String>,
    pub dependencies: Option<Vec<(String, String)>>,
    pub dev_dependencies: Option<Vec<(String, String)>>,
    pub peer_dependencies: Option<Vec<(String, String)>>,
    pub optional_dependencies: Option<Vec<(String, String)>>,
}

/// The dependencies of one optional `name → constraint` map, in order.
pub open spec fn map_deps(m: Option<Vec<(String, String)>>, kind: DependencyKind) -> Seq<Dep> {
    match m {
        Some(v) => v@.map_values(|p: (String, String)| Dep { name: p.0@, req: p.1@, kind }),
        None => seq![],
    }
}

/// The dependencies of a `package.json`: `dependencies` (normal),
/// `devDependencies` (dev), `peerDependencies` (peer), then
/// `optionalDependencies` (optional).
pub open spec fn npm_deps(pkg: PackageJson) -> Seq<Dep> {
    map_deps(pkg.dependencies, DependencyKind::Normal) + map_deps(pkg.dev_dependencies, DependencyKind::Dev)
        + map_deps(pkg.peer_dependencies, DependencyKind::Peer) + map_deps(
        pkg.optional_dependencies,
        DependencyKind::Optional,
    )
}

/// The root of a `package.json`: its name (else "unknown"), version (else
/// "0.0.0") and description.
pub open spec fn npm_root(pkg: PackageJson) -> RootSpec {
    RootSpec {
        name: match pkg.name {
            Some(n) => n@,
            None => "unknown"@,
        },
        semver: match pkg.version {
            Some(v) => v@,
            None => "0.0.0"@,
        },
        description: opt_view(pkg.description),
    }
}

fn push_map(m: Option<Vec<(String, String)>>, kind: DependencyKind, out: &mut Vec<DepEntry>)
    ensures
        deps_view(final(out)@) == deps_view(old(out)@) + map_deps(m, kind),
{
    match m {
        Some(v) => {
            let ghost base = deps_view(out@);
            let ghost all = map_deps(Some(v), kind);
            let mut i: usize = 0;
            assert(all.take(0) =~= Seq::<Dep>::empty());
            assert(base + all.take(0) =~= base);
            while i < v.len()
                invariant
                    i <= v.len(),
                    all == map_deps(Some(v), kind),
                    all.len() == v@.len(),
                    deps_view(out@) == base + all.take(i as int),
                decreases v.len() - i,
            {
                let d = DepEntry { name: v[i].0.clone(), req: v[i].1.clone(), kind };
                let ghost prev = out@;
                out.push(d);
                proof {
                    lemma_deps_view_push(prev, d);
                    assert(all.take(i + 1) == all.take(i as int).push(all[i as int]));
                    assert(base + all.take(i + 1) =~= (base + all.take(i as int)).push(d@));
                }
                i = i + 1;
            }
            assert(all.take(v.len() as int) == all);
        },
        None => {
            assert(deps_view(out@) + map_deps(None, kind) =~= deps_view(out@));
        },
    }
}

impl NpmAdapter {
    /// Which ecosystem this adapter handles.
    pub fn ecosystem(&self) -> (r: Ecosystem)
        ensures
            r == Ecosystem::Npm,
    {
        Ecosystem::Npm
    }

    /// The adapter's name.
    pub fn name(&self) -> (r: &'static str)
        ensures
            r@ == "npm"@,
    {
        "npm"
    }

    /// Builds the graph of a parsed `package.json`.
    pub fn parse_manifest(&self, pkg: PackageJson) -> (g: ManifestGraph)
        ensures
            g@ == graph_of(npm_root(pkg), Ecosystem::Npm, npm_deps(pkg)),
    {
        let ghost p = pkg;
        let root_name = match pkg.name {
            Some(n) => n,
            None => "unknown".to_string(),
        };
        let root_semver = match pkg.version {
            Some(v) => v,
            None => "0.0.0".to_string(),
        };
        let mut deps: Vec<DepEntry> = Vec::new();
        assert(deps_view(deps@) =~= Seq::<Dep>::empty());
        push_map(pkg.dependencies, DependencyKind::Normal, &mut deps);
        push_map(pkg.dev_dependencies, DependencyKind::Dev, &mut deps);
        push_map(pkg.peer_dependencies, DependencyKind::Peer, &mut deps);
        push_map(pkg.optional_dependencies, DependencyKind::Optional, &mut deps);
        assert(deps_view(deps@) =~= npm_deps(p));
        build_graph(root_name.as_str(), root_semver.as_str(), pkg.description, Ecosystem::Npm, &deps)
    }
}

} // verus!
