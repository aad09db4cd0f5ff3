//! Clients of the package registries (crates.io, npm, PyPI, Packagist), of
//! deps.dev and of OSV. None of them fetches anything yet: each answers as
//! a registry that knows no versions, dependencies or advisories.
use vstd::prelude::*;
use crate::schema::Ecosystem;

verus! {

broadcast use vstd::string::group_string_axioms;

/// The version reported for a package whose registry was not asked.
pub open spec fn unknown_version() -> Seq<char> {
    "0.0.0"@
}

/// The latest stable version that the registry of `ecosystem` reports for
/// `name`. No registry is asked yet, so every package reports
/// `unknown_version`.
pub closed spec fn registry_latest(ecosystem: Ecosystem, name: Seq<char>) -> Seq<char> {
    unknown_version()
}

/// All versions that the registry of `ecosystem` knows of `name`; none while
/// no registry is asked.
pub closed spec fn registry_versions(ecosystem: Ecosystem, name: Seq<char>) -> Seq<Seq<char>> {
    seq![]
}

/// The transitive dependencies (name, version) that deps.dev reports for a
/// package version; none while the API is not asked.
pub closed spec fn reported_dependencies(ecosystem: Seq<char>, name: Seq<char>, version: Seq<char>) -> Seq<
    (Seq<char>, Seq<char>),
> {
    seq![]
}

/// The vulnerabilities that deps.dev reports for a package version; none
/// while the API is not asked.
pub closed spec fn reported_vulnerabilities(ecosystem: Seq<char>, name: Seq<char>, version: Seq<char>) -> Seq<
    Seq<char>,
> {
    seq![]
}

/// Client of the package registries.
pub struct RegistryClient;

impl RegistryClient {
    pub fn new() -> RegistryClient {
        RegistryClient
    }

    /// The latest stable version of a package; "0.0.0" until the registry
    /// APIs are wired up.
    pub fn latest_version(&self, ecosystem: &Ecosystem, name: &str) -> (r: String)
        ensures
            r@ == registry_latest(*ecosystem, name@),
    {
        "0.0.0".to_string()
    }

    /// All known versions of a package; none until the registry APIs are
    /// wired up.
    pub fn all_versions(&self, ecosystem: &Ecosystem, name: &str) -> (r: Vec<String>)
        ensures
            r@.map_values(|v: String| v@) == registry_versions(*ecosystem, name@),
    {
        let r: Vec<String> = Vec::new();
        assert(r@.map_values(|v: String| v@) =~= registry_versions(*ecosystem, name@));
        r
    }
}

/// Client of the deps.dev API, for transitive dependencies and CVE data.
pub struct DepsDev;

impl DepsDev {
    pub fn new() -> DepsDev {
        DepsDev
    }

    /// The transitive dependencies (name, version) of a package version;
    /// none until the API is wired up.
    pub fn transitive_deps(&self, ecosystem: &str, name: &str, version: &str) -> (r: Vec<(String, String)>)
        ensures
            r@.map_values(|d: (String, String)| (d.0@, d.1@)) == reported_dependencies(ecosystem@, name@, version@),
    {
        let r: Vec<(String, String)> = Vec::new();
        assert(r@.map_values(|d: (String, String)| (d.0@, d.1@)) =~= reported_dependencies(
            ecosystem@,
            name@,
            version@,
        ));
        r
    }

    /// The known vulnerabilities of a package version; none until the API is
    /// wired up.
    pub fn vulnerabilities(&self, ecosystem: &str, name: &str, version: &str) -> (r: Vec<String>)
        ensures
            r@.map_values(|v: String| v@) == reported_vulnerabilities(ecosystem@, name@, version@),
    {
        let r: Vec<String> = Vec::new();
        assert(r@.map_values(|v: String| v@) =~= reported_vulnerabilities(ecosystem@, name@, version@));
        r
    }
}

/// Client of osv.dev.
pub struct OsvClient;

impl OsvClient {
    pub fn new() -> OsvClient {
        OsvClient
    }
}

} // verus!
