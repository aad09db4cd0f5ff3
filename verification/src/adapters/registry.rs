//! The set of known adapters: which of them apply to a project directory,
//! given the names of the files found in it, and lookup by name.
use vstd::prelude::*;
use crate::schema::Ecosystem;
use crate::text::str_eq;
use crate::adapters::cargo::CargoAdapter;
use crate::adapters::npm::NpmAdapter;
use crate::adapters::pypi::PypiAdapter;
use crate::adapters::composer::ComposerAdapter;

verus! {

broadcast use vstd::string::group_string_axioms;

/// The text of each string in `v`.
pub open spec fn str_views(v: Seq<String>) -> Seq<Seq<char>> {
    v.map_values(|s: String| s@)
}

/// Whether `s` is one of the strings of `v`.
pub fn contains_str(v: &Vec<String>, s: &str) -> (r: bool)
    ensures
        r == str_views(v@).contains(s@),
{
    let mut i: usize = 0;
    while i < v.len()
        invariant
            i <= v.len(),
            forall|j: int| 0 <= j < i ==> v@[j]@ != s@,
        decreases v.len() - i,
    {
        if str_eq(v[i].as_str(), s) {
            assert(str_views(v@)[i as int] == s@);
            return true;
        }
        i = i + 1;
    }
    proof {
        if str_views(v@).contains(s@) {
            let k = choose|k: int| 0 <= k < str_views(v@).len() && str_views(v@)[k] == s@;
            assert(v@[k]@ == s@);
        }
    }
    false
}

/// A copy of a list of strings.
pub fn copy_strings(v: &Vec<String>) -> (r: Vec<String>)
    ensures
        str_views(r@) == str_views(v@),
{
    let mut r: Vec<String> = Vec::new();
    let mut i: usize = 0;
    while i < v.len()
        invariant
            i <= v.len(),
            r@.len() == i,
            forall|j: int| 0 <= j < i ==> r@[j]@ == v@[j]@,
        decreases v.len() - i,
    {
        r.push(v[i].clone());
        i = i + 1;
    }
    assert(str_views(r@) =~= str_views(v@));
    r
}

/// What the registry knows of an adapter: its ecosystem, its name and the
/// manifest files whose presence in a directory makes it apply there.
pub struct AdapterInfo {
    pub ecosystem: Ecosystem,
    pub name: String,
    pub manifests: Vec<String>,
}

pub struct AdapterInfoView {
    pub ecosystem: Ecosystem,
    pub name: Seq<char>,
    pub manifests: Seq<Seq<char>>,
}

impl View for AdapterInfo {
    type V = AdapterInfoView;

    open spec fn view(&self) -> AdapterInfoView {
        AdapterInfoView { ecosystem: self.ecosystem, name: self.name@, manifests: str_views(self.manifests@) }
    }
}

/// The views of a list of adapters.
pub open spec fn info_views(v: Seq<AdapterInfo>) -> Seq<AdapterInfoView> {
    v.map_values(|a: AdapterInfo| a@)
}

/// Whether an adapter applies to a directory holding the files `present`:
/// one of its manifest files is there.
pub open spec fn applies(a: AdapterInfoView, present: Seq<Seq<char>>) -> bool {
    exists|i: int| 0 <= i < a.manifests.len() && present.contains(#[trigger] a.manifests[i])
}

/// The adapters of `adapters` that apply to `present`, in registration order.
pub open spec fn detected(adapters: Seq<AdapterInfoView>, present: Seq<Seq<char>>) -> Seq<AdapterInfoView>
    decreases adapters.len(),
{
    if adapters.len() == 0 {
        Seq::empty()
    } else {
        let rest = detected(adapters.drop_last(), present);
        if applies(adapters.last(), present) {
            rest.push(adapters.last())
        } else {
            rest
        }
    }
}

/// The index of the first adapter named `name`, or the length if none is.
pub open spec fn first_named(adapters: Seq<AdapterInfoView>, name: Seq<char>) -> int
    decreases adapters.len(),
{
    if adapters.len() == 0 {
        0
    } else if adapters[0].name == name {
        0
    } else {
        1 + first_named(adapters.drop_first(), name)
    }
}

/// The adapter named `name`: the first one registered under that name.
pub open spec fn named(adapters: Seq<AdapterInfoView>, name: Seq<char>) -> Option<AdapterInfoView> {
    let i = first_named(adapters, name);
    if i < adapters.len() {
        Some(adapters[i])
    } else {
        None
    }
}

pub open spec fn cargo_info() -> AdapterInfoView {
    AdapterInfoView { ecosystem: Ecosystem::Cargo, name: "cargo"@, manifests: seq!["Cargo.toml"@] }
}

pub open spec fn npm_info() -> AdapterInfoView {
    AdapterInfoView { ecosystem: Ecosystem::Npm, name: "npm"@, manifests: seq!["package.json"@] }
}

pub open spec fn pypi_info() -> AdapterInfoView {
    AdapterInfoView {
        ecosystem: Ecosystem::PyPI,
        name: "pypi"@,
        manifests: seq!["pyproject.toml"@, "requirements.txt"@],
    }
}

pub open spec fn composer_info() -> AdapterInfoView {
    AdapterInfoView { ecosystem: Ecosystem::Composer, name: "composer"@, manifests: seq!["composer.json"@] }
}

/// The built-in adapters, in the order in which they are tried.
pub open spec fn default_adapters() -> Seq<AdapterInfoView> {
    seq![cargo_info(), npm_info(), pypi_info(), composer_info()]
}

proof fn lemma_first_named_bounds(adapters: Seq<AdapterInfoView>, name: Seq<char>)
    ensures
        0 <= first_named(adapters, name) <= adapters.len(),
        first_named(adapters, name) < adapters.len() ==> adapters[first_named(adapters, name)].name == name,
        forall|j: int| 0 <= j < first_named(adapters, name) ==> adapters[j].name != name,
    decreases adapters.len(),
{
    if adapters.len() > 0 && adapters[0].name != name {
        let rest = adapters.drop_first();
        lemma_first_named_bounds(rest, name);
        assert forall|j: int| 0 <= j < first_named(adapters, name) implies adapters[j].name != name by {
            if j > 0 {
                assert(adapters[j] == rest[j - 1]);
            }
        }
    }
}

/// `first_named` is the first index whose name matches.
proof fn lemma_first_named_is(adapters: Seq<AdapterInfoView>, name: Seq<char>, i: int)
    requires
        0 <= i <= adapters.len(),
        i < adapters.len() ==> adapters[i].name == name,
        forall|j: int| 0 <= j < i ==> adapters[j].name != name,
    ensures
        first_named(adapters, name) == i,
{
    lemma_first_named_bounds(adapters, name);
    let k = first_named(adapters, name);
    if k < i {
        assert(adapters[k].name == name);
    } else if i < k {
        assert(adapters[i].name != name);
    }
}

impl AdapterInfo {
    /// Builds the description of an adapter.
    pub fn new(ecosystem: Ecosystem, name: &str, manifests: Vec<String>) -> (r: AdapterInfo)
        ensures
            r@ == (AdapterInfoView { ecosystem, name: name@, manifests: str_views(manifests@) }),
    {
        AdapterInfo { ecosystem, name: name.to_string(), manifests }
    }

    /// Whether the adapter applies to a directory holding the files `present`.
    pub fn detect(&self, present: &Vec<String>) -> (r: bool)
        ensures
            r == applies(self@, str_views(present@)),
    {
        let mut i: usize = 0;
        while i < self.manifests.len()
            invariant
                i <= self.manifests.len(),
                forall|j: int| 0 <= j < i ==> !str_views(present@).contains(#[trigger] self@.manifests[j]),
            decreases self.manifests.len() - i,
        {
            if contains_str(present, self.manifests[i].as_str()) {
                assert(self@.manifests[i as int] == self.manifests@[i as int]@);
                return true;
            }
            i = i + 1;
        }
        false
    }

    /// A copy of this description.
    pub fn duplicate(&self) -> (r: AdapterInfo)
        ensures
            r@ == self@,
    {
        AdapterInfo { ecosystem: self.ecosystem, name: self.name.clone(), manifests: copy_strings(&self.manifests) }
    }
}

fn one_manifest(file: &str) -> (r: Vec<String>)
    ensures
        str_views(r@) == seq![file@],
{
    let mut v: Vec<String> = Vec::new();
    v.push(file.to_string());
    assert(str_views(v@) =~= seq![file@]);
    v
}

impl CargoAdapter {
    /// The registry entry of this adapter.
    pub fn info(&self) -> (r: AdapterInfo)
        ensures
            r@ == cargo_info(),
    {
        AdapterInfo::new(self.ecosystem(), self.name(), one_manifest("Cargo.toml"))
    }

    /// Whether `Cargo.toml` is among the files `present`.
    pub fn detect(&self, present: &Vec<String>) -> (r: bool)
        ensures
            r == applies(cargo_info(), str_views(present@)),
    {
        self.info().detect(present)
    }
}

impl NpmAdapter {
    /// The registry entry of this adapter.
    pub fn info(&self) -> (r: AdapterInfo)
        ensures
            r@ == npm_info(),
    {
        AdapterInfo::new(self.ecosystem(), self.name(), one_manifest("package.json"))
    }

    /// Whether `package.json` is among the files `present`.
    pub fn detect(&self, present: &Vec<String>) -> (r: bool)
        ensures
            r == applies(npm_info(), str_views(present@)),
    {
        self.info().detect(present)
    }
}

impl PypiAdapter {
    /// The registry entry of this adapter.
    pub fn info(&self) -> (r: AdapterInfo)
        ensures
            r@ == pypi_info(),
    {
        let mut files: Vec<String> = Vec::new();
        files.push("pyproject.toml".to_string());
        files.push("requirements.txt".to_string());
        assert(str_views(files@) =~= seq!["pyproject.toml"@, "requirements.txt"@]);
        AdapterInfo::new(self.ecosystem(), self.name(), files)
    }

    /// Whether `pyproject.toml` or `requirements.txt` is among the files `present`.
    pub fn detect(&self, present: &Vec<String>) -> (r: bool)
        ensures
            r == applies(pypi_info(), str_views(present@)),
    {
        self.info().detect(present)
    }
}

impl ComposerAdapter {
    /// The registry entry of this adapter.
    pub fn info(&self) -> (r: AdapterInfo)
        ensures
            r@ == composer_info(),
    {
        AdapterInfo::new(self.ecosystem(), self.name(), one_manifest("composer.json"))
    }

    /// Whether `composer.json` is among the files `present`.
    pub fn detect(&self, present: &Vec<String>) -> (r: bool)
        ensures
            r == applies(composer_info(), str_views(present@)),
    {
        self.info().detect(present)
    }
}

/// Holds all registered adapters, in registration order.
pub struct AdapterRegistry {
    adapters: Vec<AdapterInfo>,
}

impl View for AdapterRegistry {
    type V = Seq<AdapterInfoView>;

    closed spec fn view(&self) -> Seq<AdapterInfoView> {
        info_views(self.adapters@)
    }
}

impl AdapterRegistry {
    /// A registry pre-loaded with the built-in adapters: cargo, npm, pypi
    /// and composer, in that order.
    pub fn with_defaults() -> (r: AdapterRegistry)
        ensures
            r@ == default_adapters(),
    {
        let mut adapters: Vec<AdapterInfo> = Vec::new();
        adapters.push(CargoAdapter.info());
        adapters.push(NpmAdapter.info());
        adapters.push(PypiAdapter.info());
        adapters.push(ComposerAdapter.info());
        let r = AdapterRegistry { adapters };
        assert(r@ =~= default_adapters());
        r
    }

    /// The registered adapters, in registration order.
    pub fn adapters(&self) -> (r: &Vec<AdapterInfo>)
        ensures
            info_views(r@) == self@,
    {
        &self.adapters
    }

    /// Registers another adapter after those already there.
    pub fn register(&mut self, adapter: AdapterInfo)
        ensures
            final(self)@ == old(self)@.push(adapter@),
    {
        self.adapters.push(adapter);
        assert(info_views(self.adapters@) =~= info_views(old(self).adapters@).push(adapter@));
    }

    /// The adapters that apply to a directory holding the files `present`,
    /// in registration order. A monorepo may match more than one.
    pub fn detect(&self, present: &Vec<String>) -> (r: Vec<AdapterInfo>)
        ensures
            info_views(r@) == detected(self@, str_views(present@)),
    {
        let ghost all = self@;
        let mut r: Vec<AdapterInfo> = Vec::new();
        let mut i: usize = 0;
        while i < self.adapters.len()
            invariant
                i <= self.adapters.len(),
                all == info_views(self.adapters@),
                info_views(r@) == detected(all.take(i as int), str_views(present@)),
            decreases self.adapters.len() - i,
        {
            let ghost before = r@;
            assert(all.take(i as int + 1).drop_last() =~= all.take(i as int));
            assert(all.take(i as int + 1).last() == self.adapters@[i as int]@);
            if self.adapters[i].detect(present) {
                r.push(self.adapters[i].duplicate());
                assert(info_views(r@) =~= info_views(before).push(self.adapters@[i as int]@));
            }
            i = i + 1;
        }
        assert(all.take(all.len() as int) =~= all);
        r
    }

    /// The adapter registered under `name`, if any (the first one, if
    /// several share the name).
    pub fn get(&self, name: &str) -> (r: Option<AdapterInfo>)
        ensures
            match r {
                Some(a) => named(self@, name@) == Some(a@),
                None => named(self@, name@) is None,
            },
    {
        let ghost all = self@;
        let mut i: usize = 0;
        while i < self.adapters.len()
            invariant
                i <= self.adapters.len(),
                all == info_views(self.adapters@),
                forall|j: int| 0 <= j < i ==> all[j].name != name@,
            decreases self.adapters.len() - i,
        {
            if str_eq(self.adapters[i].name.as_str(), name) {
                proof { lemma_first_named_is(all, name@, i as int); }
                return Some(self.adapters[i].duplicate());
            }
            i = i + 1;
        }
        proof { lemma_first_named_is(all, name@, all.len() as int); }
        None
    }
}

// ── Laws ────────────────────────────────────────────────────────────────────

/// Registering an adapter makes `get` find it by its name, unless an adapter
/// registered before has that name (which `get` goes on finding); every other
/// name finds what it found before.
pub proof fn lemma_register_then_get(adapters: Seq<AdapterInfoView>, a: AdapterInfoView, k: Seq<char>)
    ensures
        named(adapters.push(a), k) == if k == a.name && named(adapters, k) is None {
            Some(a)
        } else {
            named(adapters, k)
        },
{
    let p = adapters.push(a);
    lemma_first_named_bounds(adapters, k);
    let i = first_named(adapters, k);
    assert forall|j: int| 0 <= j < adapters.len() implies p[j] == adapters[j] by {}
    if i < adapters.len() {
        lemma_first_named_is(p, k, i);
    } else if k == a.name {
        lemma_first_named_is(p, k, adapters.len() as int);
    } else {
        lemma_first_named_is(p, k, p.len() as int);
    }
}

/// Detection keeps exactly the registered adapters that apply, in
/// registration order: every detected adapter applies and is registered,
/// and every registered adapter that applies is detected.
pub proof fn lemma_detected_exact(adapters: Seq<AdapterInfoView>, present: Seq<Seq<char>>)
    ensures
        detected(adapters, present).len() <= adapters.len(),
        forall|i: int|
            0 <= i < detected(adapters, present).len() ==> applies(#[trigger] detected(adapters, present)[i], present)
                && adapters.contains(detected(adapters, present)[i]),
        forall|i: int|
            0 <= i < adapters.len() && applies(#[trigger] adapters[i], present) ==> detected(adapters, present).contains(
                adapters[i],
            ),
    decreases adapters.len(),
{
    if adapters.len() > 0 {
        let prev = adapters.drop_last();
        lemma_detected_exact(prev, present);
        let d = detected(adapters, present);
        let dp = detected(prev, present);
        assert forall|i: int| 0 <= i < d.len() implies applies(#[trigger] d[i], present) && adapters.contains(d[i]) by {
            if i < dp.len() {
                assert(d[i] == dp[i]);
                let w = choose|w: int| 0 <= w < prev.len() && prev[w] == dp[i];
                assert(adapters[w] == prev[w]);
            } else {
                assert(d[i] == adapters.last());
                assert(adapters[adapters.len() - 1] == adapters.last());
            }
        }
        assert forall|i: int| 0 <= i < adapters.len() && applies(#[trigger] adapters[i], present) implies d.contains(
            adapters[i],
        ) by {
            if i < adapters.len() - 1 {
                assert(prev[i] == adapters[i]);
                let w = choose|w: int| 0 <= w < dp.len() && dp[w] == prev[i];
                assert(d[w] == dp[w]);
            } else {
                assert(d[d.len() - 1] == adapters.last());
            }
        }
    }
}

} // verus!
