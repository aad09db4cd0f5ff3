//! Bookkeeping of package-manager binaries (uv, composer, ...): which ones
//! were found or installed for each tool, which one is active, and the
//! decisions taken while resolving a tool.
use vstd::prelude::*;
use crate::docmodel::{JsonValue, json_get, json_str, opt_ref};
use crate::formats::{parse_json, parsed_json};
use crate::text::{
    push_str, push_char, str_eq, str_starts_with, str_ends_with, chars_of, string_from, trim, trim_bounds, lines,
    lines_of, is_alphabetic_char, char_is_alphabetic, str_to_lowercase, lowercased, starts_with, ends_with,
    index_of, find_char_from, parse_usize, parsed_usize, decimal, decimal_string, trim_str,
};

verus! {

broadcast use vstd::string::group_string_axioms;

// ── Paths ───────────────────────────────────────────────────────────────────

/// The path that `Path::join` makes of `base` and `segment`.
pub uninterp spec fn joined_path(base: Seq<char>, segment: Seq<char>) -> Seq<char>;

/// Calls `Path::join`: `segment` appended to `base` as a path.
#[verifier::external_body]
pub fn path_join(base: &str, segment: &str) -> (r: String)
    ensures
        r@ == joined_path(base@, segment@),
{
    std::path::Path::new(base).join(segment).to_string_lossy().into_owned()
}

/// Whether `Path` compares `a` and `b` equal, that is component by component,
/// so that spellings such as `/a//b` and `/a/b/` both name `/a/b`.
pub uninterp spec fn same_path(a: Seq<char>, b: Seq<char>) -> bool;

/// Calls `PartialEq` of `Path`: whether the paths `a` and `b` have the same
/// components. `Path` is `Eq`, so equal strings compare equal.
#[verifier::external_body]
fn paths_equal(a: &str, b: &str) -> (r: bool)
    ensures
        r == same_path(a@, b@),
        a@ == b@ ==> r,
{
    std::path::Path::new(a) == std::path::Path::new(b)
}

/// Whether `a` and `b` name the same path: equal, or equal as `Path`s.
pub open spec fn path_matches(a: Seq<char>, b: Seq<char>) -> bool {
    a == b || same_path(a, b)
}

// ── Types ───────────────────────────────────────────────────────────────────

/// One binary of a tool.
#[derive(Debug)]
pub struct BinaryEntry {
    pub path: String,
    pub version: String,
    /// true = downloaded and managed by gpm
    pub managed: bool,
}

pub struct BinaryEntryView {
    pub path: Seq<char>,
    pub version: Seq<char>,
    pub managed: bool,
}

impl View for BinaryEntry {
    type V = BinaryEntryView;

    open spec fn view(&self) -> BinaryEntryView {
        BinaryEntryView { path: self.path@, version: self.version@, managed: self.managed }
    }
}

impl Clone for BinaryEntry {
    fn clone(&self) -> (r: Self)
        ensures
            r == *self,
    {
        BinaryEntry { path: self.path.clone(), version: self.version.clone(), managed: self.managed }
    }
}

pub open spec fn entries_view(v: Seq<BinaryEntry>) -> Seq<BinaryEntryView> {
    v.map_values(|e: BinaryEntry| e@)
}

/// The binaries known for one tool, and the one in use.
#[derive(Debug)]
pub struct ToolConfig {
    pub active: Option<String>,
    pub entries: Vec<BinaryEntry>,
}

pub struct ToolConfigView {
    pub active: Option<Seq<char>>,
    pub entries: Seq<BinaryEntryView>,
}

impl View for ToolConfig {
    type V = ToolConfigView;

    open spec fn view(&self) -> ToolConfigView {
        ToolConfigView {
            active: match self.active {
                Some(p) => Some(p@),
                None => None,
            },
            entries: entries_view(self.entries@),
        }
    }
}

impl ToolConfig {
    /// No active binary and no entries.
    pub fn new() -> (r: Self)
        ensures
            r@ == empty_config(),
    {
        let r = ToolConfig { active: None, entries: Vec::new() };
        assert(r@.entries =~= Seq::<BinaryEntryView>::empty());
        r
    }
}

pub open spec fn empty_config() -> ToolConfigView {
    ToolConfigView { active: None, entries: seq![] }
}

/// The configurations of all tools, keyed by tool name (each name once).
#[derive(Debug)]
pub struct ToolRegistry {
    pub tools: Vec<(String, ToolConfig)>,
}

pub open spec fn registry_view(t: Seq<(String, ToolConfig)>) -> Seq<(Seq<char>, ToolConfigView)> {
    t.map_values(|p: (String, ToolConfig)| (p.0@, p.1@))
}

/// Index of the tool named `k`, or the number of tools.
pub open spec fn tool_index(t: Seq<(Seq<char>, ToolConfigView)>, k: Seq<char>) -> int
    decreases t.len(),
{
    if t.len() == 0 {
        0
    } else if t[0].0 == k {
        0
    } else {
        1 + tool_index(t.drop_first(), k)
    }
}

/// The configuration of tool `k`, if registered.
pub open spec fn tool_config(t: Seq<(Seq<char>, ToolConfigView)>, k: Seq<char>) -> Option<ToolConfigView> {
    if tool_index(t, k) < t.len() {
        Some(t[tool_index(t, k)].1)
    } else {
        None
    }
}

/// No tool name occurs twice.
pub open spec fn distinct_tools(t: Seq<(Seq<char>, ToolConfigView)>) -> bool {
    forall|i: int, j: int| 0 <= i < j < t.len() ==> t[i].0 != t[j].0
}

impl ToolRegistry {
    pub open spec fn tools_view(&self) -> Seq<(Seq<char>, ToolConfigView)> {
        registry_view(self.tools@)
    }

    /// The registry is well formed: no tool name occurs twice.
    pub open spec fn wf(&self) -> bool {
        distinct_tools(self.tools_view())
    }

    /// No tools.
    pub fn new() -> (r: Self)
        ensures
            r.tools_view().len() == 0,
            r.wf(),
    {
        let r = ToolRegistry { tools: Vec::new() };
        assert(r.tools_view() =~= Seq::<(Seq<char>, ToolConfigView)>::empty());
        r
    }
}

proof fn lemma_tool_index(t: Seq<(Seq<char>, ToolConfigView)>, k: Seq<char>)
    ensures
        0 <= tool_index(t, k) <= t.len(),
        tool_index(t, k) < t.len() ==> t[tool_index(t, k)].0 == k,
        forall|j: int| 0 <= j < tool_index(t, k) ==> t[j].0 != k,
    decreases t.len(),
{
    if t.len() > 0 && t[0].0 != k {
        lemma_tool_index(t.drop_first(), k);
        assert forall|j: int| 0 <= j < tool_index(t, k) implies t[j].0 != k by {
            if j > 0 {
                assert(t[j] == t.drop_first()[j - 1]);
            }
        }
    }
}

proof fn lemma_tool_index_unique(t: Seq<(Seq<char>, ToolConfigView)>, k: Seq<char>, i: int)
    requires
        0 <= i <= t.len(),
        i < t.len() ==> t[i].0 == k,
        forall|j: int| 0 <= j < i ==> t[j].0 != k,
    ensures
        tool_index(t, k) == i,
    decreases i,
{
    if i > 0 {
        assert(t[0].0 != k);
        assert forall|j: int| 0 <= j < i - 1 implies t.drop_first()[j].0 != k by {
            assert(t.drop_first()[j] == t[j + 1]);
        }
        if i < t.len() {
            assert(t.drop_first()[i - 1] == t[i]);
        }
        lemma_tool_index_unique(t.drop_first(), k, i - 1);
    }
}

/// With distinct names, a tool's configuration is the one at its index,
/// whatever other entries hold.
proof fn lemma_tool_config_update(t: Seq<(Seq<char>, ToolConfigView)>, i: int, c: ToolConfigView, k: Seq<char>)
    requires
        distinct_tools(t),
        0 <= i < t.len(),
    ensures
        tool_config(t.update(i, (t[i].0, c)), k) == if k == t[i].0 {
            Some(c)
        } else {
            tool_config(t, k)
        },
        distinct_tools(t.update(i, (t[i].0, c))),
{
    let u = t.update(i, (t[i].0, c));
    lemma_tool_index(t, k);
    lemma_tool_index(u, k);
    assert forall|j: int| 0 <= j < t.len() implies u[j].0 == t[j].0 by {}
    let ti = tool_index(t, k);
    if ti < t.len() {
        lemma_tool_index_unique(u, k, ti);
    } else {
        lemma_tool_index_unique(u, k, t.len() as int);
    }
}

/// Index of the tool named `tool` in the registry, or its number of tools.
fn find_tool(tools: &Vec<(String, ToolConfig)>, tool: &str) -> (i: usize)
    ensures
        i == tool_index(registry_view(tools@), tool@),
{
    let ghost tv = registry_view(tools@);
    let mut i: usize = 0;
    while i < tools.len() && !str_eq(tools[i].0.as_str(), tool)
        invariant
            i <= tools.len(),
            tv == registry_view(tools@),
            forall|j: int| 0 <= j < i ==> tv[j].0 != tool@,
        decreases tools.len() - i,
    {
        i = i + 1;
    }
    proof {
        lemma_tool_index_unique(tv, tool@, i as int);
    }
    i
}

// ── Registry updates ────────────────────────────────────────────────────────

/// Whether some entry has the path `p`, compared as paths.
pub open spec fn has_path(entries: Seq<BinaryEntryView>, p: Seq<char>) -> bool {
    exists|j: int| 0 <= j < entries.len() && #[trigger] path_matches(entries[j].path, p)
}

/// `entries` with every found binary appended whose path is not yet known.
pub open spec fn merge_found(entries: Seq<BinaryEntryView>, found: Seq<BinaryEntryView>) -> Seq<BinaryEntryView>
    decreases found.len(),
{
    if found.len() == 0 {
        entries
    } else {
        let prev = merge_found(entries, found.drop_last());
        if has_path(prev, found.last().path) {
            prev
        } else {
            prev.push(found.last())
        }
    }
}

/// A tool's configuration after the user (or the only candidate) chose
/// `path` among the `found` binaries.
pub open spec fn chosen_config(cfg: Option<ToolConfigView>, path: Seq<char>, found: Seq<BinaryEntryView>) -> ToolConfigView {
    let base = match cfg {
        Some(c) => c,
        None => empty_config(),
    };
    ToolConfigView { active: Some(path), entries: merge_found(base.entries, found) }
}

/// A tool's configuration after installing `entry`, which becomes active.
pub open spec fn installed_config(cfg: Option<ToolConfigView>, entry: BinaryEntryView) -> ToolConfigView {
    let base = match cfg {
        Some(c) => c,
        None => empty_config(),
    };
    ToolConfigView { active: Some(entry.path), entries: base.entries.push(entry) }
}

/// A tool's configuration with no active binary.
pub open spec fn inactive_config(c: ToolConfigView) -> ToolConfigView {
    ToolConfigView { active: None, entries: c.entries }
}

/// Whether an entry list holds a binary with path `p`.
pub fn entries_have_path(entries: &Vec<BinaryEntry>, p: &str) -> (r: bool)
    ensures
        r == has_path(entries_view(entries@), p@),
{
    let ghost ev = entries_view(entries@);
    let mut i: usize = 0;
    while i < entries.len()
        invariant
            i <= entries.len(),
            ev == entries_view(entries@),
            forall|j: int| 0 <= j < i ==> !#[trigger] path_matches(ev[j].path, p@),
        decreases entries.len() - i,
    {
        if paths_equal(entries[i].path.as_str(), p) {
            assert(path_matches(ev[i as int].path, p@));
            return true;
        }
        i = i + 1;
    }
    false
}

/// Registers `tool` with an empty configuration unless it is registered;
/// returns its index.
fn ensure_tool(reg: &mut ToolRegistry, tool: &str) -> (i: usize)
    requires
        old(reg).wf(),
    ensures
        final(reg).wf(),
        i < final(reg).tools_view().len(),
        final(reg).tools_view()[i as int].0 == tool@,
        final(reg).tools_view() == if tool_config(old(reg).tools_view(), tool@) is Some {
            old(reg).tools_view()
        } else {
            old(reg).tools_view().push((tool@, empty_config()))
        },
{
    let i = find_tool(&reg.tools, tool);
    proof {
        lemma_tool_index(reg.tools_view(), tool@);
    }
    if i == reg.tools.len() {
        let ghost before = reg.tools_view();
        reg.tools.push((tool.to_string(), ToolConfig::new()));
        assert(reg.tools_view() =~= before.push((tool@, empty_config())));
    }
    i
}

/// Replaces the configuration at index `i`.
fn set_config(reg: &mut ToolRegistry, i: usize, c: ToolConfig)
    requires
        old(reg).wf(),
        i < old(reg).tools@.len(),
    ensures
        final(reg).wf(),
        final(reg).tools_view() == old(reg).tools_view().update(i as int, (old(reg).tools_view()[i as int].0, c@)),
{
    let ghost before = reg.tools_view();
    let (k, _) = reg.tools.remove(i);
    reg.tools.insert(i, (k, c));
    assert(reg.tools_view() =~= before.update(i as int, (before[i as int].0, c@)));
    proof {
        lemma_tool_config_update(before, i as int, c@, Seq::empty());
    }
}

/// Takes the configuration at index `i` out, leaving an empty one.
fn take_config(reg: &mut ToolRegistry, i: usize) -> (c: ToolConfig)
    requires
        old(reg).wf(),
        i < old(reg).tools@.len(),
    ensures
        c@ == old(reg).tools_view()[i as int].1,
        final(reg).tools_view() == old(reg).tools_view().update(
            i as int,
            (old(reg).tools_view()[i as int].0, empty_config()),
        ),
        final(reg).tools@.len() == old(reg).tools@.len(),
        final(reg).wf(),
        forall|j: int| 0 <= j < old(reg).tools@.len() ==> #[trigger] final(reg).tools_view()[j].0 == old(
            reg,
        ).tools_view()[j].0,
{
    let ghost before = reg.tools_view();
    let (k, c) = reg.tools.remove(i);
    reg.tools.insert(i, (k, ToolConfig::new()));
    assert(reg.tools_view() =~= before.update(i as int, (before[i as int].0, empty_config())));
    proof {
        lemma_tool_config_update(before, i as int, empty_config(), Seq::empty());
    }
    c
}

/// Appends the found binaries whose path is not yet known.
fn merge_entries(entries: &mut Vec<BinaryEntry>, found: &Vec<BinaryEntry>)
    ensures
        entries_view(final(entries)@) == merge_found(entries_view(old(entries)@), entries_view(found@)),
{
    let ghost e0 = entries_view(entries@);
    let ghost fv = entries_view(found@);
    let mut i: usize = 0;
    assert(fv.take(0) =~= Seq::<BinaryEntryView>::empty());
    while i < found.len()
        invariant
            i <= found.len(),
            fv == entries_view(found@),
            entries_view(entries@) == merge_found(e0, fv.take(i as int)),
        decreases found.len() - i,
    {
        assert(fv.take(i + 1).drop_last() == fv.take(i as int));
        assert(fv.take(i + 1).last() == found@[i as int]@);
        if !entries_have_path(entries, found[i].path.as_str()) {
            let ghost before = entries_view(entries@);
            entries.push(found[i].clone());
            assert(entries_view(entries@) =~= before.push(found@[i as int]@));
        }
        i = i + 1;
    }
    assert(fv.take(found.len() as int) == fv);
}

/// Forgets the active binary of `tool` in a registry.
fn registry_forget_active(reg: &mut ToolRegistry, tool: &str)
    requires
        old(reg).wf(),
    ensures
        final(reg).wf(),
        forall|k: Seq<char>| #![trigger tool_config(final(reg).tools_view(), k)]
            tool_config(final(reg).tools_view(), k) == if k == tool@ {
                match tool_config(old(reg).tools_view(), k) {
                    Some(c) => Some(inactive_config(c)),
                    None => None,
                }
            } else {
                tool_config(old(reg).tools_view(), k)
            },
{
    let ghost t0 = reg.tools_view();
    let i = find_tool(&reg.tools, tool);
    proof {
        lemma_tool_index(t0, tool@);
    }
    if i < reg.tools.len() {
        let mut c = take_config(reg, i);
        c.active = None;
        set_config(reg, i, c);
        assert(reg.tools_view() =~= t0.update(i as int, (t0[i as int].0, inactive_config(t0[i as int].1))));
        proof {
            assert forall|k: Seq<char>| #![trigger tool_config(reg.tools_view(), k)] tool_config(reg.tools_view(), k) == if k
                == tool@ {
                match tool_config(t0, k) {
                    Some(c) => Some(inactive_config(c)),
                    None => None,
                }
            } else {
                tool_config(t0, k)
            } by {
                lemma_tool_config_update(t0, i as int, inactive_config(t0[i as int].1), k);
            }
        }
    } else {
        proof {
            assert forall|k: Seq<char>| #![trigger tool_config(reg.tools_view(), k)] tool_config(reg.tools_view(), k) == if k
                == tool@ {
                match tool_config(t0, k) {
                    Some(c) => Some(inactive_config(c)),
                    None => None,
                }
            } else {
                tool_config(t0, k)
            } by {}
        }
    }
}

/// Records in a registry that `path` was chosen among the `found` binaries of `tool`.
fn registry_record_choice(reg: &mut ToolRegistry, tool: &str, path: &str, found: &Vec<BinaryEntry>)
    requires
        old(reg).wf(),
    ensures
        final(reg).wf(),
        forall|k: Seq<char>| #![trigger tool_config(final(reg).tools_view(), k)]
            tool_config(final(reg).tools_view(), k) == if k == tool@ {
                Some(chosen_config(tool_config(old(reg).tools_view(), k), path@, entries_view(found@)))
            } else {
                tool_config(old(reg).tools_view(), k)
            },
{
    let ghost t0 = reg.tools_view();
    let i = ensure_tool(reg, tool);
    let ghost t1 = reg.tools_view();
    let mut c = take_config(reg, i);
    c.active = Some(path.to_string());
    merge_entries(&mut c.entries, found);
    set_config(reg, i, c);
    assert(reg.tools_view() =~= t1.update(i as int, (t1[i as int].0, c@)));
    proof {
        lemma_tool_index(t1, tool@);
        lemma_tool_index(t0, tool@);
        assert forall|j: int| 0 <= j < i implies t1[j].0 != tool@ by {
            assert(t1[j].0 != t1[i as int].0);
        }
        lemma_tool_index_unique(t1, tool@, i as int);
        assert forall|k: Seq<char>| #![trigger tool_config(reg.tools_view(), k)] tool_config(reg.tools_view(), k) == if k
            == tool@ {
            Some(chosen_config(tool_config(t0, k), path@, entries_view(found@)))
        } else {
            tool_config(t0, k)
        } by {
            lemma_tool_config_update(t1, i as int, c@, k);
            if tool_config(t0, tool@) is None && k != tool@ {
                lemma_tool_index(t0, k);
                lemma_tool_index(t1, k);
                if tool_index(t0, k) < t0.len() {
                    lemma_tool_index_unique(t1, k, tool_index(t0, k));
                } else {
                    assert(t1[t0.len() as int].0 == tool@);
                    lemma_tool_index_unique(t1, k, t1.len() as int);
                }
            }
        }
    }
}

/// Records in a registry that `entry` was installed for `tool`.
fn registry_record_installed(reg: &mut ToolRegistry, tool: &str, entry: BinaryEntry)
    requires
        old(reg).wf(),
    ensures
        final(reg).wf(),
        forall|k: Seq<char>| #![trigger tool_config(final(reg).tools_view(), k)]
            tool_config(final(reg).tools_view(), k) == if k == tool@ {
                Some(installed_config(tool_config(old(reg).tools_view(), k), entry@))
            } else {
                tool_config(old(reg).tools_view(), k)
            },
{
    let ghost t0 = reg.tools_view();
    let ghost ev = entry@;
    let i = ensure_tool(reg, tool);
    let ghost t1 = reg.tools_view();
    let mut c = take_config(reg, i);
    c.active = Some(entry.path.clone());
    let ghost before = entries_view(c.entries@);
    c.entries.push(entry);
    assert(entries_view(c.entries@) =~= before.push(ev));
    set_config(reg, i, c);
    assert(reg.tools_view() =~= t1.update(i as int, (t1[i as int].0, c@)));
    proof {
        lemma_tool_index(t1, tool@);
        lemma_tool_index(t0, tool@);
        assert forall|j: int| 0 <= j < i implies t1[j].0 != tool@ by {
            assert(t1[j].0 != t1[i as int].0);
        }
        lemma_tool_index_unique(t1, tool@, i as int);
        assert forall|k: Seq<char>| #![trigger tool_config(reg.tools_view(), k)] tool_config(reg.tools_view(), k) == if k
            == tool@ {
            Some(installed_config(tool_config(t0, k), ev))
        } else {
            tool_config(t0, k)
        } by {
            lemma_tool_config_update(t1, i as int, c@, k);
            if tool_config(t0, tool@) is None && k != tool@ {
                lemma_tool_index(t0, k);
                lemma_tool_index(t1, k);
                if tool_index(t0, k) < t0.len() {
                    lemma_tool_index_unique(t1, k, tool_index(t0, k));
                } else {
                    assert(t1[t0.len() as int].0 == tool@);
                    lemma_tool_index_unique(t1, k, t1.len() as int);
                }
            }
        }
    }
}

// ── The manager ─────────────────────────────────────────────────────────────

/// The toolchain registry of one gpm home directory.
pub struct ToolchainManager {
    home: String,
    registry: ToolRegistry,
}

impl ToolchainManager {
    /// The manager of the gpm home `home`, with the registry read from it
    /// (an empty registry when there is none).
    pub fn from_parts(home: String, registry: Option<ToolRegistry>) -> (r: Self)
        requires
            registry matches Some(reg) ==> reg.wf(),
        ensures
            r.home_spec() == home@,
            r.tools() == match registry {
                Some(reg) => reg.tools_view(),
                None => Seq::empty(),
            },
    {
        let registry = match registry {
            Some(reg) => reg,
            None => ToolRegistry::new(),
        };
        ToolchainManager { home, registry }
    }

    pub closed spec fn home_spec(&self) -> Seq<char> {
        self.home@
    }

    /// The tools and their configurations.
    pub closed spec fn tools(&self) -> Seq<(Seq<char>, ToolConfigView)> {
        self.registry.tools_view()
    }

    /// No tool name occurs twice in the registry.
    #[verifier::type_invariant]
    closed spec fn wf(&self) -> bool {
        self.registry.wf()
    }

    /// The gpm home directory.
    pub fn home(&self) -> (r: &String)
        ensures
            r@ == self.home_spec(),
    {
        &self.home
    }

    /// The registry, to be saved.
    pub fn registry(&self) -> (r: &ToolRegistry)
        ensures
            r.tools_view() == self.tools(),
            r.wf(),
    {
        proof {
            use_type_invariant(self);
        }
        &self.registry
    }

    /// The directory of the binaries gpm manages.
    pub fn bin_dir(&self) -> (r: String)
        ensures
            r@ == joined_path(self.home_spec(), "bin"@),
    {
        path_join(self.home.as_str(), "bin")
    }

    /// The active binary remembered for `tool`, if any.
    pub fn remembered_active(&self, tool: &str) -> (r: Option<String>)
        ensures
            match r {
                Some(p) => tool_config(self.tools(), tool@) matches Some(c) && c.active == Some(p@),
                None => match tool_config(self.tools(), tool@) {
                    Some(c) => c.active is None,
                    None => true,
                },
            },
    {
        proof {
            use_type_invariant(self);
        }
        let i = find_tool(&self.registry.tools, tool);
        proof {
            lemma_tool_index(self.tools(), tool@);
        }
        if i < self.registry.tools.len() {
            match &self.registry.tools[i].1.active {
                Some(p) => Some(p.clone()),
                None => None,
            }
        } else {
            None
        }
    }

    /// Forgets the active binary of `tool` (it no longer exists on disk).
    pub fn forget_active(&mut self, tool: &str)
        ensures
            final(self).home_spec() == old(self).home_spec(),
            forall|k: Seq<char>| #![trigger tool_config(final(self).tools(), k)]
                tool_config(final(self).tools(), k) == if k == tool@ {
                    match tool_config(old(self).tools(), k) {
                        Some(c) => Some(inactive_config(c)),
                        None => None,
                    }
                } else {
                    tool_config(old(self).tools(), k)
                },
    {
        proof {
            use_type_invariant(&*self);
        }
        let mut reg = ToolRegistry::new();
        std::mem::swap(&mut reg, &mut self.registry);
        registry_forget_active(&mut reg, tool);
        self.registry = reg;
    }

    /// Records that `path` was chosen among the `found` binaries of `tool`:
    /// it becomes active, and every found binary whose path is not yet
    /// known is added to the tool's entries.
    pub fn record_choice(&mut self, tool: &str, path: &str, found: &Vec<BinaryEntry>)
        ensures
            final(self).home_spec() == old(self).home_spec(),
            forall|k: Seq<char>| #![trigger tool_config(final(self).tools(), k)]
                tool_config(final(self).tools(), k) == if k == tool@ {
                    Some(chosen_config(tool_config(old(self).tools(), k), path@, entries_view(found@)))
                } else {
                    tool_config(old(self).tools(), k)
                },
    {
        proof {
            use_type_invariant(&*self);
        }
        let mut reg = ToolRegistry::new();
        std::mem::swap(&mut reg, &mut self.registry);
        registry_record_choice(&mut reg, tool, path, found);
        self.registry = reg;
    }

    /// Records that `entry` was installed for `tool`: it is added to the
    /// tool's entries and becomes active.
    pub fn record_installed(&mut self, tool: &str, entry: BinaryEntry)
        ensures
            final(self).home_spec() == old(self).home_spec(),
            forall|k: Seq<char>| #![trigger tool_config(final(self).tools(), k)]
                tool_config(final(self).tools(), k) == if k == tool@ {
                    Some(installed_config(tool_config(old(self).tools(), k), entry@))
                } else {
                    tool_config(old(self).tools(), k)
                },
    {
        proof {
            use_type_invariant(&*self);
        }
        let mut reg = ToolRegistry::new();
        std::mem::swap(&mut reg, &mut self.registry);
        registry_record_installed(&mut reg, tool, entry);
        self.registry = reg;
    }
}

// ── Platforms ───────────────────────────────────────────────────────────────

/// The operating system a binary is built for.
#[derive(Debug, Clone, Copy, PartialEq, Eq, Structural)]
pub enum Os {
    Windows,
    MacOs,
    /// Linux and other Unix-like systems.
    Other,
}

/// The processor architecture a binary is built for.
#[derive(Debug, Clone, Copy, PartialEq, Eq, Structural)]
pub enum Arch {
    Aarch64,
    /// x86-64 (what every other architecture falls back to).
    X86_64,
}

/// The platform gpm runs on.
#[derive(Debug, Clone, Copy, PartialEq, Eq, Structural)]
pub struct Platform {
    pub os: Os,
    pub arch: Arch,
}

/// Identifies the client in HTTP requests.
pub const USER_AGENT: &'static str = "gpm/0.1 (https://github.com/4Gettt25/gpm)";

/// Where the stable Composer release is published.
pub const COMPOSER_PHAR_URL: &'static str = "https://getcomposer.org/composer-stable.phar";

// ── Discovery ───────────────────────────────────────────────────────────────

/// Whether a file named `name` is a binary of `tool`: `tool` itself, with
/// `.exe` or `.phar`, or a `tool-` prefixed variant.
pub open spec fn matches_tool(tool: Seq<char>, name: Seq<char>) -> bool {
    name == tool || name == tool + ".exe"@ || name == tool + ".phar"@ || starts_with(name, tool + "-"@)
}

/// Concatenates two strings.
fn concat(a: &str, b: &str) -> (r: String)
    ensures
        r@ == a@ + b@,
{
    let mut s = a.to_string();
    push_str(&mut s, b);
    s
}

/// Whether the file named `file_name` (none when the path has no file name
/// or it is not UTF-8) is a binary of `tool`.
pub fn is_match(tool: &str, file_name: Option<&str>) -> (r: bool)
    ensures
        r == match file_name {
            Some(n) => matches_tool(tool@, n@),
            None => false,
        },
{
    let name = match file_name {
        Some(n) => n,
        None => {
            return false;
        },
    };
    let exe = concat(tool, ".exe");
    let phar = concat(tool, ".phar");
    let dash = concat(tool, "-");
    str_eq(name, tool) || str_eq(name, exe.as_str()) || str_eq(name, phar.as_str()) || str_starts_with(
        name,
        dash.as_str(),
    )
}

/// The paths at which `tool` may be found in the directory `dir`.
pub open spec fn candidate_paths(tool: Seq<char>, dir: Seq<char>, windows: bool) -> Seq<Seq<char>> {
    if windows {
        seq![joined_path(dir, tool + ".exe"@), joined_path(dir, tool)]
    } else {
        seq![joined_path(dir, tool), joined_path(dir, tool + ".phar"@)]
    }
}

/// The paths at which `tool` may be found in the directory `dir` of the
/// search path.
pub fn system_candidates(tool: &str, dir: &str, platform: Platform) -> (r: Vec<String>)
    ensures
        r@.map_values(|p: String| p@) == candidate_paths(tool@, dir@, platform.os == Os::Windows),
{
    let mut r: Vec<String> = Vec::new();
    if platform.os == Os::Windows {
        let exe = concat(tool, ".exe");
        r.push(path_join(dir, exe.as_str()));
        r.push(path_join(dir, tool));
    } else {
        let phar = concat(tool, ".phar");
        r.push(path_join(dir, tool));
        r.push(path_join(dir, phar.as_str()));
    }
    assert(r@.map_values(|p: String| p@) =~= candidate_paths(tool@, dir@, platform.os == Os::Windows));
    r
}

/// The pieces of `s` between the occurrences of `c`, as `str::split` yields
/// them (always at least one piece).
pub open spec fn split_on(s: Seq<char>, c: char) -> Seq<Seq<char>>
    decreases s.len(),
{
    let k = index_of(s, c);
    proof {
        crate::text::lemma_index_of_bounds(s, c);
    }
    if k >= s.len() {
        seq![s]
    } else {
        seq![s.take(k)] + split_on(s.skip(k + 1), c)
    }
}

/// The separator of directories in the search path.
pub open spec fn search_path_separator(windows: bool) -> char {
    if windows {
        ';'
    } else {
        ':'
    }
}

/// The directories of the search path `path_var`.
pub fn search_path_dirs(path_var: &str, platform: Platform) -> (r: Vec<String>)
    ensures
        r@.map_values(|d: String| d@) == split_on(path_var@, search_path_separator(platform.os == Os::Windows)),
{
    let sep = if platform.os == Os::Windows {
        ';'
    } else {
        ':'
    };
    let cs = chars_of(path_var);
    let mut r: Vec<String> = Vec::new();
    let mut pos: usize = 0;
    assert(cs@.skip(0) == cs@);
    loop
        invariant
            pos <= cs.len(),
            cs@ == path_var@,
            sep == search_path_separator(platform.os == Os::Windows),
            split_on(path_var@, sep) == r@.map_values(|d: String| d@) + split_on(cs@.skip(pos as int), sep),
        decreases cs.len() - pos,
    {
        let ghost rest = cs@.skip(pos as int);
        let ghost before = r@.map_values(|d: String| d@);
        let k = find_char_from(&cs, pos, sep);
        proof {
            crate::text::lemma_index_of_bounds(rest, sep);
        }
        if k == cs.len() {
            let piece = string_from(&cs, pos, cs.len());
            assert(piece@ == rest);
            r.push(piece);
            assert(r@.map_values(|d: String| d@) =~= before + split_on(rest, sep));
            return r;
        }
        let piece = string_from(&cs, pos, k);
        assert(rest.take(k - pos) == piece@);
        assert(rest.skip(k - pos + 1) == cs@.skip(k + 1));
        r.push(piece);
        assert(r@.map_values(|d: String| d@) =~= before.push(piece@));
        assert(split_on(rest, sep) == seq![piece@] + split_on(cs@.skip(k + 1), sep));
        assert(before + split_on(rest, sep) =~= r@.map_values(|d: String| d@) + split_on(cs@.skip(k + 1), sep));
        pos = k + 1;
    }
}

/// The paths at which `tool` is looked for on the search path: the
/// candidates of each directory of `dirs` in turn, skipping the directories
/// that name gpm's own binary directory `gpm_bin` (already listed).
pub open spec fn search_candidates(
    tool: Seq<char>,
    dirs: Seq<Seq<char>>,
    gpm_bin: Seq<char>,
    windows: bool,
) -> Seq<Seq<char>>
    decreases dirs.len(),
{
    if dirs.len() == 0 {
        seq![]
    } else {
        let prev = search_candidates(tool, dirs.drop_last(), gpm_bin, windows);
        if path_matches(dirs.last(), gpm_bin) {
            prev
        } else {
            prev + candidate_paths(tool, dirs.last(), windows)
        }
    }
}

/// The paths, in search order, at which `tool` may be found on the search
/// path `path_var`, leaving out gpm's own binary directory `gpm_bin`.
pub fn path_candidates(tool: &str, path_var: &str, gpm_bin: &str, platform: Platform) -> (r: Vec<String>)
    ensures
        r@.map_values(|p: String| p@) == search_candidates(
            tool@,
            split_on(path_var@, search_path_separator(platform.os == Os::Windows)),
            gpm_bin@,
            platform.os == Os::Windows,
        ),
{
    let dirs = search_path_dirs(path_var, platform);
    let ghost dv = dirs@.map_values(|d: String| d@);
    let ghost windows = platform.os == Os::Windows;
    let mut r: Vec<String> = Vec::new();
    let mut i: usize = 0;
    assert(dv.take(0) =~= Seq::<Seq<char>>::empty());
    while i < dirs.len()
        invariant
            i <= dirs.len(),
            dv == dirs@.map_values(|d: String| d@),
            windows == (platform.os == Os::Windows),
            r@.map_values(|p: String| p@) == search_candidates(tool@, dv.take(i as int), gpm_bin@, windows),
        decreases dirs.len() - i,
    {
        let ghost before = r@.map_values(|p: String| p@);
        assert(dv.take(i + 1).drop_last() == dv.take(i as int));
        assert(dv.take(i + 1).last() == dirs@[i as int]@);
        if !paths_equal(dirs[i].as_str(), gpm_bin) {
            let cs = system_candidates(tool, dirs[i].as_str(), platform);
            let ghost cv = cs@.map_values(|p: String| p@);
            let mut j: usize = 0;
            while j < cs.len()
                invariant
                    j <= cs.len(),
                    cv == cs@.map_values(|p: String| p@),
                    r@.map_values(|p: String| p@) == before + cv.take(j as int),
                decreases cs.len() - j,
            {
                let ghost r0 = r@;
                let c = cs[j].clone();
                assert(c@ == cv[j as int]);
                r.push(c);
                assert(r@ == r0.push(c));
                assert(cv.take(j + 1) == cv.take(j as int).push(cv[j as int]));
                assert(r@.map_values(|p: String| p@) =~= r0.map_values(|p: String| p@).push(c@));
                assert(r@.map_values(|p: String| p@) =~= before + cv.take(j + 1));
                j = j + 1;
            }
            assert(cv.take(cs.len() as int) == cv);
        }
        i = i + 1;
    }
    assert(dv.take(dirs.len() as int) == dv);
    r
}

// ── Version probing ─────────────────────────────────────────────────────────

/// The text that `String::from_utf8_lossy` makes of some bytes.
pub uninterp spec fn utf8_lossy(b: Seq<u8>) -> Seq<char>;

/// Calls `String::from_utf8_lossy`: the bytes decoded as UTF-8, invalid
/// sequences replaced; valid UTF-8 is decoded as it is.
#[verifier::external_body]
pub fn text_from_bytes(b: &[u8]) -> (r: String)
    ensures
        r@ == utf8_lossy(b@),
        vstd::utf8::valid_utf8(b@) ==> r@ == vstd::utf8::decode_utf8(b@),
{
    String::from_utf8_lossy(b).into_owned()
}

/// The characters of a binary-name prefix in a version line.
pub open spec fn is_name_char(c: char) -> bool {
    is_alphabetic_char(c) || c == '-' || c == '_' || c == ' '
}

/// `s` without its leading name characters.
pub open spec fn strip_name_prefix(s: Seq<char>) -> Seq<char>
    decreases s.len(),
{
    if s.len() > 0 && is_name_char(s[0]) {
        strip_name_prefix(s.drop_first())
    } else {
        s
    }
}

/// The version reported in the first line of `text` ("uv 0.7.0 (abc)"
/// gives "0.7.0 (abc)"): the line trimmed, without the leading binary name;
/// the whole trimmed line when nothing else is left; none without a line.
pub open spec fn version_of_text(text: Seq<char>) -> Option<Seq<char>> {
    if lines(text).len() == 0 {
        None
    } else {
        let first = trim(lines(text)[0]);
        let cleaned = trim(strip_name_prefix(first));
        Some(
            if cleaned.len() == 0 {
                first
            } else {
                cleaned
            },
        )
    }
}

fn strip_name_prefix_str(s: &str) -> (r: String)
    ensures
        r@ == strip_name_prefix(s@),
{
    let cs = chars_of(s);
    let mut i: usize = 0;
    assert(cs@.skip(0) == cs@);
    while i < cs.len() && (char_is_alphabetic(cs[i]) || cs[i] == '-' || cs[i] == '_' || cs[i] == ' ')
        invariant
            i <= cs.len(),
            cs@ == s@,
            strip_name_prefix(s@) == strip_name_prefix(cs@.skip(i as int)),
        decreases cs.len() - i,
    {
        assert(cs@.skip(i as int)[0] == cs@[i as int]);
        assert(cs@.skip(i as int).drop_first() == cs@.skip(i + 1));
        i = i + 1;
    }
    proof {
        if i < cs.len() {
            assert(cs@.skip(i as int)[0] == cs@[i as int]);
        }
        assert(cs@.skip(i as int) == cs@.subrange(i as int, cs.len() as int));
    }
    string_from(&cs, i, cs.len())
}

/// The version that a binary printed for `--version`, from its output bytes.
pub fn version_from_output(stdout: &[u8]) -> (r: Option<String>)
    ensures
        match r {
            Some(v) => version_of_text(utf8_lossy(stdout@)) == Some(v@),
            None => version_of_text(utf8_lossy(stdout@)) is None,
        },
{
    let text = text_from_bytes(stdout);
    let ls = lines_of(text.as_str());
    if ls.len() == 0 {
        return None;
    }
    assert(ls@.map_values(|l: String| l@)[0] == ls@[0]@);
    let first = trim_str(ls[0].as_str());
    let stripped = strip_name_prefix_str(first.as_str());
    let cleaned = trim_str(stripped.as_str());
    if cleaned.as_str().is_empty() {
        Some(first)
    } else {
        Some(cleaned)
    }
}

// ── Prompts ─────────────────────────────────────────────────────────────────

/// Whether an answer to a yes/no prompt means yes: `y`, `yes` (in any case)
/// or nothing.
pub open spec fn affirmative(answer: Seq<char>) -> bool {
    let l = lowercased(answer);
    l == "y"@ || l == "yes"@ || l.len() == 0
}

/// Whether an answer to a yes/no prompt means yes.
pub fn is_affirmative(answer: &str) -> (r: bool)
    ensures
        r == affirmative(answer@),
{
    let l = str_to_lowercase(answer);
    str_eq(l.as_str(), "y") || str_eq(l.as_str(), "yes") || l.as_str().is_empty()
}

/// Why an answer to an index prompt was refused.
#[derive(Debug, Clone, Copy, PartialEq, Eq, Structural)]
pub enum PromptError {
    /// The answer is not a number.
    NotANumber,
    /// The index is not below the number of choices.
    OutOfRange { index: usize, max: usize },
}

/// The index an answer chooses among `max` choices: nothing means 0.
pub open spec fn index_choice(answer: Seq<char>, max: usize) -> Result<usize, PromptError> {
    if answer.len() == 0 {
        Ok(0)
    } else {
        match parsed_usize(answer) {
            None => Err(PromptError::NotANumber),
            Some(i) => if i >= max {
                Err(PromptError::OutOfRange { index: i, max })
            } else {
                Ok(i)
            },
        }
    }
}

/// The index an answer chooses among `max` choices.
pub fn prompt_index(answer: &str, max: usize) -> (r: Result<usize, PromptError>)
    ensures
        r == index_choice(answer@, max),
{
    if answer.is_empty() {
        return Ok(0);
    }
    match parse_usize(answer) {
        None => Err(PromptError::NotANumber),
        Some(i) => if i >= max {
            Err(PromptError::OutOfRange { index: i, max })
        } else {
            Ok(i)
        },
    }
}

/// The message of a refused answer.
pub open spec fn prompt_error_message(e: PromptError) -> Seq<char> {
    match e {
        PromptError::NotANumber => "expected a number"@,
        PromptError::OutOfRange { index, max } => "index "@ + decimal(index as nat) + " out of range (0.."@ + decimal(
            max as nat,
        ) + ")"@,
    }
}

impl PromptError {
    /// The message of this error.
    pub fn message(&self) -> (r: String)
        ensures
            r@ == prompt_error_message(*self),
    {
        match self {
            PromptError::NotANumber => "expected a number".to_string(),
            PromptError::OutOfRange { index, max } => {
                let mut s = "index ".to_string();
                let a = decimal_string(*index);
                push_str(&mut s, a.as_str());
                push_str(&mut s, " out of range (0..");
                let b = decimal_string(*max);
                push_str(&mut s, b.as_str());
                push_str(&mut s, ")");
                s
            },
        }
    }
}

// ── Resolution ──────────────────────────────────────────────────────────────

/// What resolving a tool does once its binaries have been looked for.
#[derive(Debug)]
pub enum ResolvePlan {
    /// None was found: offer to install it.
    Install,
    /// Exactly one was found: use it.
    UseOnly(String),
    /// Several were found: let the user choose.
    Choose,
}

/// Decides, from the binaries found, how a tool is resolved.
pub fn plan_resolution(found: &Vec<BinaryEntry>) -> (r: ResolvePlan)
    ensures
        found@.len() == 0 ==> r is Install,
        found@.len() == 1 ==> (r matches ResolvePlan::UseOnly(p) && p@ == found@[0].path@),
        found@.len() > 1 ==> r is Choose,
{
    if found.len() == 0 {
        ResolvePlan::Install
    } else if found.len() == 1 {
        ResolvePlan::UseOnly(found[0].path.clone())
    } else {
        ResolvePlan::Choose
    }
}

/// The line that lists candidate `i` for the user to choose.
pub open spec fn candidate_text(i: usize, e: BinaryEntryView) -> Seq<char> {
    "  ["@ + decimal(i as nat) + "] "@ + e.path + " ("@ + e.version + ")"@ + if e.managed {
        " [gpm]"@
    } else {
        " [system]"@
    }
}

/// The line that lists candidate `i` for the user to choose.
pub fn candidate_line(i: usize, e: &BinaryEntry) -> (r: String)
    ensures
        r@ == candidate_text(i, e@),
{
    let mut s = "  [".to_string();
    let d = decimal_string(i);
    push_str(&mut s, d.as_str());
    push_str(&mut s, "] ");
    push_str(&mut s, e.path.as_str());
    push_str(&mut s, " (");
    push_str(&mut s, e.version.as_str());
    push_str(&mut s, ")");
    push_str(&mut s, if e.managed {
        " [gpm]"
    } else {
        " [system]"
    });
    s
}

/// The error when a tool stays unavailable.
pub open spec fn not_installed_text(tool: Seq<char>) -> Seq<char> {
    "`"@ + tool
        + "` is required but not installed.\nInstall it manually and re-run, or run `gpm toolchain reset "@ + tool
        + "` to be prompted again."@
}

/// The error when a tool stays unavailable.
pub fn not_installed_message(tool: &str) -> (r: String)
    ensures
        r@ == not_installed_text(tool@),
{
    let mut s = "`".to_string();
    push_str(&mut s, tool);
    push_str(
        &mut s,
        "` is required but not installed.\nInstall it manually and re-run, or run `gpm toolchain reset ",
    );
    push_str(&mut s, tool);
    push_str(&mut s, "` to be prompted again.");
    s
}

// ── The resolution of a tool, step by step ─────────────────────────────────

/// What resolving a tool asks the program to do next.
#[derive(Debug)]
pub enum ResolveAction {
    /// Check whether a file exists at this path (the remembered binary), and
    /// report it to `resolve_checked`.
    CheckExists(String),
    /// Look for the tool's binaries and report them to `resolve_found`.
    Discover,
    /// Show the message, offer to install the tool, and report what was
    /// installed to `resolve_installed`.
    OfferInstall { message: String },
    /// Show the lines, ask the question, and report the answer, with these
    /// binaries, to `resolve_chosen`.
    AskChoice { found: Vec<BinaryEntry>, lines: Vec<String>, question: String },
    /// Done: show the notice if any, save the registry if `save`, and use
    /// the binary at `path`.
    Use { path: String, notice: Option<String>, save: bool },
    /// Done: the tool cannot be had; fail with this message.
    Fail(String),
}

/// The configuration of tool `k` after the active binary of `tool` is forgotten.
pub open spec fn after_forget(t: Seq<(Seq<char>, ToolConfigView)>, tool: Seq<char>, k: Seq<char>) -> Option<ToolConfigView> {
    if k == tool {
        match tool_config(t, k) {
            Some(c) => Some(inactive_config(c)),
            None => None,
        }
    } else {
        tool_config(t, k)
    }
}

/// The configuration of tool `k` after `path` was chosen among `found` for `tool`.
pub open spec fn after_choice(
    t: Seq<(Seq<char>, ToolConfigView)>,
    tool: Seq<char>,
    path: Seq<char>,
    found: Seq<BinaryEntryView>,
    k: Seq<char>,
) -> Option<ToolConfigView> {
    if k == tool {
        Some(chosen_config(tool_config(t, k), path, found))
    } else {
        tool_config(t, k)
    }
}

/// The configuration of tool `k` after `entry` was installed for `tool`.
pub open spec fn after_install(t: Seq<(Seq<char>, ToolConfigView)>, tool: Seq<char>, entry: BinaryEntryView, k: Seq<char>) -> Option<
    ToolConfigView,
> {
    if k == tool {
        Some(installed_config(tool_config(t, k), entry))
    } else {
        tool_config(t, k)
    }
}

/// The notice that a tool is missing.
pub open spec fn missing_notice(tool: Seq<char>) -> Seq<char> {
    "\n`"@ + tool + "` not found on this system."@
}

/// The notice of the only binary found, which is used.
pub open spec fn using_notice(tool: Seq<char>, path: Seq<char>) -> Seq<char> {
    "Using "@ + tool + ": "@ + path
}

/// The lines that present several binaries for the user to choose from.
pub open spec fn choice_lines(tool: Seq<char>, found: Seq<BinaryEntryView>) -> Seq<Seq<char>> {
    seq!["\nMultiple versions of `"@ + tool + "` found:"@] + Seq::new(
        found.len(),
        |i: int| candidate_text(i as usize, found[i]),
    )
}

/// The question asked of the user to choose a binary.
pub open spec fn choice_question() -> Seq<char> {
    "Which would you like to use? [0]: "@
}

impl ToolchainManager {
    /// Begins resolving `tool`: the remembered active binary is to be
    /// checked; without one, the (already empty) active binary is forgotten
    /// and the tool's binaries are to be looked for.
    pub fn resolve_start(&mut self, tool: &str) -> (r: ResolveAction)
        ensures
            final(self).home_spec() == old(self).home_spec(),
            match tool_config(old(self).tools(), tool@) {
                Some(c) if c.active is Some => r matches ResolveAction::CheckExists(p) && Some(p@) == c.active
                    && final(self).tools() == old(self).tools(),
                _ => r is Discover && forall|k: Seq<char>| #![trigger tool_config(final(self).tools(), k)]
                    tool_config(final(self).tools(), k) == after_forget(old(self).tools(), tool@, k),
            },
    {
        match self.remembered_active(tool) {
            Some(p) => ResolveAction::CheckExists(p),
            None => {
                self.forget_active(tool);
                ResolveAction::Discover
            },
        }
    }

    /// Goes on once the remembered binary `path` was checked: one that still
    /// exists is used as it is; else it is forgotten and the tool's binaries
    /// are to be looked for.
    pub fn resolve_checked(&mut self, tool: &str, path: String, exists: bool) -> (r: ResolveAction)
        ensures
            final(self).home_spec() == old(self).home_spec(),
            exists ==> (r matches ResolveAction::Use { path: p, notice, save } && p@ == path@ && notice is None && !save
                && final(self).tools() == old(self).tools()),
            !exists ==> (r is Discover && forall|k: Seq<char>| #![trigger tool_config(final(self).tools(), k)]
                tool_config(final(self).tools(), k) == after_forget(old(self).tools(), tool@, k)),
    {
        if exists {
            ResolveAction::Use { path, notice: None, save: false }
        } else {
            self.forget_active(tool);
            ResolveAction::Discover
        }
    }

    /// Goes on once the tool's binaries were looked for: with none, offer to
    /// install it; with one, it becomes active and is used; with several,
    /// the user is to choose.
    pub fn resolve_found(&mut self, tool: &str, found: Vec<BinaryEntry>) -> (r: ResolveAction)
        ensures
            final(self).home_spec() == old(self).home_spec(),
            found@.len() == 0 ==> (r matches ResolveAction::OfferInstall { message } && message@ == missing_notice(tool@)
                && final(self).tools() == old(self).tools()),
            found@.len() == 1 ==> (r matches ResolveAction::Use { path, notice, save } && path@ == found@[0].path@
                && (notice matches Some(n) && n@ == using_notice(tool@, found@[0].path@)) && save
                && forall|k: Seq<char>| #![trigger tool_config(final(self).tools(), k)]
                tool_config(final(self).tools(), k) == after_choice(
                    old(self).tools(),
                    tool@,
                    found@[0].path@,
                    entries_view(found@),
                    k,
                )),
            found@.len() > 1 ==> (r matches ResolveAction::AskChoice { found: f, lines, question } && entries_view(f@)
                == entries_view(found@) && lines@.map_values(|l: String| l@) == choice_lines(tool@, entries_view(found@))
                && question@ == choice_question() && final(self).tools() == old(self).tools()),
    {
        match plan_resolution(&found) {
            ResolvePlan::Install => {
                let mut message = "\n`".to_string();
                push_str(&mut message, tool);
                push_str(&mut message, "` not found on this system.");
                ResolveAction::OfferInstall { message }
            },
            ResolvePlan::UseOnly(path) => {
                self.record_choice(tool, path.as_str(), &found);
                let mut notice = "Using ".to_string();
                push_str(&mut notice, tool);
                push_str(&mut notice, ": ");
                push_str(&mut notice, path.as_str());
                ResolveAction::Use { path, notice: Some(notice), save: true }
            },
            ResolvePlan::Choose => {
                let mut header = "\nMultiple versions of `".to_string();
                push_str(&mut header, tool);
                push_str(&mut header, "` found:");
                let mut lines: Vec<String> = Vec::new();
                lines.push(header);
                let ghost fv = entries_view(found@);
                let mut i: usize = 0;
                while i < found.len()
                    invariant
                        i <= found.len(),
                        fv == entries_view(found@),
                        lines@.len() == i + 1,
                        lines@[0]@ == "\nMultiple versions of `"@ + tool@ + "` found:"@,
                        forall|j: int| 0 <= j < i ==> #[trigger] lines@[j + 1]@ == candidate_text(j as usize, fv[j]),
                    decreases found.len() - i,
                {
                    let line = candidate_line(i, &found[i]);
                    lines.push(line);
                    i = i + 1;
                }
                assert(lines@.map_values(|l: String| l@) =~= choice_lines(tool@, fv)) by {
                    assert forall|j: int| 0 <= j < lines@.len() implies lines@.map_values(|l: String| l@)[j]
                        == choice_lines(tool@, fv)[j] by {
                        if j > 0 {
                            assert(lines@[(j - 1) + 1]@ == candidate_text((j - 1) as usize, fv[j - 1]));
                        }
                    }
                }
                ResolveAction::AskChoice { found, lines, question: "Which would you like to use? [0]: ".to_string() }
            },
        }
    }

    /// Goes on once installation was offered: an installed binary is
    /// recorded, becomes active and is used; without one, resolution fails.
    pub fn resolve_installed(&mut self, tool: &str, installed: Option<BinaryEntry>) -> (r: ResolveAction)
        ensures
            final(self).home_spec() == old(self).home_spec(),
            match installed {
                Some(e) => r matches ResolveAction::Use { path, notice, save } && path@ == e.path@ && notice is None
                    && save && forall|k: Seq<char>| #![trigger tool_config(final(self).tools(), k)]
                    tool_config(final(self).tools(), k) == after_install(old(self).tools(), tool@, e@, k),
                None => r matches ResolveAction::Fail(m) && m@ == not_installed_text(tool@) && final(self).tools()
                    == old(self).tools(),
            },
    {
        match installed {
            Some(entry) => {
                let path = entry.path.clone();
                self.record_installed(tool, entry);
                ResolveAction::Use { path, notice: None, save: true }
            },
            None => ResolveAction::Fail(not_installed_message(tool)),
        }
    }

    /// Goes on once the user answered which of `found` to use: the chosen
    /// binary becomes active and is used; an answer that chooses none fails.
    pub fn resolve_chosen(&mut self, tool: &str, found: &Vec<BinaryEntry>, answer: &str) -> (r: ResolveAction)
        ensures
            final(self).home_spec() == old(self).home_spec(),
            match index_choice(answer@, found@.len() as usize) {
                Ok(i) => if i < found@.len() {
                    r matches ResolveAction::Use { path, notice, save } && path@ == found@[i as int].path@ && notice is None
                        && save && forall|k: Seq<char>| #![trigger tool_config(final(self).tools(), k)]
                        tool_config(final(self).tools(), k) == after_choice(
                            old(self).tools(),
                            tool@,
                            found@[i as int].path@,
                            entries_view(found@),
                            k,
                        )
                } else {
                    r matches ResolveAction::Fail(m) && m@ == prompt_error_message(
                        PromptError::OutOfRange { index: i, max: found@.len() as usize },
                    ) && final(self).tools() == old(self).tools()
                },
                Err(e) => r matches ResolveAction::Fail(m) && m@ == prompt_error_message(e) && final(self).tools()
                    == old(self).tools(),
            },
    {
        match prompt_index(answer, found.len()) {
            Ok(i) => {
                if i < found.len() {
                    let path = found[i].path.clone();
                    self.record_choice(tool, path.as_str(), found);
                    ResolveAction::Use { path, notice: None, save: true }
                } else {
                    ResolveAction::Fail(PromptError::OutOfRange { index: i, max: found.len() }.message())
                }
            },
            Err(e) => ResolveAction::Fail(e.message()),
        }
    }
}

// ── Installation ────────────────────────────────────────────────────────────

/// The tools gpm can install itself.
#[derive(Debug, Clone, Copy, PartialEq, Eq, Structural)]
pub enum Installer {
    Uv,
    Composer,
}

/// The installer for `tool`, if gpm can install it.
pub fn installer_for(tool: &str) -> (r: Option<Installer>)
    ensures
        tool@ == "uv"@ ==> r == Some(Installer::Uv),
        tool@ == "composer"@ ==> r == Some(Installer::Composer),
        tool@ != "uv"@ && tool@ != "composer"@ ==> r is None,
{
    proof {
        reveal_strlit("uv");
        reveal_strlit("composer");
        assert("uv"@.len() != "composer"@.len());
    }
    if str_eq(tool, "uv") {
        Some(Installer::Uv)
    } else if str_eq(tool, "composer") {
        Some(Installer::Composer)
    } else {
        None
    }
}

/// Which release an installation takes when no version is given.
pub open spec fn default_release(installer: Installer) -> Seq<char> {
    match installer {
        Installer::Uv => "latest"@,
        Installer::Composer => "stable"@,
    }
}

/// Which release an installation takes when no version is given.
pub fn version_hint(installer: Installer) -> (r: &'static str)
    ensures
        r@ == default_release(installer),
{
    match installer {
        Installer::Uv => "latest",
        Installer::Composer => "stable",
    }
}

/// The question whether to install `tool`.
pub fn install_prompt(tool: &str, hint: &str) -> (r: String)
    ensures
        r@ == "Install `"@ + tool@ + "` ("@ + hint@ + ") managed by gpm? [Y/n]: "@,
{
    let mut s = "Install `".to_string();
    push_str(&mut s, tool);
    push_str(&mut s, "` (");
    push_str(&mut s, hint);
    push_str(&mut s, ") managed by gpm? [Y/n]: ");
    s
}

/// The question which version to install.
pub fn version_prompt(hint: &str) -> (r: String)
    ensures
        r@ == "Version (leave blank for "@ + hint@ + "): "@,
{
    let mut s = "Version (leave blank for ".to_string();
    push_str(&mut s, hint);
    push_str(&mut s, "): ");
    s
}

/// The version asked for: none when the answer is blank.
pub fn requested_version(answer: &str) -> (r: Option<String>)
    ensures
        answer@.len() == 0 ==> r is None,
        answer@.len() > 0 ==> (r matches Some(v) && v@ == answer@),
{
    if answer.is_empty() {
        None
    } else {
        Some(answer.to_string())
    }
}

/// How to install a tool that gpm cannot install.
pub open spec fn manual_hint_text(tool: Seq<char>) -> Seq<char> {
    if tool == "npm"@ {
        "→ Install Node.js (includes npm): https://nodejs.org/"@
    } else if tool == "cargo"@ {
        "→ Install Rust (includes cargo): https://rustup.rs/"@
    } else if tool == "pip"@ {
        "→ Install Python (includes pip): https://python.org/"@
    } else if tool == "pip3"@ {
        "→ Install Python 3: https://python.org/"@
    } else {
        "→ Install `"@ + tool + "` from your system package manager or official website."@
    }
}

/// How to install a tool that gpm cannot install.
pub fn manual_install_hint(tool: &str) -> (r: String)
    ensures
        r@ == manual_hint_text(tool@),
{
    if str_eq(tool, "npm") {
        "→ Install Node.js (includes npm): https://nodejs.org/".to_string()
    } else if str_eq(tool, "cargo") {
        "→ Install Rust (includes cargo): https://rustup.rs/".to_string()
    } else if str_eq(tool, "pip") {
        "→ Install Python (includes pip): https://python.org/".to_string()
    } else if str_eq(tool, "pip3") {
        "→ Install Python 3: https://python.org/".to_string()
    } else {
        let mut s = "→ Install `".to_string();
        push_str(&mut s, tool);
        push_str(&mut s, "` from your system package manager or official website.");
        s
    }
}

/// `s` without its leading `v`s.
pub open spec fn strip_v(s: Seq<char>) -> Seq<char>
    decreases s.len(),
{
    if s.len() > 0 && s[0] == 'v' {
        strip_v(s.drop_first())
    } else {
        s
    }
}

/// A release tag as a version: its leading `v`s removed.
pub fn version_from_tag(tag: &str) -> (r: String)
    ensures
        r@ == strip_v(tag@),
{
    let cs = chars_of(tag);
    let mut i: usize = 0;
    assert(cs@.skip(0) == cs@);
    while i < cs.len() && cs[i] == 'v'
        invariant
            i <= cs.len(),
            cs@ == tag@,
            strip_v(tag@) == strip_v(cs@.skip(i as int)),
        decreases cs.len() - i,
    {
        assert(cs@.skip(i as int)[0] == cs@[i as int]);
        assert(cs@.skip(i as int).drop_first() == cs@.skip(i + 1));
        i = i + 1;
    }
    proof {
        if i < cs.len() {
            assert(cs@.skip(i as int)[0] == cs@[i as int]);
        }
        assert(cs@.skip(i as int) == cs@.subrange(i as int, cs.len() as int));
    }
    string_from(&cs, i, cs.len())
}

/// The release target of uv for a platform, and the archive extension.
pub open spec fn uv_target(platform: Platform) -> (Seq<char>, Seq<char>) {
    let arch = match platform.arch {
        Arch::Aarch64 => "aarch64"@,
        Arch::X86_64 => "x86_64"@,
    };
    match platform.os {
        Os::Windows => (arch + "-pc-windows-msvc"@, "zip"@),
        Os::MacOs => (arch + "-apple-darwin"@, "tar.gz"@),
        Os::Other => (arch + "-unknown-linux-musl"@, "tar.gz"@),
    }
}

/// The download URL of uv `version` for a platform, and the binary's name.
pub open spec fn uv_release(version: Seq<char>, platform: Platform) -> (Seq<char>, Seq<char>) {
    let (target, ext) = uv_target(platform);
    (
        "https://github.com/astral-sh/uv/releases/download/v"@ + version + "/uv-"@ + target + "."@ + ext,
        if platform.os == Os::Windows {
            "uv.exe"@
        } else {
            "uv"@
        },
    )
}

/// The download URL of uv `version` names the platform's own architecture:
/// it begins with the release directory of `version` followed by
/// `/uv-aarch64-` on an `Aarch64` platform and `/uv-x86_64-` on an `X86_64`
/// one, on every operating system; the archive is a `.zip` on Windows and a
/// `.tar.gz` elsewhere, and the binary is `uv.exe` on Windows and `uv`
/// elsewhere.
#[verifier::spinoff_prover]
#[verifier::rlimit(40)]
pub proof fn lemma_uv_release_arch(version: Seq<char>, platform: Platform)
    ensures
        ({
            let (url, bin) = uv_release(version, platform);
            let arch = if platform.arch == Arch::Aarch64 {
                "aarch64"@
            } else {
                "x86_64"@
            };
            &&& starts_with(url, "https://github.com/astral-sh/uv/releases/download/v"@ + version + "/uv-"@ + arch + "-"@)
            &&& ends_with(url, if platform.os == Os::Windows { ".zip"@ } else { ".tar.gz"@ })
            &&& ends_with(
                url,
                match platform.os {
                    Os::Windows => "-pc-windows-msvc.zip"@,
                    Os::MacOs => "-apple-darwin.tar.gz"@,
                    Os::Other => "-unknown-linux-musl.tar.gz"@,
                },
            )
            &&& bin == if platform.os == Os::Windows { "uv.exe"@ } else { "uv"@ }
        }),
{
    reveal_strlit("-");
    reveal_strlit(".");
    reveal_strlit(".zip");
    reveal_strlit(".tar.gz");
    reveal_strlit("zip");
    reveal_strlit("tar.gz");
    reveal_strlit("-pc-windows-msvc");
    reveal_strlit("-apple-darwin");
    reveal_strlit("-unknown-linux-musl");
    let (url, bin) = uv_release(version, platform);
    let (target, ext) = uv_target(platform);
    let arch = if platform.arch == Arch::Aarch64 {
        "aarch64"@
    } else {
        "x86_64"@
    };
    let suffix = match platform.os {
        Os::Windows => "-pc-windows-msvc"@,
        Os::MacOs => "-apple-darwin"@,
        Os::Other => "-unknown-linux-musl"@,
    };
    let head = "https://github.com/astral-sh/uv/releases/download/v"@ + version + "/uv-"@ + arch;
    assert(target == arch + suffix);
    assert(suffix[0] == '-');
    assert(suffix =~= "-"@ + suffix.skip(1));
    let tail = suffix.skip(1) + "."@ + ext;
    assert(url =~= (head + "-"@) + tail);
    assert(url.take((head + "-"@).len() as int) =~= head + "-"@);
    let dot_ext = "."@ + ext;
    assert(dot_ext =~= if platform.os == Os::Windows { ".zip"@ } else { ".tar.gz"@ });
    assert(url =~= (head + suffix) + dot_ext);
    assert(url.skip(url.len() - dot_ext.len()) =~= dot_ext);
    reveal_strlit("-pc-windows-msvc.zip");
    reveal_strlit("-apple-darwin.tar.gz");
    reveal_strlit("-unknown-linux-musl.tar.gz");
    let whole = suffix + dot_ext;
    assert(whole =~= match platform.os {
        Os::Windows => "-pc-windows-msvc.zip"@,
        Os::MacOs => "-apple-darwin.tar.gz"@,
        Os::Other => "-unknown-linux-musl.tar.gz"@,
    });
    assert(url =~= head + whole);
    assert(url.skip(url.len() - whole.len()) =~= whole);
}

/// The download URL of uv `version` for a platform, and the binary's name.
pub fn uv_release_url(version: &str, platform: Platform) -> (r: (String, String))
    ensures
        (r.0@, r.1@) == uv_release(version@, platform),
{
    let arch = match platform.arch {
        Arch::Aarch64 => "aarch64",
        Arch::X86_64 => "x86_64",
    };
    let (suffix, ext) = match platform.os {
        Os::Windows => ("-pc-windows-msvc", "zip"),
        Os::MacOs => ("-apple-darwin", "tar.gz"),
        Os::Other => ("-unknown-linux-musl", "tar.gz"),
    };
    let bin_name = if platform.os == Os::Windows {
        "uv.exe"
    } else {
        "uv"
    };
    let mut url = "https://github.com/astral-sh/uv/releases/download/v".to_string();
    push_str(&mut url, version);
    push_str(&mut url, "/uv-");
    push_str(&mut url, arch);
    push_str(&mut url, suffix);
    push_str(&mut url, ".");
    push_str(&mut url, ext);
    (url, bin_name.to_string())
}

/// Whether a download is a gzipped tarball (rather than a zip archive).
pub fn is_tar_gz(url: &str) -> (r: bool)
    ensures
        r == ends_with(url@, ".tar.gz"@),
{
    str_ends_with(url, ".tar.gz")
}

/// The GitHub API URL of the latest release of `owner/repo`.
pub fn github_latest_release_url(owner: &str, repo: &str) -> (r: String)
    ensures
        r@ == "https://api.github.com/repos/"@ + owner@ + "/"@ + repo@ + "/releases/latest"@,
{
    let mut s = "https://api.github.com/repos/".to_string();
    push_str(&mut s, owner);
    push_str(&mut s, "/");
    push_str(&mut s, repo);
    push_str(&mut s, "/releases/latest");
    s
}

/// The version named by a GitHub release description: its `tag_name`
/// without leading `v`s; none when there is no such string.
pub fn release_version(release: &JsonValue) -> (r: Option<String>)
    ensures
        match json_str(json_get(*release, "tag_name"@)) {
            Some(t) => r matches Some(v) && v@ == strip_v(t),
            None => r is None,
        },
{
    match release.get("tag_name") {
        Some(JsonValue::String(tag)) => Some(version_from_tag(tag.as_str())),
        _ => None,
    }
}

/// The version named by the text of a GitHub release description: refused
/// with the parser's message when it is not JSON, else as `release_version`.
pub fn release_version_text(body: &str) -> (r: Result<Option<String>, String>)
    ensures
        match parsed_json(body@) {
            None => r is Err,
            Some(j) => match json_str(json_get(j, "tag_name"@)) {
                Some(t) => r matches Ok(Some(v)) && v@ == strip_v(t),
                None => r matches Ok(None),
            },
        },
{
    match parse_json(body) {
        Ok(release) => Ok(release_version(&release)),
        Err(e) => Err(e),
    }
}

/// The PowerShell command that unpacks a zip archive into a directory.
pub fn expand_archive_command(zip_path: &str, dest: &str) -> (r: String)
    ensures
        r@ == "Expand-Archive -Path '"@ + zip_path@ + "' -DestinationPath '"@ + dest@ + "' -Force"@,
{
    let mut s = "Expand-Archive -Path '".to_string();
    push_str(&mut s, zip_path);
    push_str(&mut s, "' -DestinationPath '");
    push_str(&mut s, dest);
    push_str(&mut s, "' -Force");
    s
}

/// Whether an archive entry whose file name is `file_name` (none when it is
/// not valid UTF-8) is the binary `bin_name`.
pub fn is_archive_member(file_name: Option<&str>, bin_name: &str) -> (r: bool)
    ensures
        r == (file_name matches Some(f) && f@ == bin_name@),
{
    match file_name {
        Some(f) => str_eq(f, bin_name),
        None => false,
    }
}

/// The error reported when an archive holds no entry named `bin_name`.
pub fn missing_binary_message(bin_name: &str) -> (r: String)
    ensures
        r@ == "binary `"@ + bin_name@ + "` not found in archive"@,
{
    let mut s = "binary `".to_string();
    push_str(&mut s, bin_name);
    push_str(&mut s, "` not found in archive");
    s
}

// ── Laws ────────────────────────────────────────────────────────────────────

/// No two entries name the same path.
pub open spec fn distinct_paths(e: Seq<BinaryEntryView>) -> bool {
    forall|i: int, j: int| 0 <= i < j < e.len() ==> !path_matches(#[trigger] e[i].path, #[trigger] e[j].path)
}

/// Recording found binaries keeps the known entries first and in order,
/// makes every found path known, adds nothing that was not found, and never
/// records a path twice.
pub proof fn lemma_merge_found(entries: Seq<BinaryEntryView>, found: Seq<BinaryEntryView>)
    ensures
        merge_found(entries, found).len() >= entries.len(),
        merge_found(entries, found).take(entries.len() as int) == entries,
        forall|i: int| 0 <= i < found.len() ==> has_path(merge_found(entries, found), #[trigger] found[i].path),
        forall|i: int|
            entries.len() <= i < merge_found(entries, found).len() ==> found.contains(
                #[trigger] merge_found(entries, found)[i],
            ),
        distinct_paths(entries) ==> distinct_paths(merge_found(entries, found)),
    decreases found.len(),
{
    if found.len() > 0 {
        let prev = merge_found(entries, found.drop_last());
        lemma_merge_found(entries, found.drop_last());
        let f = found.last();
        let m = merge_found(entries, found);
        assert forall|i: int| 0 <= i < found.len() implies has_path(m, #[trigger] found[i].path) by {
            if i < found.len() - 1 {
                assert(found[i] == found.drop_last()[i]);
                let w = choose|j: int| 0 <= j < prev.len() && #[trigger] path_matches(prev[j].path, found[i].path);
                assert(m[w] == prev[w]);
                assert(path_matches(m[w].path, found[i].path));
            } else if !has_path(prev, f.path) {
                assert(m[prev.len() as int] == f);
                assert(path_matches(m[prev.len() as int].path, f.path));
            }
        }
        assert forall|i: int| entries.len() <= i < m.len() implies found.contains(#[trigger] m[i]) by {
            if i < prev.len() {
                assert(m[i] == prev[i]);
                let w = choose|j: int| 0 <= j < found.drop_last().len() && found.drop_last()[j] == prev[i];
                assert(found[w] == found.drop_last()[w]);
            } else {
                assert(found[found.len() - 1] == f);
            }
        }
        if !has_path(prev, f.path) {
            assert(m.take(entries.len() as int) =~= prev.take(entries.len() as int));
        }
    } else {
        assert(entries.take(entries.len() as int) =~= entries);
    }
}

/// After a choice is recorded, the chosen path is the tool's active binary
/// and every found binary is known.
pub proof fn lemma_choice_remembered(cfg: Option<ToolConfigView>, path: Seq<char>, found: Seq<BinaryEntryView>)
    ensures
        chosen_config(cfg, path, found).active == Some(path),
        forall|i: int| 0 <= i < found.len() ==> has_path(chosen_config(cfg, path, found).entries, #[trigger] found[i].path),
{
    let base = match cfg {
        Some(c) => c.entries,
        None => empty_config().entries,
    };
    lemma_merge_found(base, found);
}

/// What resolution records of the binaries found: when a tool's known
/// binaries `E` have pairwise distinct paths and resolution settles on `path`
/// among the found binaries `F` (`resolve_found` with one binary,
/// `resolve_chosen` with several), the tool's entries become `E` followed by
/// the binaries of `F` whose path was not yet known, in `F`'s order; their
/// paths stay pairwise distinct and cover every path of `F`, and `path`
/// becomes active.
pub proof fn lemma_resolution_entries(
    t: Seq<(Seq<char>, ToolConfigView)>,
    tool: Seq<char>,
    path: Seq<char>,
    found: Seq<BinaryEntryView>,
)
    requires
        tool_config(t, tool) matches Some(c) ==> distinct_paths(c.entries),
    ensures
        after_choice(t, tool, path, found, tool) matches Some(c2) && {
            let before = match tool_config(t, tool) {
                Some(c) => c.entries,
                None => Seq::<BinaryEntryView>::empty(),
            };
            &&& c2.active == Some(path)
            &&& c2.entries == merge_found(before, found)
            &&& c2.entries.take(before.len() as int) == before
            &&& distinct_paths(c2.entries)
            &&& forall|i: int| 0 <= i < found.len() ==> has_path(c2.entries, #[trigger] found[i].path)
            &&& forall|i: int| before.len() <= i < c2.entries.len() ==> found.contains(#[trigger] c2.entries[i])
        },
{
    let before = match tool_config(t, tool) {
        Some(c) => c.entries,
        None => Seq::<BinaryEntryView>::empty(),
    };
    lemma_merge_found(before, found);
}

/// After an installation is recorded, the installed binary is active and known.
pub proof fn lemma_install_remembered(cfg: Option<ToolConfigView>, entry: BinaryEntryView)
    ensures
        installed_config(cfg, entry).active == Some(entry.path),
        has_path(installed_config(cfg, entry).entries, entry.path),
{
    let e = installed_config(cfg, entry).entries;
    assert(e[e.len() - 1] == entry);
    assert(path_matches(e[e.len() - 1].path, entry.path));
}

/// Forgetting the active binary leaves no active binary and every entry.
pub proof fn lemma_forget_clears(c: ToolConfigView)
    ensures
        inactive_config(c).active is None,
        inactive_config(c).entries == c.entries,
{
}

/// The index an answer chooses is one of the choices, whenever there is one.
/// (With no choices an empty answer still gives 0.)
pub proof fn lemma_prompt_index_in_range(answer: Seq<char>, max: usize)
    requires
        max > 0,
    ensures
        index_choice(answer, max) matches Ok(i) ==> i < max,
{
}

/// Stripping leading `v`s twice strips nothing more.
pub proof fn lemma_strip_v_idempotent(s: Seq<char>)
    ensures
        strip_v(strip_v(s)) == strip_v(s),
        strip_v(s).len() == 0 || strip_v(s)[0] != 'v',
    decreases s.len(),
{
    if s.len() > 0 && s[0] == 'v' {
        lemma_strip_v_idempotent(s.drop_first());
    }
}

} // verus!
