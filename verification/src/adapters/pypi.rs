//! PyPI (`pyproject.toml` in PEP 621 or Poetry form, or `requirements.txt`).
use vstd::prelude::*;
use crate::docmodel::{
    TomlValue, toml_get, toml_get_opt, toml_str, toml_str_or, toml_table, toml_array, toml_get_in,
    toml_str_or_exec, toml_str_exec, opt_ref,
};
use crate::manifest::{ManifestGraph, RootSpec, Dep, DepEntry, ParseError, deps_view, graph_of, build_graph, lemma_deps_view_push};
use crate::formats::{parse_toml, parsed_toml};
use crate::pep508::{parse_pep508, pep508_parts, pep508_name, pep508_name_of};
use crate::schema::{DependencyKind, Ecosystem};
use crate::text::{
    lines, lines_of, trim, trim_start, before_char, starts_with, chars_of, trim_bounds, find_char_from, string_from, str_eq,
    trim_start_str, str_starts_with, push_char, push_str, strip_cr, index_of, lemma_index_of_bounds,
    lemma_index_of_unique, lemma_before_char_drop_last, lemma_trim_drop_white_last, lemma_trim_start_is_skip,
    lemma_trim_all_white, lemma_lines_concat, lemma_lines_single, lemma_lines_no_break, is_white_space,
    lemma_trim_before_char,
};

verus! {

broadcast use vstd::string::group_string_axioms;

/// The adapter for Python projects (uv / pip).
pub struct PypiAdapter;

/// The constraint that a dependency value gives: a string is the constraint
/// itself, a table gives its `version` string (else `*`), anything else `*`.
pub open spec fn dep_value_req(v: TomlValue) -> Seq<char> {
    match v {
        TomlValue::String(s) => s@,
        TomlValue::Table(_) => toml_str_or(toml_get(v, "version"@), "*"@),
        _ => "*"@,
    }
}

/// Extract a version constraint from a Poetry (or Cargo) dependency value.
pub fn poetry_req(val: &TomlValue) -> (r: String)
    ensures
        r@ == dep_value_req(*val),
{
    match val {
        TomlValue::String(v) => v.clone(),
        TomlValue::Table(_) => toml_str_or_exec(val.get("version"), "*"),
        _ => "*".to_string(),
    }
}

/// The dependency that a PEP 508 specifier declares.
pub open spec fn pep508_dep(spec: Seq<char>, kind: DependencyKind) -> Dep {
    Dep { name: pep508_parts(spec).0, req: pep508_parts(spec).1, kind }
}

/// The dependencies declared by the string items of an array, in order;
/// other items are skipped.
pub open spec fn str_items_deps(items: Seq<TomlValue>, kind: DependencyKind) -> Seq<Dep>
    decreases items.len(),
{
    if items.len() == 0 {
        seq![]
    } else {
        let prev = str_items_deps(items.drop_last(), kind);
        match items.last() {
            TomlValue::String(s) => prev.push(pep508_dep(s@, kind)),
            _ => prev,
        }
    }
}

/// The dependencies declared by an optional array of specifiers.
pub open spec fn array_deps(v: Option<TomlValue>, kind: DependencyKind) -> Seq<Dep> {
    match toml_array(v) {
        Some(a) => str_items_deps(a, kind),
        None => seq![],
    }
}

/// The dependencies of every group of a table of specifier arrays, group by group.
pub open spec fn groups_array_deps(groups: Seq<(String, TomlValue)>, kind: DependencyKind) -> Seq<Dep>
    decreases groups.len(),
{
    if groups.len() == 0 {
        seq![]
    } else {
        groups_array_deps(groups.drop_last(), kind) + array_deps(Some(groups.last().1), kind)
    }
}

/// PEP 621: `[project] dependencies` (normal), then every group of
/// `[project.optional-dependencies]` (optional).
pub open spec fn pep621_deps(pep621: Option<TomlValue>) -> Seq<Dep> {
    array_deps(toml_get_opt(pep621, "dependencies"@), DependencyKind::Normal) + match toml_table(
        toml_get_opt(pep621, "optional-dependencies"@),
    ) {
        Some(g) => groups_array_deps(g, DependencyKind::Optional),
        None => seq![],
    }
}

/// The entries of a Poetry dependency table, `python` skipped if asked.
pub open spec fn poetry_table_deps(entries: Seq<(String, TomlValue)>, kind: DependencyKind, skip_python: bool) -> Seq<
    Dep,
>
    decreases entries.len(),
{
    if entries.len() == 0 {
        seq![]
    } else {
        let prev = poetry_table_deps(entries.drop_last(), kind, skip_python);
        let kv = entries.last();
        if skip_python && kv.0@ == "python"@ {
            prev
        } else {
            prev.push(Dep { name: kv.0@, req: dep_value_req(kv.1), kind })
        }
    }
}

/// One Poetry dependency table of `p`, none if it is not a table.
pub open spec fn poetry_section(p: Option<TomlValue>, section: Seq<char>, kind: DependencyKind, skip_python: bool) -> Seq<
    Dep,
> {
    match toml_table(toml_get_opt(p, section)) {
        Some(e) => poetry_table_deps(e, kind, skip_python),
        None => seq![],
    }
}

/// The dev dependencies of every Poetry group, group by group.
pub open spec fn poetry_groups_deps(groups: Seq<(String, TomlValue)>) -> Seq<Dep>
    decreases groups.len(),
{
    if groups.len() == 0 {
        seq![]
    } else {
        poetry_groups_deps(groups.drop_last()) + poetry_section(
            Some(groups.last().1),
            "dependencies"@,
            DependencyKind::Dev,
            false,
        )
    }
}

/// Poetry: `dependencies` without `python` (normal), `dev-dependencies`
/// (dev), then the `dependencies` of every `group` (dev).
pub open spec fn poetry_deps(poetry: Option<TomlValue>) -> Seq<Dep> {
    poetry_section(poetry, "dependencies"@, DependencyKind::Normal, true) + poetry_section(
        poetry,
        "dev-dependencies"@,
        DependencyKind::Dev,
        false,
    ) + match toml_table(toml_get_opt(poetry, "group"@)) {
        Some(g) => poetry_groups_deps(g),
        None => seq![],
    }
}

/// The `[project]` table of a `pyproject.toml`.
pub open spec fn pep621_of(doc: TomlValue) -> Option<TomlValue> {
    toml_get(doc, "project"@)
}

/// The `[tool.poetry]` table of a `pyproject.toml`.
pub open spec fn poetry_of(doc: TomlValue) -> Option<TomlValue> {
    toml_get_opt(toml_get(doc, "tool"@), "poetry"@)
}

/// The root of a `pyproject.toml`: name, version and description of
/// `[project]` if present, else of `[tool.poetry]`; "unknown" and "0.0.0"
/// where missing.
pub open spec fn pyproject_root(doc: TomlValue) -> RootSpec {
    let section = if pep621_of(doc) is Some {
        pep621_of(doc)
    } else {
        poetry_of(doc)
    };
    RootSpec {
        name: toml_str_or(toml_get_opt(section, "name"@), "unknown"@),
        semver: toml_str_or(toml_get_opt(section, "version"@), "0.0.0"@),
        description: toml_str(toml_get_opt(section, "description"@)),
    }
}

/// The dependencies of a `pyproject.toml`: PEP 621 ones, then Poetry ones.
pub open spec fn pyproject_deps(doc: TomlValue) -> Seq<Dep> {
    pep621_deps(pep621_of(doc)) + poetry_deps(poetry_of(doc))
}

fn push_pep508(out: &mut Vec<DepEntry>, spec: &str, kind: DependencyKind)
    ensures
        deps_view(final(out)@) == deps_view(old(out)@).push(pep508_dep(spec@, kind)),
{
    let (name, req) = parse_pep508(spec);
    let d = DepEntry { name, req, kind };
    let ghost prev = out@;
    out.push(d);
    proof {
        lemma_deps_view_push(prev, d);
    }
}

/// Appends the dependencies declared by an optional array of specifiers.
fn push_array_deps(v: Option<&TomlValue>, kind: DependencyKind, out: &mut Vec<DepEntry>)
    ensures
        deps_view(final(out)@) == deps_view(old(out)@) + array_deps(opt_ref(v), kind),
{
    match v {
        Some(TomlValue::Array(items)) => {
            let ghost base = deps_view(out@);
            let mut i: usize = 0;
            assert(items@.take(0) =~= Seq::<TomlValue>::empty());
            while i < items.len()
                invariant
                    i <= items.len(),
                    deps_view(out@) == base + str_items_deps(items@.take(i as int), kind),
                decreases items.len() - i,
            {
                assert(items@.take(i + 1).drop_last() == items@.take(i as int));
                assert(items@.take(i + 1).last() == items@[i as int]);
                match &items[i] {
                    TomlValue::String(spec) => {
                        push_pep508(out, spec.as_str(), kind);
                    },
                    _ => {},
                }
                i = i + 1;
            }
            assert(items@.take(items.len() as int) == items@);
        },
        _ => {
            assert(deps_view(out@) + array_deps(opt_ref(v), kind) =~= deps_view(out@));
        },
    }
}

/// Appends the dependencies of every group of a table of specifier arrays.
fn push_groups_array_deps(groups: &Vec<(String, TomlValue)>, kind: DependencyKind, out: &mut Vec<DepEntry>)
    ensures
        deps_view(final(out)@) == deps_view(old(out)@) + groups_array_deps(groups@, kind),
{
    let ghost base = deps_view(out@);
    let mut i: usize = 0;
    assert(groups@.take(0) =~= Seq::<(String, TomlValue)>::empty());
    assert(base + groups_array_deps(groups@.take(0), kind) =~= base);
    while i < groups.len()
        invariant
            i <= groups.len(),
            deps_view(out@) == base + groups_array_deps(groups@.take(i as int), kind),
        decreases groups.len() - i,
    {
        assert(groups@.take(i + 1).drop_last() == groups@.take(i as int));
        assert(groups@.take(i + 1).last() == groups@[i as int]);
        push_array_deps(Some(&groups[i].1), kind, out);
        assert(base + groups_array_deps(groups@.take(i + 1), kind) =~= base + groups_array_deps(
            groups@.take(i as int),
            kind,
        ) + array_deps(Some(groups@[i as int].1), kind));
        i = i + 1;
    }
    assert(groups@.take(groups.len() as int) == groups@);
}

fn push_pep621_deps(pep621: Option<&TomlValue>, out: &mut Vec<DepEntry>)
    ensures
        deps_view(final(out)@) == deps_view(old(out)@) + pep621_deps(opt_ref(pep621)),
{
    let ghost base = deps_view(out@);
    push_array_deps(toml_get_in(pep621, "dependencies"), DependencyKind::Normal, out);
    match toml_get_in(pep621, "optional-dependencies") {
        Some(TomlValue::Table(groups)) => {
            push_groups_array_deps(groups, DependencyKind::Optional, out);
        },
        _ => {},
    }
    assert(deps_view(out@) =~= base + pep621_deps(opt_ref(pep621)));
}

/// Appends the entries of a Poetry dependency table (`python` skipped if asked).
fn push_poetry_table(entries: &Vec<(String, TomlValue)>, kind: DependencyKind, skip_python: bool, out: &mut Vec<
    DepEntry,
>)
    ensures
        deps_view(final(out)@) == deps_view(old(out)@) + poetry_table_deps(entries@, kind, skip_python),
{
    let ghost base = deps_view(out@);
    let mut i: usize = 0;
    assert(entries@.take(0) =~= Seq::<(String, TomlValue)>::empty());
    assert(base + poetry_table_deps(entries@.take(0), kind, skip_python) =~= base);
    while i < entries.len()
        invariant
            i <= entries.len(),
            deps_view(out@) == base + poetry_table_deps(entries@.take(i as int), kind, skip_python),
        decreases entries.len() - i,
    {
        assert(entries@.take(i + 1).drop_last() == entries@.take(i as int));
        assert(entries@.take(i + 1).last() == entries@[i as int]);
        proof {
            reveal_strlit("python");
        }
        let is_python = str_eq(entries[i].0.as_str(), "python");
        if !(skip_python && is_python) {
            let d = DepEntry { name: entries[i].0.clone(), req: poetry_req(&entries[i].1), kind };
            let ghost prev = out@;
            out.push(d);
            proof {
                lemma_deps_view_push(prev, d);
            }
        }
        i = i + 1;
    }
    assert(entries@.take(entries.len() as int) == entries@);
}

fn push_poetry_section(p: Option<&TomlValue>, section: &str, kind: DependencyKind, skip_python: bool, out: &mut Vec<
    DepEntry,
>)
    ensures
        deps_view(final(out)@) == deps_view(old(out)@) + poetry_section(opt_ref(p), section@, kind, skip_python),
{
    match toml_get_in(p, section) {
        Some(TomlValue::Table(entries)) => {
            push_poetry_table(entries, kind, skip_python, out);
        },
        _ => {
            assert(deps_view(out@) + poetry_section(opt_ref(p), section@, kind, skip_python) =~= deps_view(out@));
        },
    }
}

fn push_poetry_deps(poetry: Option<&TomlValue>, out: &mut Vec<DepEntry>)
    ensures
        deps_view(final(out)@) == deps_view(old(out)@) + poetry_deps(opt_ref(poetry)),
{
    let ghost base = deps_view(out@);
    push_poetry_section(poetry, "dependencies", DependencyKind::Normal, true, out);
    push_poetry_section(poetry, "dev-dependencies", DependencyKind::Dev, false, out);
    let ghost mid = deps_view(out@);
    match toml_get_in(poetry, "group") {
        Some(TomlValue::Table(groups)) => {
            let mut i: usize = 0;
            assert(groups@.take(0) =~= Seq::<(String, TomlValue)>::empty());
            assert(mid + poetry_groups_deps(groups@.take(0)) =~= mid);
            while i < groups.len()
                invariant
                    i <= groups.len(),
                    deps_view(out@) == mid + poetry_groups_deps(groups@.take(i as int)),
                decreases groups.len() - i,
            {
                assert(groups@.take(i + 1).drop_last() == groups@.take(i as int));
                assert(groups@.take(i + 1).last() == groups@[i as int]);
                push_poetry_section(Some(&groups[i].1), "dependencies", DependencyKind::Dev, false, out);
                assert(mid + poetry_groups_deps(groups@.take(i + 1)) =~= mid + poetry_groups_deps(
                    groups@.take(i as int),
                ) + poetry_section(Some(groups@[i as int].1), "dependencies"@, DependencyKind::Dev, false));
                i = i + 1;
            }
            assert(groups@.take(groups.len() as int) == groups@);
        },
        _ => {},
    }
    assert(deps_view(out@) =~= base + poetry_deps(opt_ref(poetry)));
}

/// Builds the graph of a parsed `pyproject.toml` (PEP 621 and/or Poetry).
pub fn parse_pyproject(doc: &TomlValue) -> (g: ManifestGraph)
    ensures
        g@ == graph_of(pyproject_root(*doc), Ecosystem::PyPI, pyproject_deps(*doc)),
{
    let pep621 = doc.get("project");
    let poetry = toml_get_in(doc.get("tool"), "poetry");
    let section = match pep621 {
        Some(p) => Some(p),
        None => poetry,
    };
    let root_name = toml_str_or_exec(toml_get_in(section, "name"), "unknown");
    let root_version = toml_str_or_exec(toml_get_in(section, "version"), "0.0.0");
    let description = toml_str_exec(toml_get_in(section, "description"));
    let mut deps: Vec<DepEntry> = Vec::new();
    assert(deps_view(deps@) =~= Seq::<Dep>::empty());
    push_pep621_deps(pep621, &mut deps);
    push_poetry_deps(poetry, &mut deps);
    assert(deps_view(deps@) =~= pyproject_deps(*doc));
    build_graph(root_name.as_str(), root_version.as_str(), description, Ecosystem::PyPI, &deps)
}

// ── requirements.txt ────────────────────────────────────────────────────────

/// The dependency a `requirements.txt` line declares, if any: blank lines,
/// comments and option lines (`-r`, `-e`, ...) declare none, and a trailing
/// `# comment` is cut off.
pub open spec fn requirement_line_dep(line: Seq<char>) -> Option<Dep> {
    let t = trim(line);
    if t.len() == 0 || t[0] == '#' || t[0] == '-' {
        None
    } else {
        let l = trim(before_char(t, '#'));
        if l.len() == 0 {
            None
        } else {
            Some(pep508_dep(l, DependencyKind::Normal))
        }
    }
}

/// The dependencies declared by a sequence of `requirements.txt` lines.
pub open spec fn requirement_deps(ls: Seq<Seq<char>>) -> Seq<Dep>
    decreases ls.len(),
{
    if ls.len() == 0 {
        seq![]
    } else {
        requirement_deps(ls.drop_last()) + match requirement_line_dep(ls.last()) {
            Some(d) => seq![d],
            None => seq![],
        }
    }
}

/// The root of a `requirements.txt` project: the directory's name (else
/// "project"), version "0.0.0", no description.
pub open spec fn requirements_root(dir_name: Option<Seq<char>>) -> RootSpec {
    RootSpec {
        name: match dir_name {
            Some(n) => n,
            None => "project"@,
        },
        semver: "0.0.0"@,
        description: None,
    }
}

/// The dependency declared by one line, pushed onto `out`.
fn push_requirement_line(line: &str, out: &mut Vec<DepEntry>)
    ensures
        deps_view(final(out)@) == deps_view(old(out)@) + match requirement_line_dep(line@) {
            Some(d) => seq![d],
            None => seq![],
        },
{
    let cs = chars_of(line);
    let (a, b) = trim_bounds(&cs, 0, cs.len());
    assert(cs@.subrange(0, cs@.len() as int) == cs@);
    let ghost t = cs@.subrange(a as int, b as int);
    if a == b || cs[a] == '#' || cs[a] == '-' {
        proof {
            if a < b {
                assert(t[0] == cs@[a as int]);
            }
        }
        assert(deps_view(out@) + Seq::<Dep>::empty() =~= deps_view(out@));
        return;
    }
    assert(t[0] == cs@[a as int]);
    let h = find_char_from(&cs, a, '#');
    let h = if h > b { b } else { h };
    proof {
        assert forall|j: int| 0 <= j < h - a implies t[j] != '#' by {
            assert(t[j] == cs@[a + j]);
        }
        if h < b {
            assert(t[h - a] == cs@[h as int]);
        }
        crate::text::lemma_index_of_unique(t, '#', h - a);
        assert(t.take(h - a) == cs@.subrange(a as int, h as int));
    }
    let (la, lb) = trim_bounds(&cs, a, h);
    if la == lb {
        assert(deps_view(out@) + Seq::<Dep>::empty() =~= deps_view(out@));
        return;
    }
    let l = string_from(&cs, la, lb);
    push_pep508(out, l.as_str(), DependencyKind::Normal);
    assert(deps_view(out@) =~= deps_view(old(out)@) + seq![pep508_dep(l@, DependencyKind::Normal)]);
}

/// Parses the text of a `pyproject.toml` and builds its graph; a text that
/// is not valid TOML is refused with the parser's message.
pub fn parse_pyproject_text(content: &str) -> (r: Result<ManifestGraph, ParseError>)
    ensures
        match parsed_toml(content@) {
            Some(d) => r matches Ok(g) && g@ == graph_of(pyproject_root(d), Ecosystem::PyPI, pyproject_deps(d)),
            None => r matches Err(e) && e.file@ == "pyproject.toml"@,
        },
{
    match parse_toml(content) {
        Ok(doc) => Ok(parse_pyproject(&doc)),
        Err(detail) => Err(ParseError::new("pyproject.toml", detail)),
    }
}

/// Builds the graph of a `requirements.txt` whose text is `content`, in a
/// directory named `dir_name`.
pub fn parse_requirements_txt(dir_name: Option<String>, content: &str) -> (g: ManifestGraph)
    ensures
        g@ == graph_of(
            requirements_root(match dir_name {
                Some(n) => Some(n@),
                None => None,
            }),
            Ecosystem::PyPI,
            requirement_deps(lines(content@)),
        ),
{
    let root_name = match dir_name {
        Some(n) => n,
        None => "project".to_string(),
    };
    let ls = lines_of(content);
    let ghost lv = ls@.map_values(|l: String| l@);
    let mut deps: Vec<DepEntry> = Vec::new();
    let mut i: usize = 0;
    assert(lv.take(0) =~= Seq::<Seq<char>>::empty());
    assert(deps_view(deps@) =~= Seq::<Dep>::empty());
    while i < ls.len()
        invariant
            i <= ls.len(),
            lv == ls@.map_values(|l: String| l@),
            deps_view(deps@) == requirement_deps(lv.take(i as int)),
        decreases ls.len() - i,
    {
        assert(lv.take(i + 1).drop_last() == lv.take(i as int));
        assert(lv.take(i + 1).last() == ls@[i as int]@);
        push_requirement_line(ls[i].as_str(), &mut deps);
        i = i + 1;
    }
    assert(lv.take(ls.len() as int) == lv);
    build_graph(root_name.as_str(), "0.0.0", None, Ecosystem::PyPI, &deps)
}

// ── requirements.txt editing ────────────────────────────────────────────────

/// Whether a `requirements.txt` line names the project `target` (a
/// normalized name): its text before any `#`, trimmed, is a specifier for it.
pub open spec fn names_requirement(line: Seq<char>, target: Seq<char>) -> bool {
    let l = trim(before_char(line, '#'));
    l.len() > 0 && pep508_name_of(l) == target
}

/// Whether some line names `target`.
pub open spec fn lists_requirement(ls: Seq<Seq<char>>, target: Seq<char>) -> bool {
    exists|i: int| 0 <= i < ls.len() && names_requirement(ls[i], target)
}

/// `content` with `package` added as a last line (after a line break if the
/// text does not end with one).
pub open spec fn appended_requirement(content: Seq<char>, package: Seq<char>) -> Seq<char> {
    let base = if content.len() > 0 && content.last() != '\n' {
        content.push('\n')
    } else {
        content
    };
    base + package + seq!['\n']
}

/// Whether removing `target` keeps a line: blank lines, comments and lines
/// naming other projects stay.
pub open spec fn keeps_line(l: Seq<char>, target: Seq<char>) -> bool {
    let s = trim(before_char(l, '#'));
    s.len() == 0 || starts_with(trim_start(l), "#"@) || pep508_name_of(s) != target
}

/// The kept lines, each followed by a line break.
pub open spec fn kept_text(ls: Seq<Seq<char>>, target: Seq<char>) -> Seq<char>
    decreases ls.len(),
{
    if ls.len() == 0 {
        seq![]
    } else {
        kept_text(ls.drop_last(), target) + if keeps_line(ls.last(), target) {
            ls.last().push('\n')
        } else {
            seq![]
        }
    }
}

/// `line`'s text before any `#`, trimmed.
fn requirement_text(line: &str) -> (r: String)
    ensures
        r@ == trim(before_char(line@, '#')),
{
    let cs = chars_of(line);
    assert(cs@.skip(0) == cs@);
    let h = find_char_from(&cs, 0, '#');
    assert(cs@.take(h as int) == cs@.subrange(0, h as int));
    let (a, b) = trim_bounds(&cs, 0, h);
    string_from(&cs, a, b)
}

/// Whether `line` names the project `target`.
fn line_names(line: &str, target: &str) -> (r: bool)
    ensures
        r == names_requirement(line@, target@),
{
    let l = requirement_text(line);
    if l.as_str().is_empty() {
        return false;
    }
    let n = pep508_name(l.as_str());
    str_eq(n.as_str(), target)
}

/// Adds `package` as a new line unless a line already names the same
/// project. Returns the new text, or `None` when nothing is to change.
pub fn requirements_txt_add(content: &str, package: &str) -> (r: Option<String>)
    ensures
        r is None <==> lists_requirement(lines(content@), pep508_name_of(package@)),
        r matches Some(s) ==> s@ == appended_requirement(content@, package@),
{
    let target = pep508_name(package);
    let ls = lines_of(content);
    let ghost lv = ls@.map_values(|l: String| l@);
    let mut i: usize = 0;
    while i < ls.len()
        invariant
            i <= ls.len(),
            lv == ls@.map_values(|l: String| l@),
            lv == lines(content@),
            target@ == pep508_name_of(package@),
            forall|j: int| 0 <= j < i ==> !names_requirement(#[trigger] lv[j], target@),
        decreases ls.len() - i,
    {
        if line_names(ls[i].as_str(), target.as_str()) {
            assert(names_requirement(lv[i as int], target@));
            assert(lists_requirement(lines(content@), pep508_name_of(package@))) by {
                let w = i as int;
                let all = lines(content@);
                assert(all[w] == lv[w]);
                assert(target@ == pep508_name_of(package@));
                assert(0 <= w < all.len() && names_requirement(all[w], pep508_name_of(package@)));
            }
            return None;
        }
        i = i + 1;
    }
    let mut out = content.to_string();
    let ends_nl = str_ends_with_newline(content);
    if !content.is_empty() && !ends_nl {
        push_char(&mut out, '\n');
    }
    push_str(&mut out, package);
    push_char(&mut out, '\n');
    Some(out)
}

/// Whether `s` is non-empty and ends with a line break.
fn str_ends_with_newline(s: &str) -> (r: bool)
    ensures
        r == (s@.len() > 0 && s@.last() == '\n'),
{
    let cs = chars_of(s);
    cs.len() > 0 && cs[cs.len() - 1] == '\n'
}

/// Removes every line that names the same project as `package`, keeping
/// blank lines, comments and other requirements; each kept line is
/// terminated by a line break.
pub fn requirements_txt_remove(content: &str, package: &str) -> (r: String)
    ensures
        r@ == kept_text(lines(content@), pep508_name_of(package@)),
{
    let target = pep508_name(package);
    let ls = lines_of(content);
    let ghost lv = ls@.map_values(|l: String| l@);
    let mut out = String::new();
    let mut i: usize = 0;
    assert(lv.take(0) =~= Seq::<Seq<char>>::empty());
    while i < ls.len()
        invariant
            i <= ls.len(),
            lv == ls@.map_values(|l: String| l@),
            out@ == kept_text(lv.take(i as int), target@),
            target@ == pep508_name_of(package@),
            lv == lines(content@),
        decreases ls.len() - i,
    {
        assert(lv.take(i + 1).drop_last() == lv.take(i as int));
        assert(lv.take(i + 1).last() == ls@[i as int]@);
        let line = ls[i].as_str();
        let stripped = requirement_text(line);
        let keep = if stripped.as_str().is_empty() {
            true
        } else {
            let ts = trim_start_str(line);
            proof {
                reveal_strlit("#");
            }
            if str_starts_with(ts.as_str(), "#") {
                true
            } else {
                let n = pep508_name(stripped.as_str());
                !str_eq(n.as_str(), target.as_str())
            }
        };
        if keep {
            push_str(&mut out, line);
            push_char(&mut out, '\n');
        }
        i = i + 1;
    }
    assert(lv.take(ls.len() as int) == lv);
    out
}

// ── Laws of requirements.txt editing ───────────────────────────────────────

/// A carriage return ending a line does not change which project it names.
proof fn lemma_names_strip_cr(l: Seq<char>, t: Seq<char>)
    ensures
        names_requirement(strip_cr(l), t) == names_requirement(l, t),
{
    if l.len() > 0 && l.last() == '\r' {
        lemma_before_char_drop_last(l, '#');
        lemma_index_of_bounds(l, '#');
        if index_of(l, '#') == l.len() {
            lemma_trim_drop_white_last(l);
        }
    }
}

/// A line that removal keeps does not name the removed project, even read
/// back without a trailing carriage return.
proof fn lemma_kept_line_unnamed(l: Seq<char>, t: Seq<char>)
    requires
        keeps_line(l, t),
    ensures
        !names_requirement(strip_cr(l), t),
{
    lemma_names_strip_cr(l, t);
    let s = trim(before_char(l, '#'));
    if s.len() > 0 && pep508_name_of(s) == t {
        reveal_strlit("#");
        assert(starts_with(trim_start(l), "#"@));
        let i = lemma_trim_start_is_skip(l);
        assert(trim_start(l).take(1)[0] == '#');
        assert(l[i] == '#');
        lemma_index_of_unique(l, '#', i);
        assert forall|j: int| 0 <= j < l.take(i).len() implies is_white_space(#[trigger] l.take(i)[j]) by {
            assert(l.take(i)[j] == l[j]);
        }
        lemma_trim_all_white(l.take(i));
    }
}

proof fn lemma_kept_text_unlisted(ls: Seq<Seq<char>>, t: Seq<char>)
    requires
        forall|i: int, j: int| 0 <= i < ls.len() && 0 <= j < ls[i].len() ==> ls[i][j] != '\n',
    ensures
        !lists_requirement(lines(kept_text(ls, t)), t),
        kept_text(ls, t).len() == 0 || kept_text(ls, t).last() == '\n',
    decreases ls.len(),
{
    if ls.len() > 0 {
        let prev = ls.drop_last();
        assert forall|i: int, j: int| 0 <= i < prev.len() && 0 <= j < prev[i].len() implies prev[i][j] != '\n' by {
            assert(prev[i] == ls[i]);
        }
        lemma_kept_text_unlisted(prev, t);
        let kt = kept_text(prev, t);
        let l = ls.last();
        if keeps_line(l, t) {
            assert forall|j: int| 0 <= j < l.len() implies l[j] != '\n' by {
                assert(l == ls[ls.len() - 1]);
            }
            lemma_lines_concat(kt, l.push('\n'));
            lemma_lines_single(l);
            lemma_kept_line_unnamed(l, t);
            let all = lines(kept_text(ls, t));
            assert(all =~= lines(kt) + seq![strip_cr(l)]);
            if lists_requirement(all, t) {
                let i = choose|i: int| 0 <= i < all.len() && names_requirement(all[i], t);
                if i < lines(kt).len() {
                    assert(all[i] == lines(kt)[i]);
                }
            }
        } else {
            assert(kept_text(ls, t) =~= kt);
        }
    }
}

/// After `requirements_txt_add`, the package is listed: the text it returns
/// lists it, so that adding it again changes nothing. This holds of every
/// single-line package specifier that, read as a line, names its project.
pub proof fn lemma_requirements_add_lists(content: Seq<char>, package: Seq<char>)
    requires
        forall|j: int| 0 <= j < package.len() ==> package[j] != '\n',
        names_requirement(package, pep508_name_of(package)),
    ensures
        lists_requirement(lines(appended_requirement(content, package)), pep508_name_of(package)),
{
    let base = if content.len() > 0 && content.last() != '\n' {
        content.push('\n')
    } else {
        content
    };
    assert(appended_requirement(content, package) =~= base + package.push('\n'));
    lemma_lines_concat(base, package.push('\n'));
    lemma_lines_single(package);
    lemma_names_strip_cr(package, pep508_name_of(package));
    let ls = lines(appended_requirement(content, package));
    let w = lines(base).len() as int;
    assert(ls[w] == strip_cr(package));
    assert(names_requirement(ls[w], pep508_name_of(package)));
}

/// A one-line specifier without `#` that is not blank names its own
/// project when read as a line.
proof fn lemma_specifier_names_itself(package: Seq<char>)
    requires
        forall|j: int| 0 <= j < package.len() ==> package[j] != '#',
        trim(package).len() > 0,
    ensures
        names_requirement(package, pep508_name_of(package)),
{
    lemma_index_of_unique(package, '#', package.len() as int);
    assert(package.take(package.len() as int) =~= package);
    lemma_trim_before_char(package, ';');
}

/// Adding a package twice is adding it once: after the first
/// `requirements_txt_add` (whatever it returned), the text lists the
/// package, so the second returns `None` and changes nothing. This holds of
/// every package specifier without `#` or a line break that is not blank.
pub proof fn lemma_requirements_add_idempotent(content: Seq<char>, package: Seq<char>)
    requires
        forall|j: int| 0 <= j < package.len() ==> package[j] != '#' && package[j] != '\n',
        trim(package).len() > 0,
    ensures
        lists_requirement(
            lines(
                if lists_requirement(lines(content), pep508_name_of(package)) {
                    content
                } else {
                    appended_requirement(content, package)
                },
            ),
            pep508_name_of(package),
        ),
{
    lemma_specifier_names_itself(package);
    if !lists_requirement(lines(content), pep508_name_of(package)) {
        lemma_requirements_add_lists(content, package);
    }
}

/// After `requirements_txt_remove`, no line of the text it returns names the
/// removed project, whatever the text was.
pub proof fn lemma_requirements_remove_unlists(content: Seq<char>, package: Seq<char>)
    ensures
        !lists_requirement(lines(kept_text(lines(content), pep508_name_of(package))), pep508_name_of(package)),
{
    lemma_lines_no_break(content);
    lemma_kept_text_unlisted(lines(content), pep508_name_of(package));
}

/// Removal keeps a line exactly when its text before `#`, trimmed, is blank
/// or names another project (a line that starts a comment is blank there).
proof fn lemma_keeps_line_iff(l: Seq<char>, t: Seq<char>)
    ensures
        keeps_line(l, t) == (trim(before_char(l, '#')).len() == 0 || pep508_name_of(trim(before_char(l, '#'))) != t),
{
    reveal_strlit("#");
    if starts_with(trim_start(l), "#"@) {
        let i = lemma_trim_start_is_skip(l);
        assert(trim_start(l).take(1)[0] == '#');
        assert(l[i] == '#');
        lemma_index_of_unique(l, '#', i);
        assert forall|j: int| 0 <= j < l.take(i).len() implies is_white_space(#[trigger] l.take(i)[j]) by {
            assert(l.take(i)[j] == l[j]);
        }
        lemma_trim_all_white(l.take(i));
    }
}

proof fn lemma_kept_text_filter(ls: Seq<Seq<char>>, t: Seq<char>, keep: spec_fn(Seq<char>) -> bool)
    requires
        forall|l: Seq<char>| #[trigger] keep(l) == keeps_line(l, t),
    ensures
        kept_text(ls, t) == ls.filter(keep).map_values(|l: Seq<char>| l.push('\n')).flatten_alt(),
    decreases ls.len(),
{
    reveal(Seq::filter);
    if ls.len() > 0 {
        let prev = ls.drop_last();
        let last = ls.last();
        lemma_kept_text_filter(prev, t, keep);
        assert(prev.push(last) =~= ls);
        prev.lemma_filter_push(last, keep);
        let f = prev.filter(keep);
        if keep(last) {
            let m = f.push(last).map_values(|l: Seq<char>| l.push('\n'));
            assert(m =~= f.map_values(|l: Seq<char>| l.push('\n')).push(last.push('\n')));
            assert(m.drop_last() =~= f.map_values(|l: Seq<char>| l.push('\n')));
        } else {
            assert(kept_text(ls, t) =~= kept_text(prev, t));
        }
    }
}

/// Removal deletes exactly the lines that name the removed project: the text
/// it returns is the lines of `content` whose text before `#`, trimmed, is
/// blank or names another project, in order, each followed by a line break.
pub proof fn lemma_requirements_remove_keeps_others(content: Seq<char>, package: Seq<char>)
    ensures
        ({
            let t = pep508_name_of(package);
            let other = |l: Seq<char>|
                trim(before_char(l, '#')).len() == 0 || pep508_name_of(trim(before_char(l, '#'))) != t;
            kept_text(lines(content), t) == lines(content).filter(other).map_values(|l: Seq<char>| l.push('\n')).flatten()
        }),
{
    let t = pep508_name_of(package);
    let other = |l: Seq<char>| trim(before_char(l, '#')).len() == 0 || pep508_name_of(trim(before_char(l, '#'))) != t;
    assert forall|l: Seq<char>| #[trigger] other(l) == keeps_line(l, t) by {
        lemma_keeps_line_iff(l, t);
    }
    lemma_kept_text_filter(lines(content), t, other);
    lines(content).filter(other).map_values(|l: Seq<char>| l.push('\n')).lemma_flatten_and_flatten_alt_are_equivalent();
}

// ── The adapter ─────────────────────────────────────────────────────────────

/// The manifest a Python project is read from: `pyproject.toml` when the
/// project has one, else `requirements.txt`.
#[derive(Debug)]
pub enum PythonManifest {
    Pyproject(TomlValue),
    Requirements { dir_name: Option<String>, content: String },
}

/// The graph a Python manifest describes.
pub open spec fn python_manifest_graph(m: PythonManifest) -> crate::manifest::ManifestGraphView {
    match m {
        PythonManifest::Pyproject(doc) => graph_of(pyproject_root(doc), Ecosystem::PyPI, pyproject_deps(doc)),
        PythonManifest::Requirements { dir_name, content } => graph_of(
            requirements_root(
                match dir_name {
                    Some(n) => Some(n@),
                    None => None,
                },
            ),
            Ecosystem::PyPI,
            requirement_deps(lines(content@)),
        ),
    }
}

impl PypiAdapter {
    /// Which ecosystem this adapter handles.
    pub fn ecosystem(&self) -> (r: Ecosystem)
        ensures
            r == Ecosystem::PyPI,
    {
        Ecosystem::PyPI
    }

    /// The adapter's name.
    pub fn name(&self) -> (r: &'static str)
        ensures
            r@ == "pypi"@,
    {
        "pypi"
    }

    /// Builds the graph of a Python project's manifest.
    pub fn parse_manifest(&self, manifest: PythonManifest) -> (g: ManifestGraph)
        ensures
            g@ == python_manifest_graph(manifest),
    {
        match manifest {
            PythonManifest::Pyproject(doc) => parse_pyproject(&doc),
            PythonManifest::Requirements { dir_name, content } => parse_requirements_txt(dir_name, content.as_str()),
        }
    }
}

} // verus!
