//! Composer (`composer.json`).
use vstd::prelude::*;
use crate::docmodel::{
    JsonValue, JsonView, json_get, json_str, json_str_or, json_str_or_exec, json_str_exec, opt_ref, json_view, members_view,
    key_index, member_of, set_member, remove_member, lemma_object_view, lemma_key_index, find_member,
    distinct_keys, lemma_member_of_set, lemma_key_index_update, lemma_remove_member_absent, lemma_set_member_twice,
};
use crate::manifest::{
    ManifestGraph, RootSpec, Dep, DepEntry, ParseError, deps_view, graph_of, build_graph, lemma_deps_view_push,
    lemma_graph_of_shape, lemma_graph_of_root_package,
};
use crate::schema::version_id;
use crate::formats::{parse_json, parsed_json, pretty_json, render_json_pretty};
use crate::text::push_str;
use crate::schema::{DependencyKind, Ecosystem};
use crate::text::{starts_with, str_eq, str_starts_with, index_of, trim, chars_of, find_char_from, trim_bounds, string_from};

verus! {

broadcast use vstd::string::group_string_axioms;

/// The adapter for PHP projects managed by Composer.
pub struct ComposerAdapter;

/// PHP platform requirements (`php`, `ext-*`, `lib-*`), which are not packages.
pub open spec fn is_platform_requirement(name: Seq<char>) -> bool {
    name == "php"@ || starts_with(name, "ext-"@) || starts_with(name, "lib-"@)
}

/// The package requirements of one `require` object, platform ones skipped;
/// a constraint that is not a string is `*`.
pub open spec fn require_deps(members: Seq<(String, JsonValue)>, kind: DependencyKind) -> Seq<Dep>
    decreases members.len(),
{
    if members.len() == 0 {
        seq![]
    } else {
        let prev = require_deps(members.drop_last(), kind);
        let m = members.last();
        if is_platform_requirement(m.0@) {
            prev
        } else {
            prev.push(Dep { name: m.0@, req: json_str_or(Some(m.1), "*"@), kind })
        }
    }
}

/// The requirements of one section, none if it is not an object.
pub open spec fn composer_section(json: JsonValue, section: Seq<char>, kind: DependencyKind) -> Seq<Dep> {
    match json_get(json, section) {
        Some(JsonValue::Object(m)) => require_deps(m@, kind),
        _ => seq![],
    }
}

/// The dependencies of a `composer.json`: `require` (normal), then
/// `require-dev` (dev).
pub open spec fn composer_deps(json: JsonValue) -> Seq<Dep> {
    composer_section(json, "require"@, DependencyKind::Normal) + composer_section(
        json,
        "require-dev"@,
        DependencyKind::Dev,
    )
}

/// The root of a `composer.json`: name (else "unknown"), version (else
/// "0.0.0"), description.
pub open spec fn composer_root(json: JsonValue) -> RootSpec {
    RootSpec {
        name: json_str_or(json_get(json, "name"@), "unknown"@),
        semver: json_str_or(json_get(json, "version"@), "0.0.0"@),
        description: json_str(json_get(json, "description"@)),
    }
}

/// Whether `name` is a PHP platform requirement.
pub fn platform_requirement(name: &str) -> (r: bool)
    ensures
        r == is_platform_requirement(name@),
{
    str_eq(name, "php") || str_starts_with(name, "ext-") || str_starts_with(name, "lib-")
}

fn push_composer_section(json: &JsonValue, section: &str, kind: DependencyKind, out: &mut Vec<DepEntry>)
    ensures
        deps_view(final(out)@) == deps_view(old(out)@) + composer_section(*json, section@, kind),
{
    match json.get(section) {
        Some(JsonValue::Object(members)) => {
            let ghost base = deps_view(out@);
            let mut i: usize = 0;
            assert(members@.take(0) =~= Seq::<(String, JsonValue)>::empty());
            assert(base + require_deps(members@.take(0), kind) =~= base);
            while i < members.len()
                invariant
                    i <= members.len(),
                    deps_view(out@) == base + require_deps(members@.take(i as int), kind),
                decreases members.len() - i,
            {
                assert(members@.take(i + 1).drop_last() == members@.take(i as int));
                assert(members@.take(i + 1).last() == members@[i as int]);
                if !platform_requirement(members[i].0.as_str()) {
                    let req = json_str_or_exec(Some(&members[i].1), "*");
                    let d = DepEntry { name: members[i].0.clone(), req, kind };
                    let ghost prev = out@;
                    out.push(d);
                    proof {
                        lemma_deps_view_push(prev, d);
                    }
                }
                i = i + 1;
            }
            assert(members@.take(members.len() as int) == members@);
        },
        _ => {
            assert(deps_view(out@) + composer_section(*json, section@, kind) =~= deps_view(out@));
        },
    }
}

/// Builds the graph of a parsed `composer.json`.
pub fn parse_composer_json(json: &JsonValue) -> (g: ManifestGraph)
    ensures
        g@ == graph_of(composer_root(*json), Ecosystem::Composer, composer_deps(*json)),
{
    let root_name = json_str_or_exec(json.get("name"), "unknown");
    let root_version = json_str_or_exec(json.get("version"), "0.0.0");
    let description = json_str_exec(json.get("description"));
    let mut deps: Vec<DepEntry> = Vec::new();
    assert(deps_view(deps@) =~= Seq::<Dep>::empty());
    push_composer_section(json, "require", DependencyKind::Normal, &mut deps);
    push_composer_section(json, "require-dev", DependencyKind::Dev, &mut deps);
    assert(deps_view(deps@) =~= composer_deps(*json));
    build_graph(root_name.as_str(), root_version.as_str(), description, Ecosystem::Composer, &deps)
}

impl ComposerAdapter {
    /// Which ecosystem this adapter handles.
    pub fn ecosystem(&self) -> (r: Ecosystem)
        ensures
            r == Ecosystem::Composer,
    {
        Ecosystem::Composer
    }

    /// The adapter's name.
    pub fn name(&self) -> (r: &'static str)
        ensures
            r@ == "composer"@,
    {
        "composer"
    }

    /// Builds the graph of a parsed `composer.json`.
    pub fn parse_manifest(&self, json: &JsonValue) -> (g: ManifestGraph)
        ensures
            g@ == graph_of(composer_root(*json), Ecosystem::Composer, composer_deps(*json)),
    {
        parse_composer_json(json)
    }
}

// ── Editing ─────────────────────────────────────────────────────────────────

/// Why a `composer.json` could not be edited.
#[derive(Debug, Clone, Copy, PartialEq, Eq, Structural)]
pub enum ComposerEditError {
    /// composer.json root is not a JSON object
    RootNotObject,
    /// the require section is not a JSON object
    SectionNotObject,
}

/// The message of an edit that failed.
pub open spec fn composer_error_message(e: ComposerEditError) -> Seq<char> {
    match e {
        ComposerEditError::RootNotObject => "composer.json root is not a JSON object"@,
        ComposerEditError::SectionNotObject => "require section is not a JSON object"@,
    }
}

impl ComposerEditError {
    /// The message of this error.
    pub fn message(&self) -> (r: &'static str)
        ensures
            r@ == composer_error_message(*self),
    {
        match self {
            ComposerEditError::RootNotObject => "composer.json root is not a JSON object",
            ComposerEditError::SectionNotObject => "require section is not a JSON object",
        }
    }
}

/// The section a package is added to.
pub open spec fn composer_section_name(dev: bool) -> Seq<char> {
    if dev {
        "require-dev"@
    } else {
        "require"@
    }
}

/// `vendor/package:constraint` as (name, constraint), both trimmed; a
/// package without `:` has constraint `*`.
pub open spec fn composer_name_req(package: Seq<char>) -> (Seq<char>, Seq<char>) {
    let i = index_of(package, ':');
    if i < package.len() {
        (trim(package.take(i)), trim(package.skip(i + 1)))
    } else {
        (package, "*"@)
    }
}

/// `composer.json` after adding `package`: its section (created empty if
/// missing) maps the name to the constraint.
pub open spec fn composer_added(j: JsonView, package: Seq<char>, dev: bool) -> Result<JsonView, ComposerEditError> {
    match j {
        JsonView::Object(m) => {
            let section = composer_section_name(dev);
            let (name, req) = composer_name_req(package);
            let m1 = if member_of(m, section) is Some {
                m
            } else {
                m.push((section, JsonView::Object(seq![])))
            };
            match member_of(m1, section) {
                Some(JsonView::Object(sm)) => Ok(
                    JsonView::Object(
                        set_member(m1, section, JsonView::Object(set_member(sm, name, JsonView::String(req)))),
                    ),
                ),
                _ => Err(ComposerEditError::SectionNotObject),
            }
        },
        _ => Err(ComposerEditError::RootNotObject),
    }
}

/// The members with `package` removed from the section named `section`, if
/// that section is an object.
pub open spec fn strip_section(m: Seq<(Seq<char>, JsonView)>, section: Seq<char>, package: Seq<char>) -> Seq<
    (Seq<char>, JsonView),
> {
    match member_of(m, section) {
        Some(JsonView::Object(sm)) => m.update(
            key_index(m, section),
            (section, JsonView::Object(remove_member(sm, package))),
        ),
        _ => m,
    }
}

/// `composer.json` after removing `package` from `require` and `require-dev`.
pub open spec fn composer_removed(j: JsonView, package: Seq<char>) -> JsonView {
    match j {
        JsonView::Object(m) => JsonView::Object(
            strip_section(strip_section(m, "require"@, package), "require-dev"@, package),
        ),
        _ => j,
    }
}

/// Splits `vendor/package:constraint` into its trimmed parts.
fn split_package(package: &str) -> (r: (String, String))
    ensures
        (r.0@, r.1@) == composer_name_req(package@),
{
    let cs = chars_of(package);
    assert(cs@.skip(0) == cs@);
    let i = find_char_from(&cs, 0, ':');
    if i < cs.len() {
        let (a, b) = trim_bounds(&cs, 0, i);
        let (c, d) = trim_bounds(&cs, i + 1, cs.len());
        assert(cs@.take(i as int) == cs@.subrange(0, i as int));
        assert(cs@.skip(i + 1) == cs@.subrange(i + 1, cs.len() as int));
        (string_from(&cs, a, b), string_from(&cs, c, d))
    } else {
        proof {
            reveal_strlit("*");
        }
        (package.to_string(), "*".to_string())
    }
}

/// Sets `key` to `value` among `members`.
fn put_member(members: &mut Vec<(String, JsonValue)>, key: String, value: JsonValue)
    ensures
        members_view(final(members)@) == set_member(members_view(old(members)@), key@, json_view(value)),
{
    let ghost old_view = members_view(members@);
    let ghost k = key@;
    let ghost v = json_view(value);
    let i = find_member(members, key.as_str());
    if i < members.len() {
        members.set(i, (key, value));
        assert(members_view(members@) =~= old_view.update(i as int, (k, v)));
    } else {
        members.push((key, value));
        assert(members_view(members@) =~= old_view.push((k, v)));
    }
}

/// Add `package` (`vendor/package` or `vendor/package:constraint`) to
/// `require`, or to `require-dev` when `dev`.
pub fn composer_json_add(json: JsonValue, package: &str, dev: bool) -> (r: Result<JsonValue, ComposerEditError>)
    ensures
        match r {
            Ok(v) => composer_added(json@, package@, dev) == Ok::<JsonView, ComposerEditError>(v@),
            Err(e) => composer_added(json@, package@, dev) == Err::<JsonView, ComposerEditError>(e),
        },
{
    let ghost j = json@;
    let mut members = match json {
        JsonValue::Object(m) => m,
        _ => {
            return Err(ComposerEditError::RootNotObject);
        },
    };
    proof {
        lemma_object_view(members);
    }
    let ghost m = members_view(members@);
    let section = if dev {
        "require-dev"
    } else {
        "require"
    };
    let (name, req) = split_package(package);
    let mut i = find_member(&members, section);
    proof {
        lemma_key_index(m, section@);
    }
    if i == members.len() {
        let empty: Vec<(String, JsonValue)> = Vec::new();
        proof {
            lemma_object_view(empty);
            assert(members_view(empty@) =~= Seq::<(Seq<char>, JsonView)>::empty());
        }
        members.push((section.to_string(), JsonValue::Object(empty)));
        proof {
            assert(members_view(members@) =~= m.push((section@, JsonView::Object(seq![]))));
            lemma_key_index(members_view(members@), section@);
            crate::docmodel::lemma_key_index_unique(members_view(members@), section@, i as int);
        }
    }
    let ghost m1 = members_view(members@);
    proof {
        lemma_key_index(m1, section@);
        assert(key_index(m1, section@) == i);
    }
    let (k, v) = members.remove(i);
    let ghost rest = members@;
    match v {
        JsonValue::Object(mut sm) => {
            proof {
                lemma_object_view(sm);
            }
            let ghost smv = members_view(sm@);
            let ghost namev = name@;
            let ghost reqv = req@;
            put_member(&mut sm, name, JsonValue::String(req));
            proof {
                lemma_object_view(sm);
            }
            members.insert(i, (k, JsonValue::Object(sm)));
            proof {
                assert(members_view(members@) =~= m1.update(
                    i as int,
                    (section@, JsonView::Object(set_member(smv, namev, JsonView::String(reqv)))),
                ));
                lemma_object_view(members);
            }
            Ok(JsonValue::Object(members))
        },
        _ => Err(ComposerEditError::SectionNotObject),
    }
}

/// Removes `package` from the section named `section`, if it is an object.
fn strip_member(members: &mut Vec<(String, JsonValue)>, section: &str, package: &str)
    ensures
        members_view(final(members)@) == strip_section(members_view(old(members)@), section@, package@),
{
    let ghost m = members_view(members@);
    let i = find_member(members, section);
    proof {
        lemma_key_index(m, section@);
    }
    if i < members.len() {
        let is_object = match &members[i].1 {
            JsonValue::Object(_) => true,
            _ => false,
        };
        if is_object {
            let (k, v) = members.remove(i);
            match v {
                JsonValue::Object(mut sm) => {
                    proof {
                        lemma_object_view(sm);
                    }
                    let ghost smv = members_view(sm@);
                    let j = find_member(&sm, package);
                    if j < sm.len() {
                        sm.remove(j);
                        assert(members_view(sm@) =~= smv.remove(j as int));
                    }
                    proof {
                        lemma_object_view(sm);
                    }
                    members.insert(i, (k, JsonValue::Object(sm)));
                    assert(members_view(members@) =~= m.update(
                        i as int,
                        (section@, JsonView::Object(remove_member(smv, package@))),
                    ));
                },
                _ => {},
            }
        }
    }
}

/// Removes `package` from `require` and `require-dev`.
pub fn composer_json_remove(json: JsonValue, package: &str) -> (r: JsonValue)
    ensures
        r@ == composer_removed(json@, package@),
{
    match json {
        JsonValue::Object(mut members) => {
            proof {
                lemma_object_view(members);
            }
            strip_member(&mut members, "require", package);
            strip_member(&mut members, "require-dev", package);
            proof {
                lemma_object_view(members);
            }
            JsonValue::Object(members)
        },
        other => other,
    }
}

// ── composer.json as text ──────────────────────────────────────────────────

/// Parses the text of a `composer.json` and builds its graph; a text that is
/// not valid JSON is refused with the parser's message.
pub fn parse_composer_text(content: &str) -> (r: Result<ManifestGraph, ParseError>)
    ensures
        match parsed_json(content@) {
            Some(j) => r matches Ok(g) && g@ == graph_of(composer_root(j), Ecosystem::Composer, composer_deps(j)),
            None => r matches Err(e) && e.file@ == "composer.json"@,
        },
{
    match parse_json(content) {
        Ok(json) => Ok(parse_composer_json(&json)),
        Err(detail) => Err(ParseError::new("composer.json", detail)),
    }
}

/// Why a `composer.json` text could not be edited.
#[derive(Debug)]
pub enum ComposerFileError {
    /// The text is not valid JSON.
    Parse(ParseError),
    /// The document does not have the shape the edit needs.
    Edit(ComposerEditError),
}

impl ComposerFileError {
    /// The message of this error.
    pub fn message(&self) -> (r: String)
        ensures
            match self {
                ComposerFileError::Parse(e) => r@ == crate::manifest::parse_error_message(*e),
                ComposerFileError::Edit(e) => r@ == composer_error_message(*e),
            },
    {
        match self {
            ComposerFileError::Parse(e) => e.message(),
            ComposerFileError::Edit(e) => e.message().to_string(),
        }
    }
}

/// A JSON value in `serde_json`'s pretty form, ended by a line break.
fn pretty_text(v: &JsonValue) -> (r: String)
    ensures
        r@ == pretty_json(v@) + "\n"@,
{
    let mut s = render_json_pretty(v);
    push_str(&mut s, "\n");
    s
}

/// Adds `package` to the `composer.json` text `content` (see
/// `composer_json_add`) and returns the new text, pretty-printed.
pub fn composer_json_add_text(content: &str, package: &str, dev: bool) -> (r: Result<String, ComposerFileError>)
    ensures
        match parsed_json(content@) {
            None => r matches Err(ComposerFileError::Parse(e)) && e.file@ == "composer.json"@,
            Some(j) => match composer_added(j@, package@, dev) {
                Ok(j2) => r matches Ok(s) && s@ == pretty_json(j2) + "\n"@,
                Err(e) => r matches Err(ComposerFileError::Edit(x)) && x == e,
            },
        },
{
    let json = match parse_json(content) {
        Ok(j) => j,
        Err(detail) => {
            return Err(ComposerFileError::Parse(ParseError::new("composer.json", detail)));
        },
    };
    match composer_json_add(json, package, dev) {
        Ok(v) => Ok(pretty_text(&v)),
        Err(e) => Err(ComposerFileError::Edit(e)),
    }
}

/// Removes `package` from the `composer.json` text `content` (see
/// `composer_json_remove`) and returns the new text, pretty-printed.
pub fn composer_json_remove_text(content: &str, package: &str) -> (r: Result<String, ParseError>)
    ensures
        match parsed_json(content@) {
            None => r matches Err(e) && e.file@ == "composer.json"@,
            Some(j) => r matches Ok(s) && s@ == pretty_json(composer_removed(j@, package@)) + "\n"@,
        },
{
    match parse_json(content) {
        Ok(json) => {
            let v = composer_json_remove(json, package);
            Ok(pretty_text(&v))
        },
        Err(detail) => Err(ParseError::new("composer.json", detail)),
    }
}

// ── Laws of composer.json editing ──────────────────────────────────────────

/// The objects of a parsed `composer.json` hold each key once: the root and
/// each of its object members.
pub open spec fn composer_keys_distinct(j: JsonView) -> bool {
    match j {
        JsonView::Object(m) => distinct_keys(m) && forall|i: int|
            0 <= i < m.len() ==> (#[trigger] m[i].1 matches JsonView::Object(sm) ==> distinct_keys(sm)),
        _ => true,
    }
}

/// After a successful `composer_json_add`, the section it writes to maps the
/// package's name to its constraint.
pub proof fn lemma_composer_add_present(j: JsonView, package: Seq<char>, dev: bool)
    requires
        composer_added(j, package, dev) is Ok,
    ensures
        composer_added(j, package, dev) matches Ok(JsonView::Object(m)) && member_of(m, composer_section_name(dev))
            matches Some(JsonView::Object(sm)) && member_of(sm, composer_name_req(package).0) == Some(
            JsonView::String(composer_name_req(package).1),
        ),
{
    let section = composer_section_name(dev);
    let (name, req) = composer_name_req(package);
    if let JsonView::Object(m) = j {
        let m1 = if member_of(m, section) is Some {
            m
        } else {
            m.push((section, JsonView::Object(seq![])))
        };
        if let Some(JsonView::Object(sm)) = member_of(m1, section) {
            let inner = set_member(sm, name, JsonView::String(req));
            lemma_member_of_set(sm, name, JsonView::String(req));
            lemma_member_of_set(m1, section, JsonView::Object(inner));
        }
    }
}

/// Adding the same package twice is adding it once.
pub proof fn lemma_composer_add_idempotent(j: JsonView, package: Seq<char>, dev: bool)
    requires
        composer_added(j, package, dev) is Ok,
    ensures
        composer_added(j, package, dev) matches Ok(once) && composer_added(once, package, dev) == Ok::<
            JsonView,
            ComposerEditError,
        >(once),
{
    let section = composer_section_name(dev);
    let (name, req) = composer_name_req(package);
    if let JsonView::Object(m) = j {
        let m1 = if member_of(m, section) is Some {
            m
        } else {
            m.push((section, JsonView::Object(seq![])))
        };
        if let Some(JsonView::Object(sm)) = member_of(m1, section) {
            let inner = set_member(sm, name, JsonView::String(req));
            let m2 = set_member(m1, section, JsonView::Object(inner));
            lemma_member_of_set(m1, section, JsonView::Object(inner));
            lemma_set_member_twice(sm, name, JsonView::String(req));
            lemma_set_member_twice(m1, section, JsonView::Object(inner));
            assert(composer_added(JsonView::Object(m2), package, dev) == Ok::<JsonView, ComposerEditError>(
                JsonView::Object(m2),
            ));
        }
    }
}

/// Stripping one section leaves every other member as it was.
proof fn lemma_strip_section_other(m: Seq<(Seq<char>, JsonView)>, section: Seq<char>, package: Seq<char>, k: Seq<char>)
    requires
        k != section,
    ensures
        member_of(strip_section(m, section, package), k) == member_of(m, k),
        distinct_keys(m) ==> distinct_keys(strip_section(m, section, package)),
{
    lemma_key_index(m, section);
    lemma_key_index(m, k);
    if let Some(JsonView::Object(sm)) = member_of(m, section) {
        let i = key_index(m, section);
        lemma_key_index_update(m, i, JsonView::Object(remove_member(sm, package)), k);
        let u = strip_section(m, section, package);
        assert(u == m.update(i, (m[i].0, JsonView::Object(remove_member(sm, package)))));
        if key_index(m, k) < m.len() {
            assert(key_index(m, k) != i);
        }
    }
}

/// Stripping a section that holds each key once leaves no member `package`
/// in it.
proof fn lemma_strip_section_absent(m: Seq<(Seq<char>, JsonView)>, section: Seq<char>, package: Seq<char>)
    requires
        member_of(m, section) matches Some(JsonView::Object(sm)) ==> distinct_keys(sm),
    ensures
        member_of(strip_section(m, section, package), section) matches Some(JsonView::Object(sm)) ==> member_of(
            sm,
            package,
        ) is None,
{
    lemma_key_index(m, section);
    if let Some(JsonView::Object(sm)) = member_of(m, section) {
        let i = key_index(m, section);
        lemma_key_index_update(m, i, JsonView::Object(remove_member(sm, package)), section);
        lemma_remove_member_absent(sm, package);
    }
}

/// After `composer_json_remove`, neither `require` nor `require-dev` names
/// the package, for every `composer.json` whose objects hold each key once.
pub proof fn lemma_composer_remove_absent(j: JsonView, package: Seq<char>)
    requires
        composer_keys_distinct(j),
    ensures
        composer_removed(j, package) matches JsonView::Object(m) ==> {
            &&& member_of(m, "require"@) matches Some(JsonView::Object(sm)) ==> member_of(sm, package) is None
            &&& member_of(m, "require-dev"@) matches Some(JsonView::Object(sm)) ==> member_of(sm, package) is None
        },
{
    reveal_strlit("require");
    reveal_strlit("require-dev");
    assert("require"@ != "require-dev"@) by {
        assert("require"@.len() != "require-dev"@.len());
    }
    if let JsonView::Object(m0) = j {
        let req = "require"@;
        let dev = "require-dev"@;
        lemma_key_index(m0, req);
        lemma_key_index(m0, dev);
        lemma_strip_section_absent(m0, req, package);
        let m1 = strip_section(m0, req, package);
        lemma_strip_section_other(m0, req, package, dev);
        lemma_strip_section_absent(m1, dev, package);
        lemma_strip_section_other(m1, dev, package, req);
    }
}

/// The root version of a parsed `composer.json` is the string member
/// `version` when there is one, and `0.0.0` otherwise; its name is the string
/// member `name` (else `unknown`), and the root package carries the string
/// member `description` if there is one; every dependency edge leaves that
/// root version.
pub proof fn lemma_composer_root_version(json: JsonValue)
    ensures
        ({
            let g = graph_of(composer_root(json), Ecosystem::Composer, composer_deps(json));
            let semver = match json_get(json, "version"@) {
                Some(JsonValue::String(v)) => v@,
                _ => "0.0.0"@,
            };
            let name = match json_get(json, "name"@) {
                Some(JsonValue::String(n)) => n@,
                _ => "unknown"@,
            };
            &&& g.versions.len() >= 1
            &&& g.packages.len() >= 1
            &&& g.versions[0].semver == semver
            &&& g.packages[0].name == name
            &&& g.packages[0].description == match json_get(json, "description"@) {
                Some(JsonValue::String(d)) => Some(d@),
                _ => None,
            }
            &&& g.versions[0].name == name
            &&& forall|i: int|
                0 <= i < g.depends_on.len() ==> (#[trigger] g.depends_on[i]).from_id == version_id(
                    Ecosystem::Composer,
                    name,
                    semver,
                )
        }),
{
    lemma_graph_of_shape(composer_root(json), Ecosystem::Composer, composer_deps(json));
    lemma_graph_of_root_package(composer_root(json), Ecosystem::Composer, composer_deps(json));
}

} // verus!
