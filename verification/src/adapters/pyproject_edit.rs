//! Editing `pyproject.toml` in place with `toml_edit`, so that the user's
//! formatting and comments survive.
//!
//! The edits are stated over `EditItem`, the data that a `toml_edit` item
//! holds (formatting left out). The `toml_edit` calls are reached through
//! wrappers whose contracts describe, over that model, what the crate's
//! source does.
use vstd::prelude::*;
use crate::pep508::{parse_pep508, pep508_name, pep508_parts, pep508_name_of};
use crate::text::{str_eq, push_str};

verus! {

broadcast use vstd::string::group_string_axioms;

#[verifier::external_type_specification]
#[verifier::external_body]
pub struct ExDocumentMut(toml_edit::DocumentMut);

#[verifier::external_type_specification]
#[verifier::external_body]
pub struct ExItem(toml_edit::Item);

#[verifier::external_type_specification]
#[verifier::external_body]
pub struct ExArray(toml_edit::Array);

#[verifier::external_type_specification]
#[verifier::external_body]
pub struct ExValue(toml_edit::Value);

#[verifier::external_type_specification]
#[verifier::external_body]
pub struct ExTable(toml_edit::Table);

#[verifier::external_type_specification]
#[verifier::external_body]
pub struct ExTomlError(toml_edit::TomlError);

// ── The model ───────────────────────────────────────────────────────────────

/// The data of a `toml_edit` item (its formatting left out). `Absent` is an
/// empty slot, as a table entry created by indexing holds it until set.
pub enum EditItem {
    Absent,
    Str(Seq<char>),
    Integer(i64),
    Float(u64),
    Boolean(bool),
    Datetime(Seq<char>),
    Array(Seq<EditItem>),
    InlineTable(Seq<(Seq<char>, EditItem)>),
    Table(Seq<(Seq<char>, EditItem)>),
    ArrayOfTables(Seq<Seq<(Seq<char>, EditItem)>>),
}

/// The data that a document holds (its root item).
pub uninterp spec fn document_tree(d: toml_edit::DocumentMut) -> EditItem;

/// The text that a document renders to.
pub uninterp spec fn document_text(d: toml_edit::DocumentMut) -> Seq<char>;

/// The data of the document that `toml_edit` parses from a text, if the text
/// is valid TOML.
pub uninterp spec fn parsed_document(s: Seq<char>) -> Option<EditItem>;

/// The data an item holds.
pub uninterp spec fn item_tree(i: toml_edit::Item) -> EditItem;

/// The data a value holds.
pub uninterp spec fn value_tree(v: toml_edit::Value) -> EditItem;

/// The elements of an array, in order.
pub uninterp spec fn array_tree(a: toml_edit::Array) -> Seq<EditItem>;

/// The entries of a table, in order.
pub uninterp spec fn table_tree(t: toml_edit::Table) -> Seq<(Seq<char>, EditItem)>;

/// Whether an item is a plain value (not empty, not a table section, not
/// an array of tables).
pub open spec fn is_value(t: EditItem) -> bool {
    !(t is Absent || t is Table || t is ArrayOfTables)
}

/// Whether an item is a table or an inline table.
pub open spec fn is_table_like(t: EditItem) -> bool {
    t is Table || t is InlineTable
}

/// The entries of a table-like item.
pub open spec fn entries_of(t: EditItem) -> Seq<(Seq<char>, EditItem)> {
    match t {
        EditItem::Table(e) => e,
        EditItem::InlineTable(e) => e,
        _ => seq![],
    }
}

/// The same kind of table with other entries.
pub open spec fn with_entries(t: EditItem, e: Seq<(Seq<char>, EditItem)>) -> EditItem {
    match t {
        EditItem::Table(_) => EditItem::Table(e),
        EditItem::InlineTable(_) => EditItem::InlineTable(e),
        _ => t,
    }
}

/// Index of the first entry with key `k`, or the number of entries.
pub open spec fn entry_index(e: Seq<(Seq<char>, EditItem)>, k: Seq<char>) -> int
    decreases e.len(),
{
    if e.len() == 0 {
        0
    } else if e[0].0 == k {
        0
    } else {
        1 + entry_index(e.drop_first(), k)
    }
}

/// What `Item::get(key)` finds: a non-empty entry of a table-like item.
pub open spec fn present_child(t: EditItem, k: Seq<char>) -> Option<EditItem> {
    let e = entries_of(t);
    if is_table_like(t) && entry_index(e, k) < e.len() && !(e[entry_index(e, k)].1 is Absent) {
        Some(e[entry_index(e, k)].1)
    } else {
        None
    }
}

/// Whether indexing an item mutably by a key succeeds.
pub open spec fn index_mut_allowed(t: EditItem) -> bool {
    t is Absent || is_table_like(t)
}

/// The item after mutable indexing by `k` made room for `k`: an empty item
/// becomes an inline table with an empty `k`, a table without `k` gets an
/// empty `k` at its end.
pub open spec fn vivified(t: EditItem, k: Seq<char>) -> EditItem {
    match t {
        EditItem::Absent => EditItem::InlineTable(seq![(k, EditItem::Absent)]),
        EditItem::Table(e) => if entry_index(e, k) < e.len() {
            t
        } else {
            EditItem::Table(e.push((k, EditItem::Absent)))
        },
        EditItem::InlineTable(e) => if entry_index(e, k) < e.len() {
            t
        } else {
            EditItem::InlineTable(e.push((k, EditItem::Absent)))
        },
        _ => t,
    }
}

/// The entry `k` of a table-like item that has it.
pub open spec fn slot(t: EditItem, k: Seq<char>) -> EditItem {
    entries_of(t)[entry_index(entries_of(t), k)].1
}

/// A table-like item with its entry `k` replaced by `c`.
pub open spec fn with_slot(t: EditItem, k: Seq<char>, c: EditItem) -> EditItem {
    with_entries(t, entries_of(t).update(entry_index(entries_of(t), k), (k, c)))
}

/// The keys of the non-empty entries, in order (what `Table::iter` yields).
pub open spec fn present_keys(e: Seq<(Seq<char>, EditItem)>) -> Seq<Seq<char>>
    decreases e.len(),
{
    if e.len() == 0 {
        seq![]
    } else if e.last().1 is Absent {
        present_keys(e.drop_last())
    } else {
        present_keys(e.drop_last()).push(e.last().0)
    }
}

/// The entries without the one keyed `k`.
pub open spec fn remove_key(e: Seq<(Seq<char>, EditItem)>, k: Seq<char>) -> Seq<(Seq<char>, EditItem)> {
    if entry_index(e, k) < e.len() {
        e.remove(entry_index(e, k))
    } else {
        e
    }
}

pub proof fn lemma_entry_index(e: Seq<(Seq<char>, EditItem)>, k: Seq<char>)
    ensures
        0 <= entry_index(e, k) <= e.len(),
        entry_index(e, k) < e.len() ==> e[entry_index(e, k)].0 == k,
    decreases e.len(),
{
    if e.len() > 0 && e[0].0 != k {
        lemma_entry_index(e.drop_first(), k);
    }
}

/// Indexing by a key that is present changes nothing.
pub proof fn lemma_vivified_present(t: EditItem, k: Seq<char>)
    requires
        present_child(t, k) is Some,
    ensures
        vivified(t, k) == t,
        slot(t, k) == present_child(t, k)->Some_0,
{
}

/// After indexing, the key is there.
pub proof fn lemma_vivified_has_slot(t: EditItem, k: Seq<char>)
    requires
        index_mut_allowed(t),
    ensures
        is_table_like(vivified(t, k)),
        entry_index(entries_of(vivified(t, k)), k) < entries_of(vivified(t, k)).len(),
        slot(vivified(t, k), k) == (match present_child(t, k) {
            Some(c) => c,
            None => EditItem::Absent,
        }),
{
    lemma_entry_index(entries_of(t), k);
    let v = vivified(t, k);
    match t {
        EditItem::Absent => {
            assert(entries_of(v)[0].0 == k);
            assert(entry_index(entries_of(v), k) == 0);
        },
        _ => {
            let e = entries_of(t);
            if entry_index(e, k) >= e.len() {
                let e2 = e.push((k, EditItem::Absent));
                lemma_entry_index_push(e, k);
                assert(entry_index(e2, k) == e.len());
            }
        },
    }
}

proof fn lemma_entry_index_push(e: Seq<(Seq<char>, EditItem)>, k: Seq<char>)
    requires
        entry_index(e, k) >= e.len(),
    ensures
        entry_index(e.push((k, EditItem::Absent)), k) == e.len(),
    decreases e.len(),
{
    let e2 = e.push((k, EditItem::Absent));
    if e.len() > 0 {
        assert(e[0].0 != k);
        assert(e2[0] == e[0]);
        assert(e2.drop_first() == e.drop_first().push((k, EditItem::Absent)));
        lemma_entry_index_push(e.drop_first(), k);
    } else {
        assert(e2[0].0 == k);
    }
}

// ── Wrappers over toml_edit ─────────────────────────────────────────────────

/// Calls `<toml_edit::DocumentMut as FromStr>::from_str`. It succeeds exactly
/// on the texts that `toml_edit` parses, and a parsed document's root is a table.
#[verifier::external_body]
fn parse_document(s: &str) -> (r: Result<toml_edit::DocumentMut, toml_edit::TomlError>)
    ensures
        r is Ok <==> parsed_document(s@) is Some,
        r matches Ok(d) ==> parsed_document(s@) == Some(document_tree(d)),
        r matches Ok(d) ==> document_tree(d) is Table,
{
    s.parse::<toml_edit::DocumentMut>()
}

/// Calls `<toml_edit::DocumentMut as Display>::fmt` (through `to_string`):
/// the document's text.
#[verifier::external_body]
fn render_document(d: &toml_edit::DocumentMut) -> (r: String)
    ensures
        r@ == document_text(*d),
{
    d.to_string()
}

/// Calls `<toml_edit::TomlError as Display>::fmt` (through `to_string`); the
/// wording of the message is not stated.
#[verifier::external_body]
fn toml_error_message(e: &toml_edit::TomlError) -> (r: String) {
    e.to_string()
}

/// Calls `DocumentMut::as_item`: the root item.
#[verifier::external_body]
fn document_root<'a>(d: &'a toml_edit::DocumentMut) -> (r: &'a toml_edit::Item)
    ensures
        item_tree(*r) == document_tree(*d),
{
    d.as_item()
}

/// Calls `DocumentMut::as_item_mut`: the root item, borrowed mutably.
#[verifier::external_body]
fn document_root_mut<'a>(d: &'a mut toml_edit::DocumentMut) -> (r: &'a mut toml_edit::Item)
    ensures
        item_tree(*r) == document_tree(*old(d)),
        document_tree(*final(d)) == item_tree(*final(r)),
{
    d.as_item_mut()
}

/// Calls `Item::get` with a key: the non-empty entry `key` of a table or
/// inline table, nothing otherwise.
#[verifier::external_body]
fn item_get<'a>(i: &'a toml_edit::Item, key: &str) -> (r: Option<&'a toml_edit::Item>)
    ensures
        match r {
            Some(c) => present_child(item_tree(*i), key@) == Some(item_tree(*c)),
            None => present_child(item_tree(*i), key@) is None,
        },
{
    i.get(key)
}

/// Calls `Item::is_table_like`: whether the item is a table or inline table.
#[verifier::external_body]
fn item_is_table_like(i: &toml_edit::Item) -> (r: bool)
    ensures
        r == is_table_like(item_tree(*i)),
{
    i.is_table_like()
}

/// Calls `<Item as IndexMut<&str>>::index_mut`: makes room for `key` (an
/// empty item becomes an inline table, a missing key gets an empty entry) and
/// borrows that entry. It panics on other items, which `requires` leaves out.
#[verifier::external_body]
fn item_index_mut<'a>(i: &'a mut toml_edit::Item, key: &str) -> (r: &'a mut toml_edit::Item)
    requires
        index_mut_allowed(item_tree(*old(i))),
    ensures
        item_tree(*r) == slot(vivified(item_tree(*old(i)), key@), key@),
        item_tree(*final(i)) == with_slot(vivified(item_tree(*old(i)), key@), key@, item_tree(*final(r))),
{
    &mut i[key]
}

/// Calls `Item::as_array_mut`: the array held by a value item, borrowed
/// mutably.
#[verifier::external_body]
fn item_as_array_mut<'a>(i: &'a mut toml_edit::Item) -> (r: Option<&'a mut toml_edit::Array>)
    ensures
        match r {
            Some(a) => item_tree(*old(i)) == EditItem::Array(array_tree(*a)) && item_tree(*final(i))
                == EditItem::Array(array_tree(*final(a))),
            None => !(item_tree(*old(i)) is Array) && item_tree(*final(i)) == item_tree(*old(i)),
        },
{
    i.as_array_mut()
}

/// Calls `Value::as_str`: the string a string value holds.
#[verifier::external_body]
fn value_as_str<'a>(v: &'a toml_edit::Value) -> (r: Option<&'a str>)
    ensures
        match r {
            Some(s) => value_tree(*v) == EditItem::Str(s@),
            None => !(value_tree(*v) is Str),
        },
{
    v.as_str()
}

/// Calls `Array::iter().any(..)` with a test that `value_names` makes:
/// whether some value element is a string specifier for `target`.
#[verifier::external_body]
fn array_any_names(a: &toml_edit::Array, target: &str) -> (r: bool)
    ensures
        r == lists_project(array_tree(*a), target@),
{
    a.iter().any(|v| value_names(v, target))
}

/// Calls `Array::push` with a string: appends a string element.
#[verifier::external_body]
fn array_push_str(a: &mut toml_edit::Array, s: &str)
    ensures
        array_tree(*final(a)) == array_tree(*old(a)).push(EditItem::Str(s@)),
{
    a.push(s);
}

/// Calls `Array::retain` with a test that `value_kept` makes: keeps, in
/// order, the value elements that are not string specifiers for `target`.
#[verifier::external_body]
fn array_retain_others(a: &mut toml_edit::Array, target: &str)
    ensures
        array_tree(*final(a)) == retained(array_tree(*old(a)), target@),
{
    a.retain(|v| value_kept(v, target));
}

/// Sets an item to a string value (`*item = toml_edit::value(s)`).
#[verifier::external_body]
fn item_set_str(i: &mut toml_edit::Item, s: &str)
    ensures
        item_tree(*final(i)) == EditItem::Str(s@),
{
    *i = toml_edit::value(s);
}

/// Calls `Item::as_table`: the table of a table item (not an inline table).
#[verifier::external_body]
fn item_as_table<'a>(i: &'a toml_edit::Item) -> (r: Option<&'a toml_edit::Table>)
    ensures
        match r {
            Some(t) => item_tree(*i) == EditItem::Table(table_tree(*t)),
            None => !(item_tree(*i) is Table),
        },
{
    i.as_table()
}

/// Calls `Table::iter` for the keys: the keys of the non-empty entries, in order.
#[verifier::external_body]
fn table_keys(t: &toml_edit::Table) -> (r: Vec<String>)
    ensures
        r@.map_values(|k: String| k@) == present_keys(table_tree(*t)),
{
    t.iter().map(|(k, _)| k.to_string()).collect()
}

/// Calls `Item::as_table_mut`: the table of a table item, borrowed mutably.
#[verifier::external_body]
fn item_as_table_mut<'a>(i: &'a mut toml_edit::Item) -> (r: Option<&'a mut toml_edit::Table>)
    ensures
        match r {
            Some(t) => item_tree(*old(i)) == EditItem::Table(table_tree(*t)) && item_tree(*final(i))
                == EditItem::Table(table_tree(*final(t))),
            None => !(item_tree(*old(i)) is Table) && item_tree(*final(i)) == item_tree(*old(i)),
        },
{
    i.as_table_mut()
}

/// Calls `Table::remove`: removes the entry keyed `key`, keeping the order
/// of the others.
#[verifier::external_body]
fn table_remove(t: &mut toml_edit::Table, key: &str)
    ensures
        table_tree(*final(t)) == remove_key(table_tree(*old(t)), key@),
{
    t.remove(key);
}

// ── What the edits do ───────────────────────────────────────────────────────

/// Whether an element is a string specifier for the project `target`.
pub open spec fn names_project(v: EditItem, target: Seq<char>) -> bool {
    v matches EditItem::Str(s) && pep508_name_of(s) == target
}

/// Whether some element is a string specifier for `target`.
pub open spec fn lists_project(xs: Seq<EditItem>, target: Seq<char>) -> bool {
    exists|i: int| 0 <= i < xs.len() && #[trigger] names_project(xs[i], target)
}

/// The value elements that are not specifiers for `target`, in order.
pub open spec fn retained(xs: Seq<EditItem>, target: Seq<char>) -> Seq<EditItem> {
    xs.filter(|v: EditItem| is_value(v) && !names_project(v, target))
}

/// Whether a value is a string specifier for `target`.
pub fn value_names(v: &toml_edit::Value, target: &str) -> (r: bool)
    ensures
        r == names_project(value_tree(*v), target@),
{
    match value_as_str(v) {
        Some(s) => {
            let n = pep508_name(s);
            str_eq(n.as_str(), target)
        },
        None => false,
    }
}

/// Whether removing `target` keeps a value (it is no string specifier for it).
pub fn value_kept(v: &toml_edit::Value, target: &str) -> (r: bool)
    ensures
        r == !names_project(value_tree(*v), target@),
{
    !value_names(v, target)
}

/// An array item with `package` appended unless it already lists the same
/// project; any other item unchanged.
pub open spec fn added_to_array(arr: EditItem, package: Seq<char>) -> EditItem {
    match arr {
        EditItem::Array(xs) => if lists_project(xs, pep508_name_of(package)) {
            arr
        } else {
            EditItem::Array(xs.push(EditItem::Str(package)))
        },
        _ => arr,
    }
}

/// An array item without specifiers for `target`; any other item unchanged.
pub open spec fn filtered_item(v: EditItem, target: Seq<char>) -> EditItem {
    match v {
        EditItem::Array(xs) => EditItem::Array(retained(xs, target)),
        _ => v,
    }
}

pub open spec fn project_present(root: EditItem) -> bool {
    present_child(root, "project"@) is Some
}

pub open spec fn poetry_present(root: EditItem) -> bool {
    present_child(root, "tool"@) matches Some(tool) && present_child(tool, "poetry"@) is Some
}

/// The Poetry section a package goes to.
pub open spec fn poetry_section_name(dev: bool) -> Seq<char> {
    if dev {
        "dev-dependencies"@
    } else {
        "dependencies"@
    }
}

/// The inputs on which adding edits without failing: the root is a table;
/// with `[project]`, that is a table holding `dependencies` (or, for dev,
/// `optional-dependencies` as a table holding `dev`); with Poetry, its table
/// holds the section as a table, or not at all.
pub open spec fn pyproject_add_allowed(root: EditItem, package: Seq<char>, dev: bool) -> bool {
    &&& root is Table
    &&& if project_present(root) {
        let p = slot(root, "project"@);
        if dev {
            &&& is_table_like(p)
            &&& present_child(p, "optional-dependencies"@) is Some
            &&& is_table_like(slot(p, "optional-dependencies"@))
            &&& present_child(slot(p, "optional-dependencies"@), "dev"@) is Some
        } else {
            is_table_like(p) && present_child(p, "dependencies"@) is Some
        }
    } else if poetry_present(root) {
        let po = slot(slot(root, "tool"@), "poetry"@);
        is_table_like(po) && match present_child(po, poetry_section_name(dev)) {
            Some(s) => is_table_like(s),
            None => true,
        }
    } else {
        true
    }
}

/// The document after adding `package`: to `[project] dependencies` (or the
/// `dev` optional group) unless listed already; else to the Poetry section,
/// keyed by the normalized name with the constraint as value. `None` when
/// the document has neither `[project]` nor `[tool.poetry]`.
pub open spec fn pyproject_added(root: EditItem, package: Seq<char>, dev: bool) -> Option<EditItem> {
    if project_present(root) {
        let p = slot(root, "project"@);
        if dev {
            let o = slot(p, "optional-dependencies"@);
            let d = slot(o, "dev"@);
            Some(
                with_slot(
                    root,
                    "project"@,
                    with_slot(p, "optional-dependencies"@, with_slot(o, "dev"@, added_to_array(d, package))),
                ),
            )
        } else {
            let d = slot(p, "dependencies"@);
            Some(with_slot(root, "project"@, with_slot(p, "dependencies"@, added_to_array(d, package))))
        }
    } else if poetry_present(root) {
        let name = pep508_parts(package).0;
        let req = pep508_parts(package).1;
        let section = poetry_section_name(dev);
        let tool = slot(root, "tool"@);
        let po = vivified(slot(tool, "poetry"@), section);
        let sec = vivified(slot(po, section), name);
        Some(
            with_slot(
                root,
                "tool"@,
                with_slot(tool, "poetry"@, with_slot(po, section, with_slot(sec, name, EditItem::Str(req)))),
            ),
        )
    } else {
        None
    }
}

/// The optional-dependency groups after filtering the groups `keys` in turn.
pub open spec fn filter_groups(o: EditItem, keys: Seq<Seq<char>>, target: Seq<char>) -> EditItem
    decreases keys.len(),
{
    if keys.len() == 0 {
        o
    } else {
        let prev = vivified(filter_groups(o, keys.drop_last(), target), keys.last());
        with_slot(prev, keys.last(), filtered_item(slot(prev, keys.last()), target))
    }
}

/// A Poetry table after removing `target` from one section (made room for,
/// and stripped if it is a table).
pub open spec fn strip_poetry_section(po: EditItem, section: Seq<char>, target: Seq<char>) -> EditItem {
    let v = vivified(po, section);
    let s = slot(v, section);
    with_slot(
        v,
        section,
        match s {
            EditItem::Table(e) => EditItem::Table(remove_key(e, target)),
            _ => s,
        },
    )
}

/// The inputs on which removing edits without failing: the root is a table;
/// `[project]` is a table holding `optional-dependencies`; a Poetry table is
/// table-like.
pub open spec fn pyproject_remove_allowed(root: EditItem) -> bool {
    &&& root is Table
    &&& if project_present(root) {
        let p = slot(root, "project"@);
        is_table_like(p) && present_child(p, "optional-dependencies"@) is Some
    } else if poetry_present(root) {
        is_table_like(slot(slot(root, "tool"@), "poetry"@))
    } else {
        true
    }
}

/// The document after removing the project `target` from `[project]
/// dependencies` and every optional group, or else from the Poetry
/// `dependencies` and `dev-dependencies` tables.
pub open spec fn pyproject_removed(root: EditItem, target: Seq<char>) -> EditItem {
    if project_present(root) {
        let p = slot(root, "project"@);
        let p1 = vivified(p, "dependencies"@);
        let p2 = with_slot(p1, "dependencies"@, filtered_item(slot(p1, "dependencies"@), target));
        let o = slot(p2, "optional-dependencies"@);
        let keys = match o {
            EditItem::Table(e) => present_keys(e),
            _ => seq![],
        };
        with_slot(root, "project"@, with_slot(p2, "optional-dependencies"@, filter_groups(o, keys, target)))
    } else if poetry_present(root) {
        let tool = slot(root, "tool"@);
        let po = slot(tool, "poetry"@);
        with_slot(
            root,
            "tool"@,
            with_slot(
                tool,
                "poetry"@,
                strip_poetry_section(strip_poetry_section(po, "dependencies"@, target), "dev-dependencies"@, target),
            ),
        )
    } else {
        root
    }
}

// ── Lemmas on keys ──────────────────────────────────────────────────────────

proof fn lemma_entry_index_same_keys(e1: Seq<(Seq<char>, EditItem)>, e2: Seq<(Seq<char>, EditItem)>, k: Seq<char>)
    requires
        e1.len() == e2.len(),
        forall|j: int| 0 <= j < e1.len() ==> e1[j].0 == e2[j].0,
    ensures
        entry_index(e1, k) == entry_index(e2, k),
    decreases e1.len(),
{
    if e1.len() > 0 {
        assert(e1[0].0 == e2[0].0);
        assert forall|j: int| 0 <= j < e1.drop_first().len() implies e1.drop_first()[j].0 == e2.drop_first()[j].0 by {
            assert(e1.drop_first()[j] == e1[j + 1]);
            assert(e2.drop_first()[j] == e2[j + 1]);
        }
        lemma_entry_index_same_keys(e1.drop_first(), e2.drop_first(), k);
    }
}

proof fn lemma_entry_index_push_other(e: Seq<(Seq<char>, EditItem)>, k: Seq<char>, k2: Seq<char>, v: EditItem)
    requires
        k != k2,
    ensures
        entry_index(e, k) < e.len() ==> entry_index(e.push((k2, v)), k) == entry_index(e, k),
        entry_index(e, k) >= e.len() ==> entry_index(e.push((k2, v)), k) >= e.len() + 1,
    decreases e.len(),
{
    let e2 = e.push((k2, v));
    if e.len() > 0 {
        assert(e2[0] == e[0]);
        assert(e2.drop_first() == e.drop_first().push((k2, v)));
        if e[0].0 != k {
            lemma_entry_index_push_other(e.drop_first(), k, k2, v);
        }
    } else {
        assert(e2[0].0 == k2);
        assert(e2[0].0 != k);
        assert(e2.drop_first().len() == 0);
        assert(entry_index(e2.drop_first(), k) == 0);
        assert(entry_index(e2, k) == 1 + entry_index(e2.drop_first(), k));
    }
}

/// Making room for and replacing entry `k1` leaves every other key as it was.
pub proof fn lemma_other_key(t: EditItem, k1: Seq<char>, k2: Seq<char>, c: EditItem)
    requires
        index_mut_allowed(t),
        k1 != k2,
    ensures
        present_child(with_slot(vivified(t, k1), k1, c), k2) == present_child(t, k2),
{
    let e = entries_of(t);
    let v = vivified(t, k1);
    let ev = entries_of(v);
    lemma_entry_index(e, k1);
    lemma_vivified_has_slot(t, k1);
    let i = entry_index(ev, k1);
    let ew = ev.update(i, (k1, c));
    lemma_entry_index(ev, k1);
    assert forall|j: int| 0 <= j < ev.len() implies ev[j].0 == ew[j].0 by {}
    lemma_entry_index_same_keys(ev, ew, k2);
    if entry_index(e, k1) >= e.len() {
        lemma_entry_index_push_other(e, k2, k1, EditItem::Absent);
        assert(ev =~= e.push((k1, EditItem::Absent)));
    }
    lemma_entry_index(e, k2);
    lemma_entry_index(ev, k2);
    if entry_index(e, k2) < e.len() {
        assert(ev[entry_index(e, k2)] == e[entry_index(e, k2)]);
    }
    if entry_index(ev, k2) < ev.len() {
        assert(entry_index(ev, k2) != i);
        assert(ew[entry_index(ev, k2)] == ev[entry_index(ev, k2)]);
    }
}

// ── The edits ───────────────────────────────────────────────────────────────

/// Why a `pyproject.toml` edit failed.
#[derive(Debug)]
pub enum PyprojectEditError {
    /// The text is not valid TOML; holds the parser's message.
    InvalidToml(String),
    /// No `[project]` or `[tool.poetry]` section found.
    Unsupported,
    /// A section that the edit goes through does not have the needed shape
    /// (see `pyproject_add_allowed` and `pyproject_remove_allowed`).
    NotEditable,
}

/// The message of a failed edit.
pub open spec fn pyproject_error_message(e: PyprojectEditError) -> Seq<char> {
    match e {
        PyprojectEditError::InvalidToml(m) => "parsing pyproject.toml: "@ + m@,
        PyprojectEditError::Unsupported => "unsupported pyproject.toml — no [project] or [tool.poetry] section found"@,
        PyprojectEditError::NotEditable => "pyproject.toml: a section on the way to the dependency list is missing or not a table"@,
    }
}

impl PyprojectEditError {
    /// The message of this error.
    pub fn message(&self) -> (r: String)
        ensures
            r@ == pyproject_error_message(*self),
    {
        match self {
            PyprojectEditError::InvalidToml(m) => {
                let mut s = "parsing pyproject.toml: ".to_string();
                push_str(&mut s, m.as_str());
                s
            },
            PyprojectEditError::Unsupported => "unsupported pyproject.toml — no [project] or [tool.poetry] section found".to_string(),
            PyprojectEditError::NotEditable => "pyproject.toml: a section on the way to the dependency list is missing or not a table".to_string(),
        }
    }
}

/// Appends `package` to an array item unless it lists the same project.
fn add_to_array_item(item: &mut toml_edit::Item, package: &str, target: &str)
    requires
        target@ == pep508_name_of(package@),
    ensures
        item_tree(*final(item)) == added_to_array(item_tree(*old(item)), package@),
{
    match item_as_array_mut(item) {
        Some(arr) => {
            if !array_any_names(arr, target) {
                array_push_str(arr, package);
            }
        },
        None => {},
    }
}

/// Drops the specifiers for `target` from an array item.
fn filter_array_item(item: &mut toml_edit::Item, target: &str)
    ensures
        item_tree(*final(item)) == filtered_item(item_tree(*old(item)), target@),
{
    match item_as_array_mut(item) {
        Some(arr) => {
            array_retain_others(arr, target);
        },
        None => {},
    }
}

/// Adds `package` to a parsed `pyproject.toml`: with `[project]` (PEP 621),
/// to `dependencies` or, for dev, the `dev` optional group, unless already
/// listed; with `[tool.poetry]`, as `name = "constraint"` in `dependencies` or
/// `dev-dependencies`.
pub fn pyproject_add_document(doc: &mut toml_edit::DocumentMut, package: &str, dev: bool) -> (r: Result<
    (),
    PyprojectEditError,
>)
    requires
        pyproject_add_allowed(document_tree(*old(doc)), package@, dev),
    ensures
        match pyproject_added(document_tree(*old(doc)), package@, dev) {
            Some(t) => r is Ok && document_tree(*final(doc)) == t,
            None => r matches Err(PyprojectEditError::Unsupported) && document_tree(*final(doc)) == document_tree(
                *old(doc),
            ),
        },
{
    let root = document_root_mut(doc);
    let ghost t0 = item_tree(*root);
    if item_get(&*root, "project").is_some() {
        proof {
            lemma_vivified_present(t0, "project"@);
        }
        let target = pep508_name(package);
        let project = item_index_mut(root, "project");
        let ghost p = item_tree(*project);
        if dev {
            proof {
                lemma_vivified_present(p, "optional-dependencies"@);
            }
            let opt = item_index_mut(project, "optional-dependencies");
            proof {
                lemma_vivified_present(item_tree(*opt), "dev"@);
            }
            let devs = item_index_mut(opt, "dev");
            add_to_array_item(devs, package, target.as_str());
        } else {
            proof {
                lemma_vivified_present(p, "dependencies"@);
            }
            let deps = item_index_mut(project, "dependencies");
            add_to_array_item(deps, package, target.as_str());
        }
        Ok(())
    } else {
        let has_poetry = match item_get(&*root, "tool") {
            Some(tool) => item_get(tool, "poetry").is_some(),
            None => false,
        };
        if has_poetry {
            let (name, req) = parse_pep508(package);
            let section = if dev {
                "dev-dependencies"
            } else {
                "dependencies"
            };
            proof {
                lemma_vivified_present(t0, "tool"@);
            }
            let tool = item_index_mut(root, "tool");
            proof {
                lemma_vivified_present(item_tree(*tool), "poetry"@);
            }
            let po = item_index_mut(tool, "poetry");
            proof {
                lemma_vivified_has_slot(item_tree(*po), section@);
            }
            let sec = item_index_mut(po, section);
            let slot_item = item_index_mut(sec, name.as_str());
            item_set_str(slot_item, req.as_str());
            Ok(())
        } else {
            Err(PyprojectEditError::Unsupported)
        }
    }
}

/// Filters the groups named `keys` of an optional-dependencies item in turn.
fn filter_group_items(opt: &mut toml_edit::Item, keys: &Vec<String>, target: &str)
    requires
        keys@.len() > 0 ==> is_table_like(item_tree(*old(opt))),
    ensures
        item_tree(*final(opt)) == filter_groups(
            item_tree(*old(opt)),
            keys@.map_values(|k: String| k@),
            target@,
        ),
{
    let ghost o0 = item_tree(*opt);
    let ghost kv = keys@.map_values(|k: String| k@);
    let mut i: usize = 0;
    assert(kv.take(0) =~= Seq::<Seq<char>>::empty());
    while i < keys.len()
        invariant
            i <= keys.len(),
            kv == keys@.map_values(|k: String| k@),
            item_tree(*opt) == filter_groups(o0, kv.take(i as int), target@),
            keys@.len() > 0 ==> is_table_like(item_tree(*opt)),
        decreases keys.len() - i,
    {
        assert(kv.take(i + 1).drop_last() == kv.take(i as int));
        assert(kv.take(i + 1).last() == keys@[i as int]@);
        proof {
            lemma_vivified_has_slot(item_tree(*opt), keys@[i as int]@);
        }
        let g = item_index_mut(opt, keys[i].as_str());
        filter_array_item(g, target);
        i = i + 1;
    }
    assert(kv.take(keys.len() as int) == kv);
}

/// The keys of the optional-dependency groups, if they form a table section.
fn group_keys(opt: &toml_edit::Item) -> (r: Vec<String>)
    ensures
        r@.map_values(|k: String| k@) == match item_tree(*opt) {
            EditItem::Table(e) => present_keys(e),
            _ => seq![],
        },
{
    match item_as_table(opt) {
        Some(t) => table_keys(t),
        None => {
            let v: Vec<String> = Vec::new();
            assert(v@.map_values(|k: String| k@) =~= Seq::<Seq<char>>::empty());
            v
        },
    }
}

/// Removes one project from a Poetry section, making room for the section.
fn strip_poetry_item(po: &mut toml_edit::Item, section: &str, target: &str)
    requires
        is_table_like(item_tree(*old(po))),
    ensures
        item_tree(*final(po)) == strip_poetry_section(item_tree(*old(po)), section@, target@),
        is_table_like(item_tree(*final(po))),
{
    proof {
        lemma_vivified_has_slot(item_tree(*po), section@);
    }
    let sec = item_index_mut(po, section);
    match item_as_table_mut(sec) {
        Some(t) => {
            table_remove(t, target);
        },
        None => {},
    }
}

/// Removes the project that `package` names from a parsed `pyproject.toml`:
/// from `[project] dependencies` and every optional group, or else from the
/// Poetry `dependencies` and `dev-dependencies` tables (by normalized name).
pub fn pyproject_remove_document(doc: &mut toml_edit::DocumentMut, package: &str)
    requires
        pyproject_remove_allowed(document_tree(*old(doc))),
    ensures
        document_tree(*final(doc)) == pyproject_removed(document_tree(*old(doc)), pep508_name_of(package@)),
{
    let target = pep508_name(package);
    let root = document_root_mut(doc);
    let ghost t0 = item_tree(*root);
    if item_get(&*root, "project").is_some() {
        proof {
            lemma_vivified_present(t0, "project"@);
        }
        let project = item_index_mut(root, "project");
        let ghost p = item_tree(*project);
        let deps = item_index_mut(project, "dependencies");
        filter_array_item(deps, target.as_str());
        proof {
            reveal_strlit("dependencies");
            reveal_strlit("optional-dependencies");
            assert("dependencies"@.len() != "optional-dependencies"@.len());
            lemma_other_key(
                p,
                "dependencies"@,
                "optional-dependencies"@,
                filtered_item(slot(vivified(p, "dependencies"@), "dependencies"@), target@),
            );
        }
        let keys = match item_get(&*project, "optional-dependencies") {
            Some(o) => group_keys(o),
            None => Vec::new(),
        };
        proof {
            lemma_vivified_present(item_tree(*project), "optional-dependencies"@);
        }
        let opt = item_index_mut(project, "optional-dependencies");
        filter_group_items(opt, &keys, target.as_str());
    } else {
        let has_poetry = match item_get(&*root, "tool") {
            Some(tool) => item_get(tool, "poetry").is_some(),
            None => false,
        };
        if has_poetry {
            proof {
                lemma_vivified_present(t0, "tool"@);
            }
            let tool = item_index_mut(root, "tool");
            proof {
                lemma_vivified_present(item_tree(*tool), "poetry"@);
            }
            let po = item_index_mut(tool, "poetry");
            strip_poetry_item(po, "dependencies", target.as_str());
            strip_poetry_item(po, "dev-dependencies", target.as_str());
        }
    }
}

/// Whether `pyproject_add_document` can edit `doc` (see `pyproject_add_allowed`).
pub fn pyproject_add_editable(doc: &toml_edit::DocumentMut, package: &str, dev: bool) -> (r: bool)
    ensures
        r == pyproject_add_allowed(document_tree(*doc), package@, dev),
{
    let root = document_root(doc);
    if item_as_table(root).is_none() {
        return false;
    }
    match item_get(root, "project") {
        Some(p) => {
            proof {
                lemma_vivified_present(item_tree(*root), "project"@);
            }
            if !item_is_table_like(p) {
                return false;
            }
            if dev {
                match item_get(p, "optional-dependencies") {
                    Some(o) => {
                        proof {
                            lemma_vivified_present(item_tree(*p), "optional-dependencies"@);
                        }
                        item_is_table_like(o) && item_get(o, "dev").is_some()
                    },
                    None => false,
                }
            } else {
                item_get(p, "dependencies").is_some()
            }
        },
        None => match item_get(root, "tool") {
            Some(tool) => match item_get(tool, "poetry") {
                Some(po) => {
                    proof {
                        lemma_vivified_present(item_tree(*root), "tool"@);
                        lemma_vivified_present(item_tree(*tool), "poetry"@);
                    }
                    let section = if dev {
                        "dev-dependencies"
                    } else {
                        "dependencies"
                    };
                    item_is_table_like(po) && match item_get(po, section) {
                        Some(sec) => item_is_table_like(sec),
                        None => true,
                    }
                },
                None => true,
            },
            None => true,
        },
    }
}

/// Whether `pyproject_remove_document` can edit `doc` (see
/// `pyproject_remove_allowed`).
pub fn pyproject_remove_editable(doc: &toml_edit::DocumentMut) -> (r: bool)
    ensures
        r == pyproject_remove_allowed(document_tree(*doc)),
{
    let root = document_root(doc);
    if item_as_table(root).is_none() {
        return false;
    }
    match item_get(root, "project") {
        Some(p) => {
            proof {
                lemma_vivified_present(item_tree(*root), "project"@);
            }
            item_is_table_like(p) && item_get(p, "optional-dependencies").is_some()
        },
        None => match item_get(root, "tool") {
            Some(tool) => match item_get(tool, "poetry") {
                Some(po) => {
                    proof {
                        lemma_vivified_present(item_tree(*root), "tool"@);
                        lemma_vivified_present(item_tree(*tool), "poetry"@);
                    }
                    item_is_table_like(po)
                },
                None => true,
            },
            None => true,
        },
    }
}

/// What adding `package` to the `pyproject.toml` text `content` yields: an
/// invalid text is refused; a document that the edit cannot go through is
/// `NotEditable`; one with neither `[project]` nor `[tool.poetry]` is
/// `Unsupported`; otherwise the rendered text of a document holding exactly
/// `pyproject_added`.
pub open spec fn pyproject_add_outcome(content: Seq<char>, package: Seq<char>, dev: bool, r: Result<String, PyprojectEditError>) -> bool {
    match parsed_document(content) {
        None => r matches Err(PyprojectEditError::InvalidToml(_)),
        Some(t) => if !pyproject_add_allowed(t, package, dev) {
            r matches Err(PyprojectEditError::NotEditable)
        } else {
            match pyproject_added(t, package, dev) {
                Some(t2) => match r {
                    Ok(s) => exists|d: toml_edit::DocumentMut| document_text(d) == s@ && document_tree(d) == t2,
                    Err(_) => false,
                },
                None => r matches Err(PyprojectEditError::Unsupported),
            }
        },
    }
}

/// Adds `package` to the `pyproject.toml` text `content`, keeping its
/// formatting, and returns the new text.
pub fn pyproject_add(content: &str, package: &str, dev: bool) -> (r: Result<String, PyprojectEditError>)
    ensures
        pyproject_add_outcome(content@, package@, dev, r),
{
    let mut doc = match parse_document(content) {
        Ok(d) => d,
        Err(e) => {
            return Err(PyprojectEditError::InvalidToml(toml_error_message(&e)));
        },
    };
    if !pyproject_add_editable(&doc, package, dev) {
        return Err(PyprojectEditError::NotEditable);
    }
    match pyproject_add_document(&mut doc, package, dev) {
        Ok(()) => {
            let text = render_document(&doc);
            assert(document_text(doc) == text@);
            Ok(text)
        },
        Err(e) => Err(e),
    }
}

/// What removing `package` from the `pyproject.toml` text `content` yields:
/// an invalid text is refused; a document that the edit cannot go through
/// is `NotEditable`; otherwise the rendered text of a document holding
/// exactly `pyproject_removed`.
pub open spec fn pyproject_remove_outcome(content: Seq<char>, package: Seq<char>, r: Result<String, PyprojectEditError>) -> bool {
    match parsed_document(content) {
        None => r matches Err(PyprojectEditError::InvalidToml(_)),
        Some(t) => if !pyproject_remove_allowed(t) {
            r matches Err(PyprojectEditError::NotEditable)
        } else {
            match r {
                Ok(s) => exists|d: toml_edit::DocumentMut|
                    document_text(d) == s@ && document_tree(d) == pyproject_removed(t, pep508_name_of(package)),
                Err(_) => false,
            }
        },
    }
}

/// Removes the project that `package` names from the `pyproject.toml` text
/// `content`, keeping its formatting, and returns the new text.
pub fn pyproject_remove(content: &str, package: &str) -> (r: Result<String, PyprojectEditError>)
    ensures
        pyproject_remove_outcome(content@, package@, r),
{
    let mut doc = match parse_document(content) {
        Ok(d) => d,
        Err(e) => {
            return Err(PyprojectEditError::InvalidToml(toml_error_message(&e)));
        },
    };
    if !pyproject_remove_editable(&doc) {
        return Err(PyprojectEditError::NotEditable);
    }
    pyproject_remove_document(&mut doc, package);
    let text = render_document(&doc);
    assert(document_text(doc) == text@);
    Ok(text)
}

// ── Laws ────────────────────────────────────────────────────────────────────

/// Replacing entry `k` of a table-like item that has it: the entry reads
/// back as the new item, and the keys stay where they were.
proof fn lemma_slot_of_with_slot(t: EditItem, k: Seq<char>, c: EditItem)
    requires
        is_table_like(t),
        entry_index(entries_of(t), k) < entries_of(t).len(),
    ensures
        is_table_like(with_slot(t, k, c)),
        entry_index(entries_of(with_slot(t, k, c)), k) == entry_index(entries_of(t), k),
        entries_of(with_slot(t, k, c)).len() == entries_of(t).len(),
        slot(with_slot(t, k, c), k) == c,
{
    let e = entries_of(t);
    let i = entry_index(e, k);
    let u = e.update(i, (k, c));
    lemma_entry_index(e, k);
    assert forall|j: int| 0 <= j < e.len() implies e[j].0 == u[j].0 by {}
    lemma_entry_index_same_keys(e, u, k);
    assert(entries_of(with_slot(t, k, c)) == u);
}

/// Adding to a dependency array leaves it listing the package's project, so
/// that adding the same package again changes nothing.
pub proof fn lemma_added_to_array_lists(xs: Seq<EditItem>, package: Seq<char>)
    ensures
        added_to_array(EditItem::Array(xs), package) matches EditItem::Array(ys) && lists_project(
            ys,
            pep508_name_of(package),
        ),
        added_to_array(added_to_array(EditItem::Array(xs), package), package) == added_to_array(
            EditItem::Array(xs),
            package,
        ),
{
    let t = pep508_name_of(package);
    if !lists_project(xs, t) {
        let ys = xs.push(EditItem::Str(package));
        assert(names_project(ys[xs.len() as int], t));
    }
}

/// Removing a project from a dependency array leaves no specifier for it.
pub proof fn lemma_retained_unlists(xs: Seq<EditItem>, target: Seq<char>)
    ensures
        !lists_project(retained(xs, target), target),
{
    broadcast use vstd::seq_lib::group_filter_ensures;

    if lists_project(retained(xs, target), target) {
        let i = choose|i: int| 0 <= i < retained(xs, target).len() && #[trigger] names_project(retained(xs, target)[i], target);
        assert(names_project(retained(xs, target)[i], target));
    }
}

/// The `dependencies` array of `[project]`, or for dev its `dev` optional group.
pub open spec fn pep621_target(root: EditItem, dev: bool) -> EditItem {
    let p = slot(root, "project"@);
    if dev {
        slot(slot(p, "optional-dependencies"@), "dev"@)
    } else {
        slot(p, "dependencies"@)
    }
}

/// After adding a package to a PEP 621 `pyproject.toml` whose target list is
/// an array, that list names the package's project.
pub proof fn lemma_pyproject_add_lists(root: EditItem, package: Seq<char>, dev: bool)
    requires
        pyproject_add_allowed(root, package, dev),
        project_present(root),
        pep621_target(root, dev) is Array,
    ensures
        pyproject_added(root, package, dev) matches Some(t) && pep621_target(t, dev) matches EditItem::Array(ys)
            && lists_project(ys, pep508_name_of(package)),
{
    let p = slot(root, "project"@);
    lemma_entry_index(entries_of(root), "project"@);
    if let EditItem::Array(xs) = pep621_target(root, dev) {
        lemma_added_to_array_lists(xs, package);
    }
    if dev {
        let o = slot(p, "optional-dependencies"@);
        let d = slot(o, "dev"@);
        lemma_entry_index(entries_of(p), "optional-dependencies"@);
        lemma_entry_index(entries_of(o), "dev"@);
        let o2 = with_slot(o, "dev"@, added_to_array(d, package));
        let p2 = with_slot(p, "optional-dependencies"@, o2);
        lemma_slot_of_with_slot(o, "dev"@, added_to_array(d, package));
        lemma_slot_of_with_slot(p, "optional-dependencies"@, o2);
        lemma_slot_of_with_slot(root, "project"@, p2);
    } else {
        let d = slot(p, "dependencies"@);
        lemma_entry_index(entries_of(p), "dependencies"@);
        let p2 = with_slot(p, "dependencies"@, added_to_array(d, package));
        lemma_slot_of_with_slot(p, "dependencies"@, added_to_array(d, package));
        lemma_slot_of_with_slot(root, "project"@, p2);
    }
}

/// After removing a project from a PEP 621 `pyproject.toml` whose
/// `dependencies` is an array, that array names it no more.
pub proof fn lemma_pyproject_remove_unlists(root: EditItem, target: Seq<char>)
    requires
        pyproject_remove_allowed(root),
        project_present(root),
        slot(slot(root, "project"@), "dependencies"@) is Array,
        present_child(slot(root, "project"@), "dependencies"@) is Some,
    ensures
        slot(slot(pyproject_removed(root, target), "project"@), "dependencies"@) matches EditItem::Array(ys)
            && !lists_project(ys, target),
{
    reveal_strlit("dependencies");
    reveal_strlit("optional-dependencies");
    let p = slot(root, "project"@);
    lemma_entry_index(entries_of(root), "project"@);
    lemma_vivified_present(p, "dependencies"@);
    let p1 = vivified(p, "dependencies"@);
    lemma_entry_index(entries_of(p1), "dependencies"@);
    let f = filtered_item(slot(p1, "dependencies"@), target);
    let p2 = with_slot(p1, "dependencies"@, f);
    lemma_slot_of_with_slot(p1, "dependencies"@, f);
    if let EditItem::Array(xs) = slot(p1, "dependencies"@) {
        lemma_retained_unlists(xs, target);
    }
    let o = slot(p2, "optional-dependencies"@);
    let keys = match o {
        EditItem::Table(e) => present_keys(e),
        _ => seq![],
    };
    let g = filter_groups(o, keys, target);
    assert("optional-dependencies"@ != "dependencies"@) by {
        assert("optional-dependencies"@.len() != "dependencies"@.len());
    }
    lemma_other_key(p, "dependencies"@, "optional-dependencies"@, f);
    lemma_vivified_present(p2, "dependencies"@);
    lemma_entry_index(entries_of(p2), "optional-dependencies"@);
    lemma_other_key(p2, "optional-dependencies"@, "dependencies"@, g);
    lemma_vivified_present(p2, "optional-dependencies"@);
    let p3 = with_slot(p2, "optional-dependencies"@, g);
    lemma_slot_of_with_slot(root, "project"@, p3);
    lemma_vivified_present(p3, "dependencies"@);
}

/// Removing the groups' specifiers for `target` leaves no group array that
/// lists it, whichever groups the keys name.
proof fn lemma_filter_groups_unlists(o: EditItem, keys: Seq<Seq<char>>, target: Seq<char>)
    requires
        is_table_like(o),
    ensures
        is_table_like(filter_groups(o, keys, target)),
        forall|j: int|
            0 <= j < keys.len() ==> (present_child(filter_groups(o, keys, target), #[trigger] keys[j]) matches Some(
                EditItem::Array(ys),
            ) ==> !lists_project(ys, target)),
    decreases keys.len(),
{
    if keys.len() > 0 {
        let prev = keys.drop_last();
        lemma_filter_groups_unlists(o, prev, target);
        let g0 = filter_groups(o, prev, target);
        let k = keys.last();
        lemma_vivified_has_slot(g0, k);
        let v = vivified(g0, k);
        let f = filtered_item(slot(v, k), target);
        let g = with_slot(v, k, f);
        assert(g == filter_groups(o, keys, target));
        lemma_slot_of_with_slot(v, k, f);
        lemma_entry_index(entries_of(g), k);
        if let EditItem::Array(xs) = slot(v, k) {
            lemma_retained_unlists(xs, target);
        }
        assert forall|j: int|
            0 <= j < keys.len() implies (present_child(g, #[trigger] keys[j]) matches Some(EditItem::Array(ys))
            ==> !lists_project(ys, target)) by {
            if keys[j] != k {
                assert(keys[j] == prev[j]);
                lemma_other_key(g0, k, keys[j], f);
            }
        }
    }
}

/// After removing a project from a PEP 621 `pyproject.toml` whose
/// `optional-dependencies` is a table, no optional group array names it.
pub proof fn lemma_pyproject_remove_groups_unlist(root: EditItem, target: Seq<char>)
    requires
        pyproject_remove_allowed(root),
        project_present(root),
        slot(slot(root, "project"@), "optional-dependencies"@) is Table,
    ensures
        forall|k: Seq<char>|
            present_keys(entries_of(slot(slot(root, "project"@), "optional-dependencies"@))).contains(k)
                ==> (present_child(
                slot(slot(pyproject_removed(root, target), "project"@), "optional-dependencies"@),
                k,
            ) matches Some(EditItem::Array(ys)) ==> !lists_project(ys, target)),
{
    reveal_strlit("dependencies");
    reveal_strlit("optional-dependencies");
    assert("optional-dependencies"@ != "dependencies"@) by {
        assert("optional-dependencies"@.len() != "dependencies"@.len());
    }
    let p = slot(root, "project"@);
    lemma_entry_index(entries_of(root), "project"@);
    let p1 = vivified(p, "dependencies"@);
    lemma_vivified_has_slot(p, "dependencies"@);
    let f = filtered_item(slot(p1, "dependencies"@), target);
    let p2 = with_slot(p1, "dependencies"@, f);
    lemma_slot_of_with_slot(p1, "dependencies"@, f);
    lemma_other_key(p, "dependencies"@, "optional-dependencies"@, f);
    lemma_vivified_present(p, "optional-dependencies"@);
    lemma_vivified_present(p2, "optional-dependencies"@);
    let o = slot(p2, "optional-dependencies"@);
    assert(o == slot(p, "optional-dependencies"@));
    let keys = match o {
        EditItem::Table(e) => present_keys(e),
        _ => seq![],
    };
    let g = filter_groups(o, keys, target);
    lemma_filter_groups_unlists(o, keys, target);
    lemma_entry_index(entries_of(p2), "optional-dependencies"@);
    let p3 = with_slot(p2, "optional-dependencies"@, g);
    lemma_slot_of_with_slot(p2, "optional-dependencies"@, g);
    lemma_slot_of_with_slot(root, "project"@, p3);
    assert forall|k: Seq<char>|
        present_keys(entries_of(slot(slot(root, "project"@), "optional-dependencies"@))).contains(k) implies (
        present_child(slot(slot(pyproject_removed(root, target), "project"@), "optional-dependencies"@), k) matches Some(
            EditItem::Array(ys),
        ) ==> !lists_project(ys, target)) by {
        let j = choose|j: int| 0 <= j < keys.len() && keys[j] == k;
        assert(present_child(g, keys[j]) matches Some(EditItem::Array(ys)) ==> !lists_project(ys, target));
    }
}

/// After adding a package to a Poetry `pyproject.toml` (one without
/// `[project]`), its section maps the package's normalized name to its
/// constraint.
pub proof fn lemma_poetry_add_sets(root: EditItem, package: Seq<char>, dev: bool)
    requires
        pyproject_add_allowed(root, package, dev),
        !project_present(root),
        poetry_present(root),
    ensures
        pyproject_added(root, package, dev) matches Some(t) && present_child(
            slot(slot(slot(t, "tool"@), "poetry"@), poetry_section_name(dev)),
            pep508_parts(package).0,
        ) == Some(EditItem::Str(pep508_parts(package).1)),
{
    let name = pep508_parts(package).0;
    let req = pep508_parts(package).1;
    let section = poetry_section_name(dev);
    let tool = slot(root, "tool"@);
    lemma_entry_index(entries_of(root), "tool"@);
    lemma_entry_index(entries_of(tool), "poetry"@);
    let po0 = slot(tool, "poetry"@);
    lemma_vivified_has_slot(po0, section);
    let po = vivified(po0, section);
    let s0 = slot(po, section);
    lemma_vivified_has_slot(s0, name);
    let sec = vivified(s0, name);
    let sec2 = with_slot(sec, name, EditItem::Str(req));
    lemma_slot_of_with_slot(sec, name, EditItem::Str(req));
    lemma_entry_index(entries_of(sec2), name);
    let po2 = with_slot(po, section, sec2);
    lemma_slot_of_with_slot(po, section, sec2);
    let tool2 = with_slot(tool, "poetry"@, po2);
    lemma_slot_of_with_slot(tool, "poetry"@, po2);
    lemma_slot_of_with_slot(root, "tool"@, tool2);
}

/// Writing back the entry that a table-like item holds changes nothing.
proof fn lemma_with_slot_same(t: EditItem, k: Seq<char>)
    requires
        is_table_like(t),
        entry_index(entries_of(t), k) < entries_of(t).len(),
    ensures
        with_slot(t, k, slot(t, k)) == t,
{
    let e = entries_of(t);
    lemma_entry_index(e, k);
    assert(e.update(entry_index(e, k), (k, slot(t, k))) =~= e);
}

/// Replacing entry `k` by a non-empty item leaves `k` present with it, in a
/// table-like item of the same kind.
proof fn lemma_present_with_slot(t: EditItem, k: Seq<char>, c: EditItem)
    requires
        is_table_like(t),
        entry_index(entries_of(t), k) < entries_of(t).len(),
        !(c is Absent),
    ensures
        is_table_like(with_slot(t, k, c)),
        t is Table ==> with_slot(t, k, c) is Table,
        entry_index(entries_of(with_slot(t, k, c)), k) < entries_of(with_slot(t, k, c)).len(),
        slot(with_slot(t, k, c), k) == c,
        present_child(with_slot(t, k, c), k) == Some(c),
{
    lemma_slot_of_with_slot(t, k, c);
}

/// The entry `k` of an item when it is present, else an empty item.
pub open spec fn child_or_absent(t: EditItem, k: Seq<char>) -> EditItem {
    match present_child(t, k) {
        Some(c) => c,
        None => EditItem::Absent,
    }
}

/// Adding a package to a `pyproject.toml` that it can be added to, and then
/// adding it again, changes nothing the second time: the second add is
/// allowed and gives the document that the first one gave.
pub proof fn lemma_pyproject_add_twice(root: EditItem, package: Seq<char>, dev: bool)
    requires
        pyproject_add_allowed(root, package, dev),
    ensures
        pyproject_added(root, package, dev) matches Some(t1) ==> pyproject_add_allowed(t1, package, dev)
            && pyproject_added(t1, package, dev) == Some(t1),
{
    reveal_strlit("project");
    reveal_strlit("tool");
    assert("project"@ != "tool"@) by {
        assert("project"@.len() != "tool"@.len());
    }
    if project_present(root) {
        let p = slot(root, "project"@);
        lemma_entry_index(entries_of(root), "project"@);
        if dev {
            let opt = "optional-dependencies"@;
            let o = slot(p, opt);
            let d = slot(o, "dev"@);
            lemma_entry_index(entries_of(p), opt);
            lemma_entry_index(entries_of(o), "dev"@);
            let a = added_to_array(d, package);
            if let EditItem::Array(xs) = d {
                lemma_added_to_array_lists(xs, package);
            }
            let o2 = with_slot(o, "dev"@, a);
            lemma_present_with_slot(o, "dev"@, a);
            let p2 = with_slot(p, opt, o2);
            lemma_present_with_slot(p, opt, o2);
            let t1 = with_slot(root, "project"@, p2);
            lemma_present_with_slot(root, "project"@, p2);
            lemma_with_slot_same(o2, "dev"@);
            lemma_with_slot_same(p2, opt);
            lemma_with_slot_same(t1, "project"@);
        } else {
            let deps = "dependencies"@;
            let d = slot(p, deps);
            lemma_entry_index(entries_of(p), deps);
            let a = added_to_array(d, package);
            if let EditItem::Array(xs) = d {
                lemma_added_to_array_lists(xs, package);
            }
            let p2 = with_slot(p, deps, a);
            lemma_present_with_slot(p, deps, a);
            let t1 = with_slot(root, "project"@, p2);
            lemma_present_with_slot(root, "project"@, p2);
            lemma_with_slot_same(p2, deps);
            lemma_with_slot_same(t1, "project"@);
        }
    } else if poetry_present(root) {
        let name = pep508_parts(package).0;
        let req = pep508_parts(package).1;
        let section = poetry_section_name(dev);
        let tool = slot(root, "tool"@);
        lemma_entry_index(entries_of(root), "tool"@);
        lemma_entry_index(entries_of(tool), "poetry"@);
        let po0 = slot(tool, "poetry"@);
        lemma_vivified_has_slot(po0, section);
        let po = vivified(po0, section);
        let s0 = slot(po, section);
        lemma_vivified_has_slot(s0, name);
        let sec = vivified(s0, name);
        let sec2 = with_slot(sec, name, EditItem::Str(req));
        lemma_present_with_slot(sec, name, EditItem::Str(req));
        let po2 = with_slot(po, section, sec2);
        lemma_present_with_slot(po, section, sec2);
        let tool2 = with_slot(tool, "poetry"@, po2);
        lemma_present_with_slot(tool, "poetry"@, po2);
        let t1 = with_slot(root, "tool"@, tool2);
        lemma_present_with_slot(root, "tool"@, tool2);
        lemma_vivified_present(root, "tool"@);
        lemma_other_key(root, "tool"@, "project"@, tool2);
        assert(!project_present(t1));
        assert(poetry_present(t1));
        lemma_vivified_present(po2, section);
        lemma_vivified_present(sec2, name);
        lemma_with_slot_same(sec2, name);
        lemma_with_slot_same(po2, section);
        lemma_with_slot_same(tool2, "poetry"@);
        lemma_with_slot_same(t1, "tool"@);
    }
}

/// Adding a package changes only the entry it edits. With `[project]`: every
/// other root key, every other key of `[project]`, and for dev every other
/// optional group, read as before. With Poetry: every other root key, every
/// other key of `[tool]` and of `[tool.poetry]`, and every other package of
/// its section, read as before.
pub proof fn lemma_pyproject_add_keeps_rest(root: EditItem, package: Seq<char>, dev: bool)
    requires
        pyproject_add_allowed(root, package, dev),
    ensures
        pyproject_added(root, package, dev) matches Some(t1) ==> if project_present(root) {
            let p = slot(root, "project"@);
            let p1 = slot(t1, "project"@);
            let opt = "optional-dependencies"@;
            let edited = if dev {
                opt
            } else {
                "dependencies"@
            };
            &&& forall|k: Seq<char>| k != "project"@ ==> #[trigger] present_child(t1, k) == present_child(root, k)
            &&& forall|k: Seq<char>| k != edited ==> #[trigger] present_child(p1, k) == present_child(p, k)
            &&& dev ==> forall|k: Seq<char>|
                k != "dev"@ ==> #[trigger] present_child(slot(p1, opt), k) == present_child(slot(p, opt), k)
        } else {
            let section = poetry_section_name(dev);
            let tool = slot(root, "tool"@);
            let tool1 = slot(t1, "tool"@);
            let po = slot(tool, "poetry"@);
            let po1 = slot(tool1, "poetry"@);
            &&& forall|k: Seq<char>| k != "tool"@ ==> #[trigger] present_child(t1, k) == present_child(root, k)
            &&& forall|k: Seq<char>| k != "poetry"@ ==> #[trigger] present_child(tool1, k) == present_child(tool, k)
            &&& forall|k: Seq<char>| k != section ==> #[trigger] present_child(po1, k) == present_child(po, k)
            &&& forall|k: Seq<char>|
                k != pep508_parts(package).0 ==> #[trigger] present_child(child_or_absent(po1, section), k)
                    == present_child(child_or_absent(po, section), k)
        },
{
    if project_present(root) {
        let p = slot(root, "project"@);
        lemma_entry_index(entries_of(root), "project"@);
        lemma_vivified_present(root, "project"@);
        let opt = "optional-dependencies"@;
        if dev {
            let o = slot(p, opt);
            let d = slot(o, "dev"@);
            lemma_entry_index(entries_of(p), opt);
            lemma_entry_index(entries_of(o), "dev"@);
            lemma_vivified_present(p, opt);
            lemma_vivified_present(o, "dev"@);
            let a = added_to_array(d, package);
            let o2 = with_slot(o, "dev"@, a);
            lemma_present_with_slot(o, "dev"@, a);
            let p2 = with_slot(p, opt, o2);
            lemma_present_with_slot(p, opt, o2);
            let t1 = with_slot(root, "project"@, p2);
            lemma_present_with_slot(root, "project"@, p2);
            assert forall|k: Seq<char>| k != "project"@ implies #[trigger] present_child(t1, k) == present_child(root, k) by {
                lemma_other_key(root, "project"@, k, p2);
            }
            assert forall|k: Seq<char>| k != opt implies #[trigger] present_child(p2, k) == present_child(p, k) by {
                lemma_other_key(p, opt, k, o2);
            }
            assert forall|k: Seq<char>| k != "dev"@ implies #[trigger] present_child(o2, k) == present_child(o, k) by {
                lemma_other_key(o, "dev"@, k, a);
            }
        } else {
            let deps = "dependencies"@;
            let d = slot(p, deps);
            lemma_entry_index(entries_of(p), deps);
            lemma_vivified_present(p, deps);
            let a = added_to_array(d, package);
            let p2 = with_slot(p, deps, a);
            lemma_present_with_slot(p, deps, a);
            let t1 = with_slot(root, "project"@, p2);
            lemma_present_with_slot(root, "project"@, p2);
            assert forall|k: Seq<char>| k != "project"@ implies #[trigger] present_child(t1, k) == present_child(root, k) by {
                lemma_other_key(root, "project"@, k, p2);
            }
            assert forall|k: Seq<char>| k != deps implies #[trigger] present_child(p2, k) == present_child(p, k) by {
                lemma_other_key(p, deps, k, a);
            }
        }
    } else if poetry_present(root) {
        let name = pep508_parts(package).0;
        let req = pep508_parts(package).1;
        let section = poetry_section_name(dev);
        let tool = slot(root, "tool"@);
        lemma_entry_index(entries_of(root), "tool"@);
        lemma_entry_index(entries_of(tool), "poetry"@);
        lemma_vivified_present(root, "tool"@);
        lemma_vivified_present(tool, "poetry"@);
        let po0 = slot(tool, "poetry"@);
        lemma_vivified_has_slot(po0, section);
        let po = vivified(po0, section);
        let s0 = slot(po, section);
        assert(s0 == child_or_absent(po0, section));
        lemma_vivified_has_slot(s0, name);
        let sec = vivified(s0, name);
        let sec2 = with_slot(sec, name, EditItem::Str(req));
        lemma_present_with_slot(sec, name, EditItem::Str(req));
        let po2 = with_slot(po, section, sec2);
        lemma_present_with_slot(po, section, sec2);
        let tool2 = with_slot(tool, "poetry"@, po2);
        lemma_present_with_slot(tool, "poetry"@, po2);
        let t1 = with_slot(root, "tool"@, tool2);
        lemma_present_with_slot(root, "tool"@, tool2);
        assert(child_or_absent(po2, section) == sec2);
        assert forall|k: Seq<char>| k != "tool"@ implies #[trigger] present_child(t1, k) == present_child(root, k) by {
            lemma_other_key(root, "tool"@, k, tool2);
        }
        assert forall|k: Seq<char>| k != "poetry"@ implies #[trigger] present_child(tool2, k) == present_child(tool, k) by {
            lemma_other_key(tool, "poetry"@, k, po2);
        }
        assert forall|k: Seq<char>| k != section implies #[trigger] present_child(po2, k) == present_child(po0, k) by {
            lemma_other_key(po0, section, k, sec2);
        }
        assert forall|k: Seq<char>| k != name implies #[trigger] present_child(sec2, k) == present_child(s0, k) by {
            lemma_other_key(s0, name, k, EditItem::Str(req));
        }
    }
}

/// Removing a package changes only the lists it edits. With `[project]`:
/// every other root key, and every key of `[project]` but `dependencies` and
/// `optional-dependencies`, read as before. With Poetry: every other root
/// key, every other key of `[tool]`, and every key of `[tool.poetry]` but its
/// two dependency sections, read as before.
pub proof fn lemma_pyproject_remove_keeps_rest(root: EditItem, target: Seq<char>)
    requires
        pyproject_remove_allowed(root),
    ensures
        ({
            let t1 = pyproject_removed(root, target);
            if project_present(root) {
                &&& forall|k: Seq<char>| k != "project"@ ==> #[trigger] present_child(t1, k) == present_child(root, k)
                &&& forall|k: Seq<char>|
                    k != "dependencies"@ && k != "optional-dependencies"@ ==> #[trigger] present_child(
                        slot(t1, "project"@),
                        k,
                    ) == present_child(slot(root, "project"@), k)
            } else if poetry_present(root) {
                &&& forall|k: Seq<char>| k != "tool"@ ==> #[trigger] present_child(t1, k) == present_child(root, k)
                &&& forall|k: Seq<char>|
                    k != "poetry"@ ==> #[trigger] present_child(slot(t1, "tool"@), k) == present_child(
                        slot(root, "tool"@),
                        k,
                    )
                &&& forall|k: Seq<char>|
                    k != "dependencies"@ && k != "dev-dependencies"@ ==> #[trigger] present_child(
                        slot(slot(t1, "tool"@), "poetry"@),
                        k,
                    ) == present_child(slot(slot(root, "tool"@), "poetry"@), k)
            } else {
                t1 == root
            }
        }),
{
    let deps = "dependencies"@;
    if project_present(root) {
        let opt = "optional-dependencies"@;
        let p = slot(root, "project"@);
        lemma_entry_index(entries_of(root), "project"@);
        lemma_vivified_present(root, "project"@);
        let p1 = vivified(p, deps);
        lemma_vivified_has_slot(p, deps);
        let f = filtered_item(slot(p1, deps), target);
        let p2 = with_slot(p1, deps, f);
        lemma_slot_of_with_slot(p1, deps, f);
        let o = slot(p2, opt);
        let keys = match o {
            EditItem::Table(e) => present_keys(e),
            _ => seq![],
        };
        let g = filter_groups(o, keys, target);
        let p3 = with_slot(p2, opt, g);
        reveal_strlit("dependencies");
        reveal_strlit("optional-dependencies");
        assert(opt != deps) by {
            assert(opt.len() != deps.len());
        }
        lemma_other_key(p, deps, opt, f);
        lemma_vivified_present(p2, opt);
        lemma_vivified_has_slot(p2, opt);
        lemma_slot_of_with_slot(vivified(p2, opt), opt, g);
        lemma_slot_of_with_slot(root, "project"@, p3);
        assert forall|k: Seq<char>| k != "project"@ implies #[trigger] present_child(
            pyproject_removed(root, target),
            k,
        ) == present_child(root, k) by {
            lemma_other_key(root, "project"@, k, p3);
        }
        assert forall|k: Seq<char>| k != deps && k != opt implies #[trigger] present_child(
            slot(pyproject_removed(root, target), "project"@),
            k,
        ) == present_child(p, k) by {
            lemma_other_key(p, deps, k, f);
            lemma_other_key(p2, opt, k, g);
        }
    } else if poetry_present(root) {
        let dev_deps = "dev-dependencies"@;
        let tool = slot(root, "tool"@);
        lemma_entry_index(entries_of(root), "tool"@);
        lemma_entry_index(entries_of(tool), "poetry"@);
        lemma_vivified_present(root, "tool"@);
        lemma_vivified_present(tool, "poetry"@);
        let po = slot(tool, "poetry"@);
        let po1 = strip_poetry_section(po, deps, target);
        lemma_vivified_has_slot(po, deps);
        let v1 = vivified(po, deps);
        let c1 = match slot(v1, deps) {
            EditItem::Table(e) => EditItem::Table(remove_key(e, target)),
            _ => slot(v1, deps),
        };
        lemma_slot_of_with_slot(v1, deps, c1);
        let po2 = strip_poetry_section(po1, dev_deps, target);
        let v2 = vivified(po1, dev_deps);
        lemma_vivified_has_slot(po1, dev_deps);
        let c2 = match slot(v2, dev_deps) {
            EditItem::Table(e) => EditItem::Table(remove_key(e, target)),
            _ => slot(v2, dev_deps),
        };
        lemma_slot_of_with_slot(v2, dev_deps, c2);
        let tool2 = with_slot(tool, "poetry"@, po2);
        lemma_slot_of_with_slot(tool, "poetry"@, po2);
        lemma_slot_of_with_slot(root, "tool"@, tool2);
        assert forall|k: Seq<char>| k != "tool"@ implies #[trigger] present_child(
            pyproject_removed(root, target),
            k,
        ) == present_child(root, k) by {
            lemma_other_key(root, "tool"@, k, tool2);
        }
        assert forall|k: Seq<char>| k != "poetry"@ implies #[trigger] present_child(
            slot(pyproject_removed(root, target), "tool"@),
            k,
        ) == present_child(tool, k) by {
            lemma_other_key(tool, "poetry"@, k, po2);
        }
        assert forall|k: Seq<char>| k != deps && k != dev_deps implies #[trigger] present_child(
            slot(slot(pyproject_removed(root, target), "tool"@), "poetry"@),
            k,
        ) == present_child(po, k) by {
            lemma_other_key(po, deps, k, c1);
            lemma_other_key(po1, dev_deps, k, c2);
        }
    }
}

/// Adding to a Poetry `pyproject.toml` (one without `[project]`) writes the
/// package's normalized name with its constraint into the table
/// `dev-dependencies` of `[tool.poetry]` when `dev`, into `dependencies`
/// otherwise, and leaves the other of the two sections as it was.
pub proof fn lemma_poetry_add_section(root: EditItem, package: Seq<char>, dev: bool)
    requires
        pyproject_add_allowed(root, package, dev),
        !project_present(root),
        poetry_present(root),
    ensures
        pyproject_added(root, package, dev) matches Some(t) && {
            let po = slot(slot(root, "tool"@), "poetry"@);
            let po1 = slot(slot(t, "tool"@), "poetry"@);
            let into = if dev {
                "dev-dependencies"@
            } else {
                "dependencies"@
            };
            let other = if dev {
                "dependencies"@
            } else {
                "dev-dependencies"@
            };
            &&& present_child(po1, into) matches Some(sec) && is_table_like(sec) && present_child(
                sec,
                pep508_parts(package).0,
            ) == Some(EditItem::Str(pep508_parts(package).1))
            &&& present_child(po1, other) == present_child(po, other)
        },
{
    reveal_strlit("dependencies");
    reveal_strlit("dev-dependencies");
    let deps = "dependencies"@;
    let dev_deps = "dev-dependencies"@;
    assert(deps != dev_deps) by {
        assert(deps.len() != dev_deps.len());
    }
    let name = pep508_parts(package).0;
    let req = pep508_parts(package).1;
    let section = poetry_section_name(dev);
    let other = if dev {
        deps
    } else {
        dev_deps
    };
    let tool = slot(root, "tool"@);
    lemma_entry_index(entries_of(root), "tool"@);
    lemma_entry_index(entries_of(tool), "poetry"@);
    let po0 = slot(tool, "poetry"@);
    lemma_vivified_has_slot(po0, section);
    let po = vivified(po0, section);
    let s0 = slot(po, section);
    lemma_vivified_has_slot(s0, name);
    let sec = vivified(s0, name);
    let sec2 = with_slot(sec, name, EditItem::Str(req));
    lemma_present_with_slot(sec, name, EditItem::Str(req));
    let po2 = with_slot(po, section, sec2);
    lemma_present_with_slot(po, section, sec2);
    let tool2 = with_slot(tool, "poetry"@, po2);
    lemma_present_with_slot(tool, "poetry"@, po2);
    lemma_present_with_slot(root, "tool"@, tool2);
    lemma_other_key(po0, section, other, sec2);
}

/// Whether some string among `xs` is a specifier whose PEP 508 name is `t`.
pub open spec fn names_in(xs: Seq<EditItem>, t: Seq<char>) -> bool {
    exists|i: int| 0 <= i < xs.len() && (#[trigger] xs[i]) is Str && pep508_name_of(xs[i]->Str_0) == t
}

/// An array lists a project exactly when one of its strings names it.
proof fn lemma_lists_project_iff(xs: Seq<EditItem>, t: Seq<char>)
    ensures
        lists_project(xs, t) == names_in(xs, t),
{
    if lists_project(xs, t) {
        let i = choose|i: int| 0 <= i < xs.len() && #[trigger] names_project(xs[i], t);
        assert(xs[i] is Str && pep508_name_of(xs[i]->Str_0) == t);
    }
    if names_in(xs, t) {
        let i = choose|i: int| 0 <= i < xs.len() && (#[trigger] xs[i]) is Str && pep508_name_of(xs[i]->Str_0) == t;
        assert(names_project(xs[i], t));
    }
}

/// Adding to a PEP 621 `pyproject.toml` edits `[project] dependencies`, or
/// for dev the `dev` group of `[project.optional-dependencies]`, and leaves
/// the other of the two as it was. An array there gets the package appended
/// unless one of its strings already names the package's project, in which
/// case it stays as it is; anything else there stays as it is.
pub proof fn lemma_pep621_add_target(root: EditItem, package: Seq<char>, dev: bool)
    requires
        pyproject_add_allowed(root, package, dev),
        project_present(root),
    ensures
        pyproject_added(root, package, dev) matches Some(t) && {
            let opt = "optional-dependencies"@;
            let p = slot(root, "project"@);
            let p1 = slot(t, "project"@);
            let before = if dev {
                slot(slot(p, opt), "dev"@)
            } else {
                slot(p, "dependencies"@)
            };
            let after = if dev {
                slot(slot(p1, opt), "dev"@)
            } else {
                slot(p1, "dependencies"@)
            };
            let untouched = if dev {
                "dependencies"@
            } else {
                opt
            };
            &&& match before {
                EditItem::Array(xs) => {
                    &&& names_in(xs, pep508_name_of(package)) ==> after == before
                    &&& !names_in(xs, pep508_name_of(package)) ==> after == EditItem::Array(
                        xs.push(EditItem::Str(package)),
                    )
                },
                _ => after == before,
            }
            &&& present_child(p1, untouched) == present_child(p, untouched)
        },
{
    reveal_strlit("dependencies");
    reveal_strlit("optional-dependencies");
    let deps = "dependencies"@;
    let opt = "optional-dependencies"@;
    assert(opt != deps) by {
        assert(opt.len() != deps.len());
    }
    let p = slot(root, "project"@);
    lemma_entry_index(entries_of(root), "project"@);
    if let EditItem::Array(xs) = pep621_target(root, dev) {
        lemma_lists_project_iff(xs, pep508_name_of(package));
    }
    if dev {
        let o = slot(p, opt);
        let d = slot(o, "dev"@);
        lemma_entry_index(entries_of(p), opt);
        lemma_entry_index(entries_of(o), "dev"@);
        lemma_vivified_present(p, opt);
        let a = added_to_array(d, package);
        let o2 = with_slot(o, "dev"@, a);
        lemma_present_with_slot(o, "dev"@, a);
        let p2 = with_slot(p, opt, o2);
        lemma_present_with_slot(p, opt, o2);
        lemma_present_with_slot(root, "project"@, p2);
        lemma_other_key(p, opt, deps, o2);
        let t1 = with_slot(root, "project"@, p2);
        assert(pyproject_added(root, package, dev) == Some(t1));
        assert(slot(t1, "project"@) == p2);
        assert(slot(slot(p2, opt), "dev"@) == a);
        assert(present_child(p2, deps) == present_child(p, deps));
        assert(pep621_target(root, dev) == d);
        assert(slot(slot(slot(t1, "project"@), opt), "dev"@) == a);
    } else {
        let d = slot(p, deps);
        lemma_entry_index(entries_of(p), deps);
        lemma_vivified_present(p, deps);
        let a = added_to_array(d, package);
        let p2 = with_slot(p, deps, a);
        lemma_present_with_slot(p, deps, a);
        lemma_present_with_slot(root, "project"@, p2);
        lemma_other_key(p, deps, opt, a);
        let t1 = with_slot(root, "project"@, p2);
        assert(pyproject_added(root, package, dev) == Some(t1));
        assert(slot(t1, "project"@) == p2);
        assert(slot(p2, deps) == a);
        assert(present_child(p2, opt) == present_child(p, opt));
    }
}

/// No key occurs twice among the entries (as in every table `toml_edit`
/// parses).
pub open spec fn distinct_entry_keys(e: Seq<(Seq<char>, EditItem)>) -> bool {
    forall|i: int, j: int| 0 <= i < j < e.len() ==> e[i].0 != e[j].0
}

proof fn lemma_entry_index_first(e: Seq<(Seq<char>, EditItem)>, k: Seq<char>)
    ensures
        forall|j: int| 0 <= j < entry_index(e, k) ==> e[j].0 != k,
    decreases e.len(),
{
    lemma_entry_index(e, k);
    if e.len() > 0 && e[0].0 != k {
        lemma_entry_index_first(e.drop_first(), k);
        assert forall|j: int| 0 <= j < entry_index(e, k) implies e[j].0 != k by {
            if j > 0 {
                assert(e[j] == e.drop_first()[j - 1]);
            }
        }
    }
}

proof fn lemma_entry_index_none(e: Seq<(Seq<char>, EditItem)>, k: Seq<char>)
    requires
        forall|j: int| 0 <= j < e.len() ==> e[j].0 != k,
    ensures
        entry_index(e, k) == e.len(),
    decreases e.len(),
{
    if e.len() > 0 {
        assert forall|j: int| 0 <= j < e.drop_first().len() implies e.drop_first()[j].0 != k by {
            assert(e.drop_first()[j] == e[j + 1]);
        }
        lemma_entry_index_none(e.drop_first(), k);
    }
}

/// Removing a key from entries that hold each key once leaves no entry for it.
proof fn lemma_remove_key_absent(e: Seq<(Seq<char>, EditItem)>, k: Seq<char>)
    requires
        distinct_entry_keys(e),
    ensures
        entry_index(remove_key(e, k), k) == remove_key(e, k).len(),
{
    lemma_entry_index(e, k);
    lemma_entry_index_first(e, k);
    let i = entry_index(e, k);
    let r = remove_key(e, k);
    if i < e.len() {
        assert forall|j: int| 0 <= j < r.len() implies r[j].0 != k by {
            if j < i {
                assert(r[j] == e[j]);
            } else {
                assert(r[j] == e[j + 1]);
                assert(e[i].0 != e[j + 1].0);
            }
        }
    } else {
        assert forall|j: int| 0 <= j < r.len() implies r[j].0 != k by {}
    }
    lemma_entry_index_none(r, k);
}

/// Stripping one Poetry section leaves it without an entry for `target`, if
/// it is a table that held each key once.
proof fn lemma_strip_poetry_section_absent(po: EditItem, section: Seq<char>, target: Seq<char>)
    requires
        is_table_like(po),
        present_child(po, section) matches Some(EditItem::Table(e)) ==> distinct_entry_keys(e),
    ensures
        is_table_like(strip_poetry_section(po, section, target)),
        present_child(strip_poetry_section(po, section, target), section) matches Some(EditItem::Table(e)) ==> entry_index(
            e,
            target,
        ) == e.len(),
{
    lemma_vivified_has_slot(po, section);
    let v = vivified(po, section);
    let sl = slot(v, section);
    let c = match sl {
        EditItem::Table(e) => EditItem::Table(remove_key(e, target)),
        _ => sl,
    };
    lemma_slot_of_with_slot(v, section, c);
    lemma_entry_index(entries_of(strip_poetry_section(po, section, target)), section);
    if let EditItem::Table(e) = sl {
        lemma_remove_key_absent(e, target);
    }
}

/// After removing a project from a Poetry `pyproject.toml` (one without
/// `[project]`), neither `dependencies` nor `dev-dependencies` has an entry
/// for it, when those tables held each key once.
pub proof fn lemma_poetry_remove_absent(root: EditItem, target: Seq<char>)
    requires
        pyproject_remove_allowed(root),
        !project_present(root),
        poetry_present(root),
        present_child(slot(slot(root, "tool"@), "poetry"@), "dependencies"@) matches Some(EditItem::Table(e))
            ==> distinct_entry_keys(e),
        present_child(slot(slot(root, "tool"@), "poetry"@), "dev-dependencies"@) matches Some(EditItem::Table(e))
            ==> distinct_entry_keys(e),
    ensures
        present_child(slot(slot(pyproject_removed(root, target), "tool"@), "poetry"@), "dependencies"@) matches Some(
            EditItem::Table(e),
        ) ==> entry_index(e, target) == e.len(),
        present_child(slot(slot(pyproject_removed(root, target), "tool"@), "poetry"@), "dev-dependencies"@) matches Some(
            EditItem::Table(e),
        ) ==> entry_index(e, target) == e.len(),
{
    reveal_strlit("dependencies");
    reveal_strlit("dev-dependencies");
    let deps = "dependencies"@;
    let dev = "dev-dependencies"@;
    assert(deps != dev) by {
        assert(deps.len() != dev.len());
    }
    let tool = slot(root, "tool"@);
    lemma_entry_index(entries_of(root), "tool"@);
    lemma_entry_index(entries_of(tool), "poetry"@);
    let po = slot(tool, "poetry"@);
    lemma_strip_poetry_section_absent(po, deps, target);
    let po1 = strip_poetry_section(po, deps, target);
    lemma_other_key(po, deps, dev, slot(po1, deps));
    lemma_vivified_has_slot(po, deps);
    assert(po1 == with_slot(vivified(po, deps), deps, slot(po1, deps))) by {
        lemma_slot_of_with_slot(
            vivified(po, deps),
            deps,
            match slot(vivified(po, deps), deps) {
                EditItem::Table(e) => EditItem::Table(remove_key(e, target)),
                _ => slot(vivified(po, deps), deps),
            },
        );
    }
    lemma_strip_poetry_section_absent(po1, dev, target);
    let po2 = strip_poetry_section(po1, dev, target);
    lemma_vivified_has_slot(po1, dev);
    assert(po2 == with_slot(vivified(po1, dev), dev, slot(po2, dev))) by {
        lemma_slot_of_with_slot(
            vivified(po1, dev),
            dev,
            match slot(vivified(po1, dev), dev) {
                EditItem::Table(e) => EditItem::Table(remove_key(e, target)),
                _ => slot(vivified(po1, dev), dev),
            },
        );
    }
    lemma_other_key(po1, dev, deps, slot(po2, dev));
    let tool2 = with_slot(tool, "poetry"@, po2);
    lemma_slot_of_with_slot(tool, "poetry"@, po2);
    lemma_slot_of_with_slot(root, "tool"@, tool2);
}

/// Removing a project from an array none of whose values names it keeps
/// the array as it is.
proof fn lemma_retained_all(xs: Seq<EditItem>, target: Seq<char>)
    requires
        forall|i: int| 0 <= i < xs.len() ==> is_value(#[trigger] xs[i]) && !names_project(xs[i], target),
    ensures
        retained(xs, target) == xs,
    decreases xs.len(),
{
    reveal(Seq::filter);
    if xs.len() > 0 {
        let prev = xs.drop_last();
        assert forall|i: int| 0 <= i < prev.len() implies is_value(#[trigger] prev[i]) && !names_project(prev[i], target) by {
            assert(prev[i] == xs[i]);
        }
        lemma_retained_all(prev, target);
        assert(is_value(xs[xs.len() - 1]) && !names_project(xs[xs.len() - 1], target));
        assert(prev.push(xs.last()) =~= xs);
    }
}

/// Adding a package to a dependency array and removing its project again
/// gives the array back, when no value of the array named that project.
pub proof fn lemma_add_then_remove_array(xs: Seq<EditItem>, package: Seq<char>)
    requires
        forall|i: int| 0 <= i < xs.len() ==> is_value(#[trigger] xs[i]),
        !lists_project(xs, pep508_name_of(package)),
    ensures
        filtered_item(added_to_array(EditItem::Array(xs), package), pep508_name_of(package)) == EditItem::Array(xs),
{
    reveal(Seq::filter);
    let t = pep508_name_of(package);
    assert forall|i: int| 0 <= i < xs.len() implies is_value(#[trigger] xs[i]) && !names_project(xs[i], t) by {
        if names_project(xs[i], t) {
            assert(lists_project(xs, t));
        }
    }
    lemma_retained_all(xs, t);
    let ys = xs.push(EditItem::Str(package));
    assert(ys.drop_last() =~= xs);
    assert(names_project(ys.last(), t));
}

/// Adding a package to the `dependencies` of a PEP 621 `pyproject.toml` and
/// then removing its project gives `dependencies` back as it was, when none
/// of its values named that project.
pub proof fn lemma_pyproject_add_then_remove(root: EditItem, package: Seq<char>)
    requires
        pyproject_add_allowed(root, package, false),
        project_present(root),
        slot(slot(root, "project"@), "dependencies"@) matches EditItem::Array(xs) && (forall|i: int|
            0 <= i < xs.len() ==> is_value(#[trigger] xs[i])) && !lists_project(xs, pep508_name_of(package)),
        present_child(slot(root, "project"@), "optional-dependencies"@) is Some,
    ensures
        pyproject_added(root, package, false) matches Some(t1) && slot(
            slot(pyproject_removed(t1, pep508_name_of(package)), "project"@),
            "dependencies"@,
        ) == slot(slot(root, "project"@), "dependencies"@),
{
    reveal_strlit("dependencies");
    reveal_strlit("optional-dependencies");
    let deps = "dependencies"@;
    let opt = "optional-dependencies"@;
    assert(opt != deps) by {
        assert(opt.len() != deps.len());
    }
    let target = pep508_name_of(package);
    let p = slot(root, "project"@);
    let d = slot(p, deps);
    let xs = match d {
        EditItem::Array(xs) => xs,
        _ => seq![],
    };
    lemma_add_then_remove_array(xs, package);
    let a = added_to_array(d, package);
    lemma_entry_index(entries_of(root), "project"@);
    lemma_entry_index(entries_of(p), deps);
    lemma_vivified_present(p, deps);
    let p_added = with_slot(p, deps, a);
    lemma_slot_of_with_slot(p, deps, a);
    lemma_other_key(p, deps, opt, a);
    let t1 = with_slot(root, "project"@, p_added);
    lemma_slot_of_with_slot(root, "project"@, p_added);
    lemma_entry_index(entries_of(t1), "project"@);
    assert(project_present(t1));
    lemma_entry_index(entries_of(p_added), deps);
    lemma_vivified_present(p_added, deps);
    let f = filtered_item(a, target);
    assert(f == d);
    let p2 = with_slot(p_added, deps, f);
    lemma_slot_of_with_slot(p_added, deps, f);
    lemma_other_key(p_added, deps, opt, f);
    lemma_vivified_present(p2, opt);
    let o = slot(p2, opt);
    let keys = match o {
        EditItem::Table(e) => present_keys(e),
        _ => seq![],
    };
    let g = filter_groups(o, keys, target);
    lemma_entry_index(entries_of(p2), opt);
    lemma_other_key(p2, opt, deps, g);
    let p3 = with_slot(p2, opt, g);
    lemma_slot_of_with_slot(t1, "project"@, p3);
    lemma_entry_index(entries_of(p2), deps);
    lemma_vivified_present(p2, deps);
    lemma_vivified_present(p3, deps);
}

} // verus!
