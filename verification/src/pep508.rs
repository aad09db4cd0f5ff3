//! Python requirement specifiers (PEP 508) and project-name normalization
//! (PEP 503).
use vstd::prelude::*;
use crate::text::{
    chars_of, string_from, trim_bounds, find_char_from, push_char, str_to_lowercase, index_of, before_char,
    trim, lowercased, ascii_lowercase, ascii_lower_char, lemma_ascii_lowercase, lemma_index_of_unique,
    is_white_space, lemma_trim_fixed,
};

verus! {

broadcast use vstd::string::group_string_axioms;

/// The characters that PEP 503 folds into a single `-`.
pub open spec fn is_separator(c: char) -> bool {
    c == '-' || c == '_' || c == '.'
}

/// `s` with each run of separators replaced by one `-`; `prev_sep` says
/// whether a separator run is already open before `s`.
pub open spec fn collapse_from(s: Seq<char>, prev_sep: bool) -> Seq<char>
    decreases s.len(),
{
    if s.len() == 0 {
        seq![]
    } else if is_separator(s[0]) {
        if prev_sep {
            collapse_from(s.drop_first(), true)
        } else {
            seq!['-'] + collapse_from(s.drop_first(), true)
        }
    } else {
        seq![s[0]] + collapse_from(s.drop_first(), false)
    }
}

/// `s` with each run of `-`, `_` and `.` replaced by one `-`.
pub open spec fn collapsed(s: Seq<char>) -> Seq<char> {
    collapse_from(s, false)
}

/// The PEP 503 normal form of a project name: lowercase, then runs of
/// `-`, `_`, `.` collapsed to one `-`.
pub open spec fn pep503(name: Seq<char>) -> Seq<char> {
    collapsed(lowercased(name))
}

/// The characters at which a PEP 508 project name ends.
pub open spec fn is_name_stop(c: char) -> bool {
    c == '>' || c == '<' || c == '=' || c == '!' || c == '~' || c == '[' || c == ' '
}

/// Index of the first name-ending character of `s`, or `s.len()`.
pub open spec fn name_end(s: Seq<char>) -> int
    decreases s.len(),
{
    if s.len() == 0 {
        0
    } else if is_name_stop(s[0]) {
        0
    } else {
        1 + name_end(s.drop_first())
    }
}

/// The version constraint that follows the name in a specifier: what comes
/// after an extras bracket, or the rest itself; `*` where that is empty (or
/// the bracket is never closed).
pub open spec fn pep508_req_of(rest: Seq<char>) -> Seq<char> {
    if rest.len() > 0 && rest[0] == '[' {
        let j = index_of(rest, ']');
        if j < rest.len() && trim(rest.skip(j + 1)).len() > 0 {
            trim(rest.skip(j + 1))
        } else {
            "*"@
        }
    } else if rest.len() == 0 {
        "*"@
    } else {
        rest
    }
}

/// A PEP 508 specifier as (normalized name, version constraint): environment
/// markers after `;` are dropped, the name ends at the first version operator,
/// extras bracket or space, and a missing constraint is `*`.
pub open spec fn pep508_parts(spec: Seq<char>) -> (Seq<char>, Seq<char>) {
    let s = trim(before_char(spec, ';'));
    let k = name_end(s);
    (pep503(trim(s.take(k))), pep508_req_of(trim(s.skip(k))))
}

/// The normalized name of a PEP 508 specifier.
pub open spec fn pep508_name_of(spec: Seq<char>) -> Seq<char> {
    pep508_parts(spec).0
}

proof fn lemma_name_end_unique(s: Seq<char>, k: int)
    requires
        0 <= k <= s.len(),
        k < s.len() ==> is_name_stop(s[k]),
        forall|j: int| 0 <= j < k ==> !is_name_stop(#[trigger] s[j]),
    ensures
        name_end(s) == k,
    decreases k,
{
    if k > 0 {
        assert(!is_name_stop(s[0]));
        assert forall|j: int| 0 <= j < k - 1 implies !is_name_stop(#[trigger] s.drop_first()[j]) by {
            assert(s.drop_first()[j] == s[j + 1]);
        }
        if k < s.len() {
            assert(s.drop_first()[k - 1] == s[k]);
        }
        lemma_name_end_unique(s.drop_first(), k - 1);
    }
}

/// Collapses each run of `-`, `_`, `.` in `lowered` into a single `-`.
pub fn collapse_separators(lowered: &str) -> (r: String)
    ensures
        r@ == collapsed(lowered@),
{
    let cs = chars_of(lowered);
    let mut out = String::new();
    let mut prev_sep = false;
    let mut i: usize = 0;
    assert(cs@.skip(0) == cs@);
    while i < cs.len()
        invariant
            i <= cs.len(),
            cs@ == lowered@,
            out@ + collapse_from(cs@.skip(i as int), prev_sep) == collapsed(lowered@),
        decreases cs.len() - i,
    {
        let c = cs[i];
        let ghost rest = cs@.skip(i as int);
        assert(rest[0] == c);
        assert(rest.drop_first() == cs@.skip(i + 1));
        if c == '-' || c == '_' || c == '.' {
            if !prev_sep {
                let ghost o = out@;
                push_char(&mut out, '-');
                assert(o + (seq!['-'] + collapse_from(rest.drop_first(), true)) == out@ + collapse_from(
                    rest.drop_first(),
                    true,
                ));
                prev_sep = true;
            }
        } else {
            let ghost o = out@;
            push_char(&mut out, c);
            assert(o + (seq![c] + collapse_from(rest.drop_first(), false)) == out@ + collapse_from(
                rest.drop_first(),
                false,
            ));
            prev_sep = false;
        }
        i = i + 1;
    }
    assert(cs@.skip(i as int).len() == 0);
    assert(out@ + collapse_from(cs@.skip(i as int), prev_sep) == out@);
    out
}

/// PEP 503 name normalization: lowercase + collapse runs of [-_.] to '-'.
pub fn pep503_normalize(name: &str) -> (r: String)
    ensures
        r@ == pep503(name@),
{
    let lowered = str_to_lowercase(name);
    collapse_separators(lowered.as_str())
}

/// Index of the first `c` in `cs[from..to]`, or `to`.
fn find_char_in(cs: &Vec<char>, from: usize, to: usize, c: char) -> (k: usize)
    requires
        from <= to <= cs.len(),
    ensures
        from <= k <= to,
        k - from == index_of(cs@.subrange(from as int, to as int), c),
{
    let mut k = from;
    while k < to && cs[k] != c
        invariant
            from <= k <= to <= cs.len(),
            forall|j: int| from <= j < k ==> cs@[j] != c,
        decreases to - k,
    {
        k = k + 1;
    }
    proof {
        let t = cs@.subrange(from as int, to as int);
        assert forall|j: int| 0 <= j < k - from implies t[j] != c by {
            assert(t[j] == cs@[from + j]);
        }
        if k < to {
            assert(t[k - from] == cs@[k as int]);
        }
        lemma_index_of_unique(t, c, k - from);
    }
    k
}

/// Parse a PEP 508 specifier into (normalized_name, version_req).
pub fn parse_pep508(spec: &str) -> (r: (String, String))
    ensures
        (r.0@, r.1@) == pep508_parts(spec@),
{
    let cs = chars_of(spec);
    let semi = find_char_from(&cs, 0, ';');
    assert(cs@.skip(0) == cs@);
    assert(cs@.take(semi as int) == cs@.subrange(0, semi as int));
    let (a, b) = trim_bounds(&cs, 0, semi);
    let ghost s = cs@.subrange(a as int, b as int);
    assert(s == trim(before_char(spec@, ';')));
    let mut k = a;
    while k < b && !(cs[k] == '>' || cs[k] == '<' || cs[k] == '=' || cs[k] == '!' || cs[k] == '~'
        || cs[k] == '[' || cs[k] == ' ')
        invariant
            a <= k <= b <= cs.len(),
            forall|j: int| a <= j < k ==> !is_name_stop(#[trigger] cs@[j]),
        decreases b - k,
    {
        k = k + 1;
    }
    proof {
        assert forall|j: int| 0 <= j < k - a implies !is_name_stop(#[trigger] s[j]) by {
            assert(s[j] == cs@[a + j]);
        }
        if k < b {
            assert(s[k - a] == cs@[k as int]);
        }
        lemma_name_end_unique(s, k - a);
        assert(s.take(k - a) == cs@.subrange(a as int, k as int));
        assert(s.skip(k - a) == cs@.subrange(k as int, b as int));
    }
    let (na, nb) = trim_bounds(&cs, a, k);
    let raw_name = string_from(&cs, na, nb);
    let name = pep503_normalize(raw_name.as_str());
    let (ra, rb) = trim_bounds(&cs, k, b);
    let ghost rest = cs@.subrange(ra as int, rb as int);
    proof {
        reveal_strlit("*");
    }
    let req = if ra < rb && cs[ra] == '[' {
        assert(rest[0] == cs@[ra as int]);
        let j = find_char_in(&cs, ra, rb, ']');
        if j < rb {
            let (xa, xb) = trim_bounds(&cs, j + 1, rb);
            assert(rest.skip(j - ra + 1) == cs@.subrange(j + 1, rb as int));
            if xa < xb {
                string_from(&cs, xa, xb)
            } else {
                "*".to_string()
            }
        } else {
            "*".to_string()
        }
    } else if ra == rb {
        "*".to_string()
    } else {
        assert(rest[0] == cs@[ra as int]);
        string_from(&cs, ra, rb)
    };
    (name, req)
}

/// Extract just the normalized name from a PEP 508 specifier.
pub fn pep508_name(spec: &str) -> (r: String)
    ensures
        r@ == pep508_name_of(spec@),
{
    parse_pep508(spec).0
}

/// Collapsing separator runs is idempotent: a collapsed name has no run of
/// separators left to collapse.
pub proof fn lemma_collapse_idempotent(s: Seq<char>, prev_sep: bool)
    ensures
        collapse_from(collapse_from(s, prev_sep), prev_sep) == collapse_from(s, prev_sep),
    decreases s.len(),
{
    if s.len() > 0 {
        let rest = s.drop_first();
        if is_separator(s[0]) {
            lemma_collapse_idempotent(rest, true);
            if !prev_sep {
                let c = collapse_from(s, prev_sep);
                let tail = collapse_from(rest, true);
                assert(c == seq!['-'] + tail);
                assert(c[0] == '-');
                assert(c.drop_first() =~= tail);
            }
        } else {
            lemma_collapse_idempotent(rest, false);
            let c = collapse_from(s, prev_sep);
            let tail = collapse_from(rest, false);
            assert(c == seq![s[0]] + tail);
            assert(c[0] == s[0]);
            assert(c.drop_first() =~= tail);
        }
    }
}

/// A collapsed name holds no `_` and no `.`, and never two `-` in a row;
/// after an open separator run it does not begin with `-`.
pub proof fn lemma_collapsed_shape(s: Seq<char>, prev_sep: bool)
    ensures
        forall|j: int|
            0 <= j < collapse_from(s, prev_sep).len() ==> #[trigger] collapse_from(s, prev_sep)[j] != '_'
                && collapse_from(s, prev_sep)[j] != '.',
        forall|j: int|
            0 <= j < collapse_from(s, prev_sep).len() - 1 ==> !(#[trigger] collapse_from(s, prev_sep)[j] == '-'
                && collapse_from(s, prev_sep)[j + 1] == '-'),
        prev_sep && collapse_from(s, prev_sep).len() > 0 ==> collapse_from(s, prev_sep)[0] != '-',
    decreases s.len(),
{
    if s.len() > 0 {
        let rest = s.drop_first();
        let c = collapse_from(s, prev_sep);
        if is_separator(s[0]) {
            lemma_collapsed_shape(rest, true);
            if !prev_sep {
                let tail = collapse_from(rest, true);
                assert(c == seq!['-'] + tail);
                assert forall|j: int| 0 <= j < c.len() implies #[trigger] c[j] != '_' && c[j] != '.' by {
                    if j > 0 {
                        assert(c[j] == tail[j - 1]);
                    }
                }
                assert forall|j: int| 0 <= j < c.len() - 1 implies !(#[trigger] c[j] == '-' && c[j + 1] == '-') by {
                    assert(c[j + 1] == tail[j]);
                    if j > 0 {
                        assert(c[j] == tail[j - 1]);
                    }
                }
            }
        } else {
            lemma_collapsed_shape(rest, false);
            let tail = collapse_from(rest, false);
            assert(c == seq![s[0]] + tail);
            assert forall|j: int| 0 <= j < c.len() implies #[trigger] c[j] != '_' && c[j] != '.' by {
                if j > 0 {
                    assert(c[j] == tail[j - 1]);
                }
            }
            assert forall|j: int| 0 <= j < c.len() - 1 implies !(#[trigger] c[j] == '-' && c[j + 1] == '-') by {
                assert(c[j + 1] == tail[j]);
                if j > 0 {
                    assert(c[j] == tail[j - 1]);
                }
            }
        }
    }
}

/// A PEP 503 name holds no `_` and no `.`, never two `-` in a row, and
/// collapsing its separators again changes nothing.
pub proof fn lemma_pep503_shape(name: Seq<char>)
    ensures
        forall|j: int| 0 <= j < pep503(name).len() ==> #[trigger] pep503(name)[j] != '_' && pep503(name)[j] != '.',
        forall|j: int| 0 <= j < pep503(name).len() - 1 ==> !(#[trigger] pep503(name)[j] == '-' && pep503(name)[j + 1] == '-'),
        collapsed(pep503(name)) == pep503(name),
{
    lemma_collapsed_shape(lowercased(name), false);
    lemma_collapse_idempotent(lowercased(name), false);
}

/// Every character of a collapsed text is `-` or a character of the text.
proof fn lemma_collapse_chars(s: Seq<char>, prev_sep: bool)
    ensures
        forall|j: int|
            0 <= j < collapse_from(s, prev_sep).len() ==> #[trigger] collapse_from(s, prev_sep)[j] == '-'
                || s.contains(collapse_from(s, prev_sep)[j]),
    decreases s.len(),
{
    if s.len() > 0 {
        let rest = s.drop_first();
        let c = collapse_from(s, prev_sep);
        let next = is_separator(s[0]);
        lemma_collapse_chars(rest, next);
        let tail = collapse_from(rest, next);
        assert forall|j: int| 0 <= j < c.len() implies #[trigger] c[j] == '-' || s.contains(c[j]) by {
            if is_separator(s[0]) && prev_sep {
                assert(c[j] == tail[j]);
            } else if j > 0 {
                assert(c[j] == tail[j - 1]);
            } else if !is_separator(s[0]) {
                assert(c[0] == s[0]);
            }
            if c[j] != '-' && !(j == 0 && !is_separator(s[0])) {
                if is_separator(s[0]) && prev_sep {
                    assert(rest.contains(tail[j]));
                } else {
                    assert(rest.contains(tail[j - 1]));
                }
                let k = choose|k: int| 0 <= k < rest.len() && rest[k] == c[j];
                assert(s[k + 1] == rest[k]);
            }
        }
    }
}

/// For an ASCII name, normalizing twice gives what normalizing once gives,
/// and the normal form is its own lowercase (what `str::to_lowercase` gives
/// of it is itself).
pub proof fn lemma_pep503_idempotent(name: Seq<char>)
    requires
        vstd::utf8::is_ascii_chars(name),
    ensures
        pep503(pep503(name)) == pep503(name),
        lowercased(pep503(name)) == pep503(name),
{
    let l = ascii_lowercase(name);
    lemma_ascii_lowercase(name);
    let p = collapsed(l);
    lemma_collapse_chars(l, false);
    assert forall|j: int| 0 <= j < p.len() implies '\0' <= #[trigger] p[j] <= '\u{7f}' && !('A' <= p[j] && p[j] <= 'Z') by {
        if p[j] != '-' {
            let k = choose|k: int| 0 <= k < l.len() && l[k] == p[j];
            assert('\0' <= l[k] <= '\u{7f}');
            assert(!('A' <= l[k] && l[k] <= 'Z'));
        }
    }
    assert(vstd::utf8::is_ascii_chars(p));
    assert(ascii_lowercase(p) =~= p);
    assert(lowercased(p) == p);
    lemma_collapse_idempotent(l, false);
}

/// A character of a plain project name: an ASCII letter or digit, `-`, `_` or `.`.
pub open spec fn is_plain_name_char(c: char) -> bool {
    ('a' <= c && c <= 'z') || ('A' <= c && c <= 'Z') || ('0' <= c && c <= '9') || c == '-' || c == '_' || c == '.'
}

/// One of the version comparison operators `<`, `<=`, `>`, `>=`, `==`, `!=`, `~=`.
pub open spec fn is_comparison_op(op: Seq<char>) -> bool {
    ||| op == seq!['<']
    ||| op == seq!['<', '=']
    ||| op == seq!['>']
    ||| op == seq!['>', '=']
    ||| op == seq!['=', '=']
    ||| op == seq!['!', '=']
    ||| op == seq!['~', '=']
}

/// A specifier written as a plain name, a comparison operator and a version
/// (no white space, no `;`) parses into the PEP 503 form of the name and the
/// operator followed by the version.
pub proof fn lemma_pep508_name_op_version(name: Seq<char>, op: Seq<char>, version: Seq<char>)
    requires
        forall|j: int| 0 <= j < name.len() ==> is_plain_name_char(#[trigger] name[j]),
        is_comparison_op(op),
        forall|j: int| 0 <= j < version.len() ==> !is_white_space(#[trigger] version[j]) && version[j] != ';',
    ensures
        pep508_parts(name + op + version) == (pep503(name), op + version),
{
    let spec = name + op + version;
    let n = name.len() as int;
    let rest = op + version;
    assert(spec =~= name + rest);
    assert(op.len() >= 1 && op.len() <= 2);
    assert(op[0] == '<' || op[0] == '>' || op[0] == '=' || op[0] == '!' || op[0] == '~');
    assert(op.last() == '<' || op.last() == '>' || op.last() == '=');
    assert forall|j: int| 0 <= j < spec.len() implies #[trigger] spec[j] != ';' && !is_white_space(spec[j]) by {
        if j < n {
            assert(spec[j] == name[j]);
            assert(is_plain_name_char(name[j]));
        } else if j < n + op.len() {
            assert(spec[j] == op[j - n]);
            assert(op[j - n] == '<' || op[j - n] == '>' || op[j - n] == '=' || op[j - n] == '!' || op[j - n] == '~');
        } else {
            assert(spec[j] == version[j - n - op.len()]);
        }
    }
    lemma_index_of_unique(spec, ';', spec.len() as int);
    assert(before_char(spec, ';') =~= spec);
    lemma_trim_fixed(spec);
    assert forall|j: int| 0 <= j < n implies !is_name_stop(#[trigger] spec[j]) by {
        assert(spec[j] == name[j]);
        assert(is_plain_name_char(name[j]));
    }
    assert(spec[n] == op[0]);
    lemma_name_end_unique(spec, n);
    assert(spec.take(n) =~= name);
    assert(spec.skip(n) =~= rest);
    assert forall|j: int| 0 <= j < name.len() implies !is_white_space(#[trigger] name[j]) by {
        assert(is_plain_name_char(name[j]));
    }
    lemma_trim_fixed(name);
    assert forall|j: int| 0 <= j < rest.len() implies !is_white_space(#[trigger] rest[j]) by {
        assert(rest[j] == spec[n + j]);
    }
    lemma_trim_fixed(rest);
    assert(rest[0] == op[0]);
}

/// Environment markers do not change what a specifier parses into: a plain
/// name, an operator and a version followed by `;` and any marker parse as
/// they do without the marker.
pub proof fn lemma_pep508_marker_ignored(name: Seq<char>, op: Seq<char>, version: Seq<char>, marker: Seq<char>)
    requires
        forall|j: int| 0 <= j < name.len() ==> is_plain_name_char(#[trigger] name[j]),
        is_comparison_op(op),
        forall|j: int| 0 <= j < version.len() ==> !is_white_space(#[trigger] version[j]) && version[j] != ';',
    ensures
        pep508_parts(name + op + version + seq![';'] + marker) == (pep503(name), op + version),
{
    let base = name + op + version;
    let spec = base + seq![';'] + marker;
    lemma_pep508_name_op_version(name, op, version);
    assert forall|j: int| 0 <= j < base.len() implies #[trigger] base[j] != ';' by {
        if j < name.len() {
            assert(base[j] == name[j]);
            assert(is_plain_name_char(name[j]));
        } else if j < name.len() + op.len() {
            assert(base[j] == op[j - name.len()]);
        } else {
            assert(base[j] == version[j - name.len() - op.len()]);
        }
    }
    assert forall|j: int| 0 <= j < base.len() implies #[trigger] spec[j] != ';' by {
        assert(spec[j] == base[j]);
    }
    assert(spec[base.len() as int] == ';');
    lemma_index_of_unique(spec, ';', base.len() as int);
    lemma_index_of_unique(base, ';', base.len() as int);
    assert(before_char(spec, ';') =~= base);
    assert(before_char(base, ';') =~= base);
}

/// A plain name alone parses into its PEP 503 form and the constraint `*`.
pub proof fn lemma_pep508_bare_name(name: Seq<char>)
    requires
        forall|j: int| 0 <= j < name.len() ==> is_plain_name_char(#[trigger] name[j]),
    ensures
        pep508_parts(name) == (pep503(name), "*"@),
{
    assert forall|j: int| 0 <= j < name.len() implies #[trigger] name[j] != ';' && !is_white_space(name[j])
        && !is_name_stop(name[j]) by {
        assert(is_plain_name_char(name[j]));
    }
    lemma_index_of_unique(name, ';', name.len() as int);
    assert(before_char(name, ';') =~= name);
    lemma_trim_fixed(name);
    lemma_name_end_unique(name, name.len() as int);
    assert(name.take(name.len() as int) =~= name);
    assert(name.skip(name.len() as int) =~= Seq::<char>::empty());
    lemma_trim_fixed(Seq::<char>::empty());
}

/// Extras in brackets after the name are skipped: a plain name, extras, an
/// operator and a version parse into the PEP 503 form of the name and the
/// operator followed by the version.
pub proof fn lemma_pep508_extras_skipped(name: Seq<char>, extras: Seq<char>, op: Seq<char>, version: Seq<char>)
    requires
        forall|j: int| 0 <= j < name.len() ==> is_plain_name_char(#[trigger] name[j]),
        forall|j: int| 0 <= j < extras.len() ==> #[trigger] extras[j] != ']' && extras[j] != ';',
        is_comparison_op(op),
        forall|j: int| 0 <= j < version.len() ==> !is_white_space(#[trigger] version[j]) && version[j] != ';',
    ensures
        pep508_parts(name + seq!['['] + extras + seq![']'] + op + version) == (pep503(name), op + version),
{
    let n = name.len() as int;
    let tail = op + version;
    let rest = seq!['['] + extras + seq![']'] + tail;
    let spec = name + seq!['['] + extras + seq![']'] + op + version;
    assert(spec =~= name + rest);
    assert(op.len() >= 1 && op.len() <= 2);
    assert(op[0] == '<' || op[0] == '>' || op[0] == '=' || op[0] == '!' || op[0] == '~');
    assert(op.last() == '<' || op.last() == '>' || op.last() == '=');
    assert forall|j: int| 0 <= j < tail.len() implies #[trigger] tail[j] != ';' && !is_white_space(tail[j]) by {
        if j < op.len() {
            assert(tail[j] == op[j]);
            assert(op[j] == '<' || op[j] == '>' || op[j] == '=' || op[j] == '!' || op[j] == '~');
        } else {
            assert(tail[j] == version[j - op.len()]);
        }
    }
    assert forall|j: int| 0 <= j < rest.len() implies #[trigger] rest[j] != ';' by {
        if j == 0 {
        } else if j <= extras.len() {
            assert(rest[j] == extras[j - 1]);
        } else if j == extras.len() + 1 {
        } else {
            assert(rest[j] == tail[j - extras.len() - 2]);
        }
    }
    assert forall|j: int| 0 <= j < spec.len() implies #[trigger] spec[j] != ';' by {
        if j < n {
            assert(spec[j] == name[j]);
            assert(is_plain_name_char(name[j]));
        } else {
            assert(spec[j] == rest[j - n]);
        }
    }
    lemma_index_of_unique(spec, ';', spec.len() as int);
    assert(before_char(spec, ';') =~= spec);
    assert(spec.last() == tail.last());
    if n > 0 {
        assert(spec[0] == name[0]);
        assert(is_plain_name_char(name[0]));
    } else {
        assert(spec[0] == '[');
    }
    lemma_trim_fixed(spec);
    assert forall|j: int| 0 <= j < n implies !is_name_stop(#[trigger] spec[j]) by {
        assert(spec[j] == name[j]);
        assert(is_plain_name_char(name[j]));
    }
    assert(spec[n] == '[');
    lemma_name_end_unique(spec, n);
    assert(spec.take(n) =~= name);
    assert(spec.skip(n) =~= rest);
    assert forall|j: int| 0 <= j < name.len() implies !is_white_space(#[trigger] name[j]) by {
        assert(is_plain_name_char(name[j]));
    }
    lemma_trim_fixed(name);
    assert(rest.last() == tail.last());
    lemma_trim_fixed(rest);
    let k: int = extras.len() as int + 1;
    assert forall|j: int| 0 <= j < k implies #[trigger] rest[j] != ']' by {
        if j > 0 {
            assert(rest[j] == extras[j - 1]);
        }
    }
    assert(rest[k] == ']');
    lemma_index_of_unique(rest, ']', k);
    assert(rest.skip(k + 1) =~= tail);
    assert forall|j: int| 0 <= j < tail.len() implies !is_white_space(#[trigger] tail[j]) by {}
    lemma_trim_fixed(tail);
}

} // verus!
