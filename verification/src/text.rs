//! Character-level text helpers shared by the manifest parsers and editors.
//!
//! Everything here works on the `Seq<char>` view of strings. The few std
//! facilities that vstd does not specify (string appends, Unicode character
//! classes, case mapping) are reached through small wrappers whose contracts
//! say what the std documentation says.
use vstd::prelude::*;

verus! {

broadcast use vstd::string::group_string_axioms;

/// Whether `c` has the Unicode `White_Space` property, as `char::is_whitespace`
/// decides: the ASCII tab, line feed, vertical tab, form feed, carriage return
/// and space, and the listed code points beyond ASCII.
pub open spec fn is_white_space(c: char) -> bool {
    ||| ('\t' <= c && c <= '\r')
    ||| c == ' '
    ||| c == '\u{85}'
    ||| c == '\u{A0}'
    ||| c == '\u{1680}'
    ||| ('\u{2000}' <= c && c <= '\u{200A}')
    ||| c == '\u{2028}'
    ||| c == '\u{2029}'
    ||| c == '\u{202F}'
    ||| c == '\u{205F}'
    ||| c == '\u{3000}'
}

/// Whether `c` has the Unicode `Alphabetic` property, as `char::is_alphabetic` decides.
pub uninterp spec fn is_alphabetic_char(c: char) -> bool;

/// The full Unicode lowercase mapping of a string, as `str::to_lowercase` computes it.
pub uninterp spec fn lowercase_of(s: Seq<char>) -> Seq<char>;

/// Whether `c` is white space, as `char::is_whitespace` decides: one of the
/// characters with the Unicode `White_Space` property.
pub fn char_is_whitespace(c: char) -> (r: bool)
    ensures
        r == is_white_space(c),
{
    ('\t' <= c && c <= '\r') || c == ' ' || c == '\u{85}' || c == '\u{A0}' || c == '\u{1680}' || ('\u{2000}' <= c
        && c <= '\u{200A}') || c == '\u{2028}' || c == '\u{2029}' || c == '\u{202F}' || c == '\u{205F}' || c
        == '\u{3000}'
}

/// Calls `char::is_alphabetic`; the result is the `Alphabetic` property of `c`.
#[verifier::external_body]
pub fn char_is_alphabetic(c: char) -> (r: bool)
    ensures
        r == is_alphabetic_char(c),
{
    c.is_alphabetic()
}

/// `c` with `A`..`Z` mapped to `a`..`z`.
pub open spec fn ascii_lower_char(c: char) -> char {
    if 'A' <= c && c <= 'Z' {
        ((c as u32) + 32) as char
    } else {
        c
    }
}

/// `s` with `A`..`Z` mapped to `a`..`z`.
pub open spec fn ascii_lowercase(s: Seq<char>) -> Seq<char> {
    s.map_values(|c: char| ascii_lower_char(c))
}

/// What `str::to_lowercase` gives of `s`: on ASCII text, `A`..`Z` mapped to
/// `a`..`z` and every other character kept; otherwise the full Unicode
/// lowercase mapping.
pub open spec fn lowercased(s: Seq<char>) -> Seq<char> {
    if vstd::utf8::is_ascii_chars(s) {
        ascii_lowercase(s)
    } else {
        lowercase_of(s)
    }
}

/// Calls `str::to_lowercase`; the result is the lowercase mapping of `s`,
/// which on ASCII text maps `A`..`Z` to `a`..`z` and keeps the rest.
#[verifier::external_body]
pub fn str_to_lowercase(s: &str) -> (r: String)
    ensures
        r@ == lowercase_of(s@),
        vstd::utf8::is_ascii_chars(s@) ==> r@ == ascii_lowercase(s@),
{
    s.to_lowercase()
}

/// Lowering ASCII text gives ASCII text with no `A`..`Z`, and lowering it
/// again changes nothing.
pub proof fn lemma_ascii_lowercase(s: Seq<char>)
    requires
        vstd::utf8::is_ascii_chars(s),
    ensures
        vstd::utf8::is_ascii_chars(ascii_lowercase(s)),
        forall|i: int| 0 <= i < s.len() ==> !('A' <= #[trigger] ascii_lowercase(s)[i] && ascii_lowercase(s)[i] <= 'Z'),
        lowercased(ascii_lowercase(s)) == ascii_lowercase(s),
{
    let l = ascii_lowercase(s);
    assert forall|i: int| 0 <= i < l.len() implies '\0' <= #[trigger] l[i] <= '\u{7f}' && !('A' <= l[i] && l[i] <= 'Z') by {
        assert('\0' <= s[i] <= '\u{7f}');
    }
    assert(lowercased(l) =~= l);
}

/// Calls `String::push`: appends one character.
#[verifier::external_body]
pub fn push_char(s: &mut String, c: char)
    ensures
        final(s)@ == old(s)@.push(c),
{
    s.push(c);
}

/// Appends a string slice (through vstd's specified `append`).
pub fn push_str(s: &mut String, t: &str)
    ensures
        final(s)@ == old(s)@ + t@,
{
    s.append(t);
}

// ── Specifications ──────────────────────────────────────────────────────────

/// Index of the first occurrence of `c` in `s`, or `s.len()` when there is none.
pub open spec fn index_of(s: Seq<char>, c: char) -> int
    decreases s.len(),
{
    if s.len() == 0 {
        0
    } else if s[0] == c {
        0
    } else {
        1 + index_of(s.drop_first(), c)
    }
}

/// The part of `s` before the first `c` (all of `s` when `c` does not occur),
/// i.e. what `s.split(c).next()` yields.
pub open spec fn before_char(s: Seq<char>, c: char) -> Seq<char> {
    s.take(index_of(s, c))
}

/// `s` without its leading white space.
pub open spec fn trim_start(s: Seq<char>) -> Seq<char>
    decreases s.len(),
{
    if s.len() > 0 && is_white_space(s[0]) {
        trim_start(s.drop_first())
    } else {
        s
    }
}

/// `s` without its trailing white space.
pub open spec fn trim_end(s: Seq<char>) -> Seq<char>
    decreases s.len(),
{
    if s.len() > 0 && is_white_space(s.last()) {
        trim_end(s.drop_last())
    } else {
        s
    }
}

/// `s` without leading and trailing white space, as `str::trim` returns it.
pub open spec fn trim(s: Seq<char>) -> Seq<char> {
    trim_end(trim_start(s))
}

pub open spec fn starts_with(s: Seq<char>, p: Seq<char>) -> bool {
    p.len() <= s.len() && s.take(p.len() as int) == p
}

pub open spec fn ends_with(s: Seq<char>, p: Seq<char>) -> bool {
    p.len() <= s.len() && s.skip(s.len() - p.len()) == p
}

/// A line without its trailing carriage return, if it has one.
pub open spec fn strip_cr(l: Seq<char>) -> Seq<char> {
    if l.len() > 0 && l.last() == '\r' {
        l.drop_last()
    } else {
        l
    }
}

/// The lines of `s`, as `str::lines` yields them: split after each `\n`, the
/// `\n` removed together with a `\r` just before it; a last line without `\n`
/// is kept as it is, and no empty line follows a final `\n`.
pub open spec fn lines(s: Seq<char>) -> Seq<Seq<char>>
    decreases s.len(),
{
    if s.len() == 0 {
        seq![]
    } else {
        let k = index_of(s, '\n');
        proof {
            lemma_index_of_bounds(s, '\n');
        }
        if k >= s.len() {
            seq![s]
        } else {
            seq![strip_cr(s.take(k))] + lines(s.skip(k + 1))
        }
    }
}

// ── Lemmas ──────────────────────────────────────────────────────────────────

pub proof fn lemma_index_of_bounds(s: Seq<char>, c: char)
    ensures
        0 <= index_of(s, c) <= s.len(),
        index_of(s, c) < s.len() ==> s[index_of(s, c)] == c,
        forall|j: int| 0 <= j < index_of(s, c) ==> s[j] != c,
    decreases s.len(),
{
    if s.len() > 0 && s[0] != c {
        lemma_index_of_bounds(s.drop_first(), c);
        assert forall|j: int| 0 <= j < index_of(s, c) implies s[j] != c by {
            if j > 0 {
                assert(s[j] == s.drop_first()[j - 1]);
            }
        }
    }
}

pub proof fn lemma_index_of_skip(s: Seq<char>, c: char, i: int)
    requires
        0 <= i <= s.len(),
        forall|j: int| 0 <= j < i ==> s[j] != c,
    ensures
        index_of(s, c) == i + index_of(s.skip(i), c),
    decreases i,
{
    if i > 0 {
        assert(s[0] != c);
        assert(s.skip(i) == s.drop_first().skip(i - 1));
        assert forall|j: int| 0 <= j < i - 1 implies s.drop_first()[j] != c by {
            assert(s.drop_first()[j] == s[j + 1]);
        }
        lemma_index_of_skip(s.drop_first(), c, i - 1);
    } else {
        assert(s.skip(0) == s);
    }
}

/// Characterises `index_of` by its defining property.
pub proof fn lemma_index_of_unique(s: Seq<char>, c: char, k: int)
    requires
        0 <= k <= s.len(),
        k < s.len() ==> s[k] == c,
        forall|j: int| 0 <= j < k ==> s[j] != c,
    ensures
        index_of(s, c) == k,
{
    lemma_index_of_skip(s, c, k);
    if k < s.len() {
        assert(s.skip(k)[0] == c);
    } else {
        assert(s.skip(k).len() == 0);
    }
}

pub proof fn lemma_trim_start_skip(s: Seq<char>, i: int)
    requires
        0 <= i <= s.len(),
        forall|j: int| 0 <= j < i ==> is_white_space(#[trigger] s[j]),
    ensures
        trim_start(s) == trim_start(s.skip(i)),
    decreases i,
{
    if i > 0 {
        assert(is_white_space(s[0]));
        assert(s.skip(i) == s.drop_first().skip(i - 1));
        assert forall|j: int| 0 <= j < i - 1 implies is_white_space(#[trigger] s.drop_first()[j]) by {
            assert(s.drop_first()[j] == s[j + 1]);
        }
        lemma_trim_start_skip(s.drop_first(), i - 1);
    } else {
        assert(s.skip(0) == s);
    }
}

pub proof fn lemma_trim_end_take(s: Seq<char>, i: int)
    requires
        0 <= i <= s.len(),
        forall|j: int| i <= j < s.len() ==> is_white_space(#[trigger] s[j]),
    ensures
        trim_end(s) == trim_end(s.take(i)),
    decreases s.len() - i,
{
    if i < s.len() {
        assert(s.drop_last().take(i) == s.take(i));
        assert forall|j: int| i <= j < s.drop_last().len() implies is_white_space(#[trigger] s.drop_last()[j]) by {
            assert(s.drop_last()[j] == s[j]);
        }
        assert(is_white_space(s[s.len() - 1]));
        lemma_trim_end_take(s.drop_last(), i);
    } else {
        assert(s.take(i) == s);
    }
}

/// `trim_start` drops exactly the leading white space: the result is `s`
/// from its first other character on.
pub proof fn lemma_trim_start_is_skip(s: Seq<char>) -> (i: int)
    ensures
        0 <= i <= s.len(),
        forall|j: int| 0 <= j < i ==> is_white_space(#[trigger] s[j]),
        i < s.len() ==> !is_white_space(s[i]),
        trim_start(s) == s.skip(i),
    decreases s.len(),
{
    if s.len() > 0 && is_white_space(s[0]) {
        let k = lemma_trim_start_is_skip(s.drop_first());
        assert forall|j: int| 0 <= j < k + 1 implies is_white_space(#[trigger] s[j]) by {
            if j > 0 {
                assert(s[j] == s.drop_first()[j - 1]);
            }
        }
        assert(s.drop_first().skip(k) =~= s.skip(k + 1));
        if k + 1 < s.len() {
            assert(s[k + 1] == s.drop_first()[k]);
        }
        k + 1
    } else {
        assert(s.skip(0) =~= s);
        0
    }
}

/// `trim_end` drops exactly the trailing white space: the result is `s` up
/// to just after its last other character.
pub proof fn lemma_trim_end_is_take(s: Seq<char>) -> (e: int)
    ensures
        0 <= e <= s.len(),
        forall|j: int| e <= j < s.len() ==> is_white_space(#[trigger] s[j]),
        e > 0 ==> !is_white_space(s[e - 1]),
        trim_end(s) == s.take(e),
    decreases s.len(),
{
    if s.len() > 0 && is_white_space(s.last()) {
        let k = lemma_trim_end_is_take(s.drop_last());
        assert forall|j: int| k <= j < s.len() implies is_white_space(#[trigger] s[j]) by {
            if j < s.len() - 1 {
                assert(s[j] == s.drop_last()[j]);
            }
        }
        assert(s.drop_last().take(k) =~= s.take(k));
        if k > 0 {
            assert(s[k - 1] == s.drop_last()[k - 1]);
        }
        k
    } else {
        assert(s.take(s.len() as int) =~= s);
        s.len() as int
    }
}

/// A text that neither begins nor ends with white space trims to itself.
pub proof fn lemma_trim_fixed(x: Seq<char>)
    requires
        x.len() > 0 ==> !is_white_space(x[0]) && !is_white_space(x.last()),
    ensures
        trim(x) == x,
{
}

/// Trimming, cutting at the first `c` (a character that is not white space)
/// and trimming again gives what cutting and trimming gives.
pub proof fn lemma_trim_before_char(p: Seq<char>, c: char)
    requires
        !is_white_space(c),
    ensures
        trim(before_char(trim(p), c)) == trim(before_char(p, c)),
{
    let a = lemma_trim_start_is_skip(p);
    let rest = p.skip(a);
    let e = lemma_trim_end_is_take(rest);
    let b = a + e;
    let core = p.subrange(a, b);
    assert(rest.take(e) =~= core);
    assert(trim(p) == core);
    assert forall|j: int| b <= j < p.len() implies is_white_space(#[trigger] p[j]) by {
        assert(p[j] == rest[j - a]);
    }
    if e > 0 {
        assert(p[b - 1] == rest[e - 1]);
        assert(core.last() == p[b - 1]);
        assert(core[0] == p[a]);
    }
    lemma_index_of_bounds(p, c);
    let k = index_of(p, c);
    if k < p.len() {
        assert(p[k] == c);
    }
    if k < b {
        assert(k >= a) by {
            if k < a {
                assert(is_white_space(p[k]));
            }
        }
        assert forall|j: int| 0 <= j < k - a implies core[j] != c by {
            assert(core[j] == p[a + j]);
        }
        assert(core[k - a] == p[k]);
        lemma_index_of_unique(core, c, k - a);
        assert(core.take(k - a) =~= p.take(k).skip(a));
        assert forall|j: int| 0 <= j < a implies is_white_space(#[trigger] p.take(k)[j]) by {
            assert(p.take(k)[j] == p[j]);
        }
        lemma_trim_start_skip(p.take(k), a);
    } else {
        assert(k == p.len()) by {
            if k < p.len() {
                assert(is_white_space(p[k]));
            }
        }
        assert forall|j: int| 0 <= j < core.len() implies core[j] != c by {
            assert(core[j] == p[a + j]);
        }
        lemma_index_of_unique(core, c, core.len() as int);
        assert(core.take(core.len() as int) =~= core);
        assert(p.take(k) =~= p);
        lemma_trim_fixed(core);
    }
}

/// A text of white space alone trims to nothing.
pub proof fn lemma_trim_all_white(s: Seq<char>)
    requires
        forall|j: int| 0 <= j < s.len() ==> is_white_space(#[trigger] s[j]),
    ensures
        trim(s).len() == 0,
{
    lemma_trim_start_skip(s, s.len() as int);
    assert(s.skip(s.len() as int).len() == 0);
    assert(trim_start(s.skip(s.len() as int)) == s.skip(s.len() as int));
}

/// Trimming ignores a trailing white-space character.
pub proof fn lemma_trim_drop_white_last(s: Seq<char>)
    requires
        s.len() > 0,
        is_white_space(s.last()),
    ensures
        trim(s) == trim(s.drop_last()),
{
    let x = s.drop_last();
    let i = lemma_trim_start_is_skip(s);
    if i == s.len() {
        lemma_trim_all_white(s);
        assert forall|j: int| 0 <= j < x.len() implies is_white_space(#[trigger] x[j]) by {
            assert(x[j] == s[j]);
        }
        lemma_trim_all_white(x);
    } else {
        assert(i < s.len() - 1);
        assert forall|j: int| 0 <= j < i implies is_white_space(#[trigger] x[j]) by {
            assert(x[j] == s[j]);
        }
        lemma_trim_start_skip(x, i);
        assert(x.skip(i)[0] == s[i]);
        assert(trim_start(x.skip(i)) == x.skip(i));
        let y = s.skip(i);
        assert(y.drop_last() =~= x.skip(i));
        assert(y.last() == s.last());
        assert(trim_end(y) == trim_end(y.drop_last()));
    }
}

/// The text before the first `c` is the same with or without a trailing
/// character other than `c`.
pub proof fn lemma_before_char_drop_last(s: Seq<char>, c: char)
    requires
        s.len() > 0,
        s.last() != c,
    ensures
        index_of(s, c) < s.len() ==> before_char(s, c) == before_char(s.drop_last(), c),
        index_of(s, c) == s.len() ==> before_char(s, c) == s && before_char(s.drop_last(), c) == s.drop_last(),
{
    let x = s.drop_last();
    lemma_index_of_bounds(s, c);
    let k = index_of(s, c);
    if k < s.len() {
        assert(k < x.len());
        assert forall|j: int| 0 <= j < k implies x[j] != c by {
            assert(x[j] == s[j]);
        }
        lemma_index_of_unique(x, c, k);
        assert(x.take(k) =~= s.take(k));
    } else {
        assert forall|j: int| 0 <= j < x.len() implies x[j] != c by {
            assert(x[j] == s[j]);
        }
        lemma_index_of_unique(x, c, x.len() as int);
        assert(s.take(k) =~= s);
        assert(x.take(x.len() as int) =~= x);
    }
}

/// Splitting a text that ends a line (or is empty), followed by more text,
/// gives the lines of each part.
pub proof fn lemma_lines_concat(a: Seq<char>, b: Seq<char>)
    requires
        a.len() == 0 || a.last() == '\n',
    ensures
        lines(a + b) == lines(a) + lines(b),
    decreases a.len(),
{
    if a.len() == 0 {
        assert(a + b =~= b);
        assert(lines(a) + lines(b) =~= lines(b));
    } else {
        let s = a + b;
        lemma_index_of_bounds(a, '\n');
        let k = index_of(a, '\n');
        assert(k < a.len());
        assert forall|j: int| 0 <= j < k implies s[j] != '\n' by {
            assert(s[j] == a[j]);
        }
        assert(s[k] == a[k]);
        lemma_index_of_unique(s, '\n', k);
        assert(s.take(k) =~= a.take(k));
        let rest = a.skip(k + 1);
        assert(s.skip(k + 1) =~= rest + b);
        if rest.len() > 0 {
            assert(rest.last() == a.last());
        }
        lemma_lines_concat(rest, b);
        assert(lines(s) =~= lines(a) + lines(b));
    }
}

/// A line without a line break, terminated by one, is a single line.
pub proof fn lemma_lines_single(l: Seq<char>)
    requires
        forall|j: int| 0 <= j < l.len() ==> l[j] != '\n',
    ensures
        lines(l.push('\n')) == seq![strip_cr(l)],
{
    let s = l.push('\n');
    assert forall|j: int| 0 <= j < l.len() implies s[j] != '\n' by {
        assert(s[j] == l[j]);
    }
    lemma_index_of_unique(s, '\n', l.len() as int);
    assert(s.take(l.len() as int) =~= l);
    assert(s.skip(l.len() as int + 1).len() == 0);
    assert(lines(s.skip(l.len() as int + 1)) =~= Seq::<Seq<char>>::empty());
    assert(lines(s) =~= seq![strip_cr(l)]);
}

/// No line holds a line break.
pub proof fn lemma_lines_no_break(s: Seq<char>)
    ensures
        forall|i: int, j: int| 0 <= i < lines(s).len() && 0 <= j < lines(s)[i].len() ==> lines(s)[i][j] != '\n',
    decreases s.len(),
{
    if s.len() > 0 {
        lemma_index_of_bounds(s, '\n');
        let k = index_of(s, '\n');
        if k < s.len() {
            lemma_lines_no_break(s.skip(k + 1));
            let first = strip_cr(s.take(k));
            assert forall|j: int| 0 <= j < first.len() implies first[j] != '\n' by {
                assert(first[j] == s[j]);
            }
            assert forall|i: int, j: int| 0 <= i < lines(s).len() && 0 <= j < lines(s)[i].len() implies lines(
                s,
            )[i][j] != '\n' by {
                if i > 0 {
                    assert(lines(s)[i] == lines(s.skip(k + 1))[i - 1]);
                }
            }
        }
    }
}

// ── Executable helpers ──────────────────────────────────────────────────────

/// The characters of `s`, in order.
pub fn chars_of(s: &str) -> (v: Vec<char>)
    ensures
        v@ == s@,
{
    let mut v: Vec<char> = Vec::new();
    for c in it: s.chars()
        invariant
            it.seq() == s@,
            v@ == s@.take(it.index() as int),
    {
        v.push(c);
        assert(s@.take(it.index() + 1) == s@.take(it.index() as int).push(c));
    }
    assert(s@.take(s@.len() as int) == s@);
    v
}

/// The string made of `cs[lo..hi]`.
pub fn string_from(cs: &Vec<char>, lo: usize, hi: usize) -> (r: String)
    requires
        lo <= hi <= cs.len(),
    ensures
        r@ == cs@.subrange(lo as int, hi as int),
{
    let mut r = String::new();
    let mut i = lo;
    while i < hi
        invariant
            lo <= i <= hi <= cs.len(),
            r@ == cs@.subrange(lo as int, i as int),
        decreases hi - i,
    {
        push_char(&mut r, cs[i]);
        assert(cs@.subrange(lo as int, i + 1) == cs@.subrange(lo as int, i as int).push(cs@[i as int]));
        i = i + 1;
    }
    r
}

/// Whether two strings hold the same characters.
pub fn str_eq(a: &str, b: &str) -> (r: bool)
    ensures
        r == (a@ == b@),
{
    let x = chars_of(a);
    let y = chars_of(b);
    if x.len() != y.len() {
        return false;
    }
    let mut i: usize = 0;
    while i < x.len()
        invariant
            x.len() == y.len(),
            i <= x.len(),
            x@ == a@,
            y@ == b@,
            forall|j: int| 0 <= j < i ==> x@[j] == y@[j],
        decreases x.len() - i,
    {
        if x[i] != y[i] {
            return false;
        }
        i = i + 1;
    }
    assert(x@ =~= y@);
    true
}

/// Index of the first `c` in `cs[from..]`, or `cs.len()`.
pub fn find_char_from(cs: &Vec<char>, from: usize, c: char) -> (k: usize)
    requires
        from <= cs.len(),
    ensures
        from <= k <= cs.len(),
        k == from + index_of(cs@.skip(from as int), c),
        k < cs.len() ==> cs@[k as int] == c,
        forall|j: int| from <= j < k ==> cs@[j] != c,
{
    let mut k = from;
    while k < cs.len() && cs[k] != c
        invariant
            from <= k <= cs.len(),
            forall|j: int| from <= j < k ==> cs@[j] != c,
        decreases cs.len() - k,
    {
        k = k + 1;
    }
    proof {
        let t = cs@.skip(from as int);
        assert forall|j: int| 0 <= j < k - from implies t[j] != c by {
            assert(t[j] == cs@[from + j]);
        }
        if k < cs.len() {
            assert(t[k - from] == cs@[k as int]);
        }
        lemma_index_of_unique(t, c, k - from);
    }
    k
}

/// Bounds `[lo, hi)` of `cs[from..to]` with white space removed at both ends.
pub fn trim_bounds(cs: &Vec<char>, from: usize, to: usize) -> (r: (usize, usize))
    requires
        from <= to <= cs.len(),
    ensures
        from <= r.0 <= r.1 <= to,
        cs@.subrange(r.0 as int, r.1 as int) == trim(cs@.subrange(from as int, to as int)),
{
    let ghost s = cs@.subrange(from as int, to as int);
    let mut lo = from;
    while lo < to && char_is_whitespace(cs[lo])
        invariant
            from <= lo <= to <= cs.len(),
            forall|j: int| from <= j < lo ==> is_white_space(#[trigger] cs@[j]),
        decreases to - lo,
    {
        lo = lo + 1;
    }
    proof {
        assert forall|j: int| 0 <= j < lo - from implies is_white_space(#[trigger] s[j]) by {
            assert(s[j] == cs@[from + j]);
        }
        lemma_trim_start_skip(s, lo - from);
        assert(s.skip(lo - from) == cs@.subrange(lo as int, to as int));
        if lo < to {
            assert(cs@.subrange(lo as int, to as int)[0] == cs@[lo as int]);
        }
    }
    let mut hi = to;
    while hi > lo && char_is_whitespace(cs[hi - 1])
        invariant
            lo <= hi <= to <= cs.len(),
            forall|j: int| hi <= j < to ==> is_white_space(#[trigger] cs@[j]),
        decreases hi - lo,
    {
        hi = hi - 1;
    }
    proof {
        let u = cs@.subrange(lo as int, to as int);
        assert forall|j: int| hi - lo <= j < u.len() implies is_white_space(#[trigger] u[j]) by {
            assert(u[j] == cs@[lo + j]);
        }
        lemma_trim_end_take(u, hi - lo);
        assert(u.take(hi - lo) == cs@.subrange(lo as int, hi as int));
        if hi > lo {
            assert(cs@.subrange(lo as int, hi as int).last() == cs@[hi - 1]);
        }
    }
    (lo, hi)
}

/// `s` with white space removed at both ends, as `str::trim` returns it.
pub fn trim_str(s: &str) -> (r: String)
    ensures
        r@ == trim(s@),
{
    let cs = chars_of(s);
    let (lo, hi) = trim_bounds(&cs, 0, cs.len());
    assert(cs@.subrange(0, cs@.len() as int) == cs@);
    string_from(&cs, lo, hi)
}

/// Whether `s` starts with `p`.
pub fn str_starts_with(s: &str, p: &str) -> (r: bool)
    ensures
        r == starts_with(s@, p@),
{
    let x = chars_of(s);
    let y = chars_of(p);
    if y.len() > x.len() {
        return false;
    }
    let mut i: usize = 0;
    while i < y.len()
        invariant
            y.len() <= x.len(),
            i <= y.len(),
            x@ == s@,
            y@ == p@,
            forall|j: int| 0 <= j < i ==> x@[j] == y@[j],
        decreases y.len() - i,
    {
        if x[i] != y[i] {
            assert(x@.take(y@.len() as int)[i as int] != y@[i as int]);
            return false;
        }
        i = i + 1;
    }
    assert(x@.take(y@.len() as int) =~= y@);
    true
}

/// Whether `s` ends with `p`.
pub fn str_ends_with(s: &str, p: &str) -> (r: bool)
    ensures
        r == ends_with(s@, p@),
{
    let x = chars_of(s);
    let y = chars_of(p);
    if y.len() > x.len() {
        return false;
    }
    let off = x.len() - y.len();
    let mut i: usize = 0;
    while i < y.len()
        invariant
            y.len() <= x.len(),
            off == x.len() - y.len(),
            i <= y.len(),
            x@ == s@,
            y@ == p@,
            forall|j: int| 0 <= j < i ==> x@[off + j] == y@[j],
        decreases y.len() - i,
    {
        if x[off + i] != y[i] {
            assert(x@.skip(off as int)[i as int] != y@[i as int]);
            return false;
        }
        i = i + 1;
    }
    assert(x@.skip(off as int) =~= y@);
    true
}

/// The lines of `s`, as `str::lines` yields them.
pub fn lines_of(s: &str) -> (r: Vec<String>)
    ensures
        r@.map_values(|l: String| l@) == lines(s@),
{
    let cs = chars_of(s);
    let mut r: Vec<String> = Vec::new();
    let mut pos: usize = 0;
    assert(cs@.skip(0) == cs@);
    while pos < cs.len()
        invariant
            pos <= cs.len(),
            cs@ == s@,
            lines(s@) == r@.map_values(|l: String| l@) + lines(cs@.skip(pos as int)),
        decreases cs.len() - pos,
    {
        let ghost rest = cs@.skip(pos as int);
        let ghost before = r@.map_values(|l: String| l@);
        let k = find_char_from(&cs, pos, '\n');
        let ghost kk = k - pos;
        assert(kk == index_of(rest, '\n'));
        if k == cs.len() {
            let line = string_from(&cs, pos, cs.len());
            assert(rest == cs@.subrange(pos as int, cs.len() as int));
            assert(lines(rest) == seq![rest]);
            r.push(line);
            assert(cs@.skip(cs.len() as int).len() == 0);
            assert(lines(cs@.skip(cs.len() as int)) == Seq::<Seq<char>>::empty());
            pos = cs.len();
        } else {
            let mut end = k;
            if end > pos && cs[end - 1] == '\r' {
                end = end - 1;
            }
            let line = string_from(&cs, pos, end);
            proof {
                assert(rest.take(kk) == cs@.subrange(pos as int, k as int));
                assert(rest.skip(kk + 1) == cs@.skip(k + 1));
                assert(strip_cr(rest.take(kk)) == cs@.subrange(pos as int, end as int));
            }
            r.push(line);
            pos = k + 1;
        }
        assert(r@.map_values(|l: String| l@) =~= before.push(r@.last()@));
    }
    assert(cs@.skip(pos as int).len() == 0);
    assert(r@.map_values(|l: String| l@) + lines(cs@.skip(pos as int)) =~= r@.map_values(|l: String| l@));
    r
}

/// `s` without its leading white space, as `str::trim_start` returns it.
pub fn trim_start_str(s: &str) -> (r: String)
    ensures
        r@ == trim_start(s@),
{
    let cs = chars_of(s);
    let mut lo: usize = 0;
    while lo < cs.len() && char_is_whitespace(cs[lo])
        invariant
            lo <= cs.len(),
            cs@ == s@,
            forall|j: int| 0 <= j < lo ==> is_white_space(#[trigger] cs@[j]),
        decreases cs.len() - lo,
    {
        lo = lo + 1;
    }
    proof {
        lemma_trim_start_skip(cs@, lo as int);
        assert(cs@.skip(lo as int) == cs@.subrange(lo as int, cs.len() as int));
        if lo < cs.len() {
            assert(cs@.skip(lo as int)[0] == cs@[lo as int]);
        }
    }
    string_from(&cs, lo, cs.len())
}

// ── Decimal numbers ─────────────────────────────────────────────────────────

pub open spec fn is_ascii_digit(c: char) -> bool {
    '0' <= c && c <= '9'
}

pub open spec fn digit_value(c: char) -> nat {
    (c as nat - '0' as nat) as nat
}

/// The value of a non-empty string of ASCII digits.
pub open spec fn digits_value(s: Seq<char>) -> nat
    decreases s.len(),
{
    if s.len() == 0 {
        0
    } else {
        digits_value(s.drop_last()) * 10 + digit_value(s.last())
    }
}

pub open spec fn all_digits(s: Seq<char>) -> bool {
    forall|i: int| 0 <= i < s.len() ==> #[trigger] is_ascii_digit(s[i])
}

/// What `str::parse::<usize>` accepts: an optional `+` and then one or more
/// ASCII digits whose value fits in `usize`; nothing else (no sign `-`, no
/// white space).
pub open spec fn parsed_usize(s: Seq<char>) -> Option<usize> {
    let d = if s.len() > 0 && s[0] == '+' {
        s.drop_first()
    } else {
        s
    };
    if d.len() > 0 && all_digits(d) && digits_value(d) <= usize::MAX {
        Some(digits_value(d) as usize)
    } else {
        None
    }
}

/// The decimal digits of `n`, without leading zeros ("0" for zero).
pub open spec fn decimal(n: nat) -> Seq<char>
    decreases n,
{
    if n < 10 {
        seq![('0' as nat + n) as char]
    } else {
        decimal(n / 10).push(('0' as nat + n % 10) as char)
    }
}

proof fn lemma_digits_value_mono(s: Seq<char>, i: int)
    requires
        0 <= i <= s.len(),
        all_digits(s),
    ensures
        digits_value(s.take(i)) <= digits_value(s),
    decreases s.len() - i,
{
    if i < s.len() {
        assert(s.drop_last().take(i) == s.take(i));
        assert forall|j: int| 0 <= j < s.drop_last().len() implies #[trigger] is_ascii_digit(s.drop_last()[j]) by {
            assert(s.drop_last()[j] == s[j]);
        }
        lemma_digits_value_mono(s.drop_last(), i);
    } else {
        assert(s.take(i) == s);
    }
}

/// Parses a decimal `usize` as `str::parse::<usize>` does.
pub fn parse_usize(s: &str) -> (r: Option<usize>)
    ensures
        r == parsed_usize(s@),
{
    let cs = chars_of(s);
    let start: usize = if cs.len() > 0 && cs[0] == '+' {
        1
    } else {
        0
    };
    let ghost d = cs@.skip(start as int);
    assert(d == (if s@.len() > 0 && s@[0] == '+' {
        s@.drop_first()
    } else {
        s@
    }));
    if start == cs.len() {
        return None;
    }
    let mut value: usize = 0;
    let mut i = start;
    assert(d.take(0) =~= Seq::<char>::empty());
    while i < cs.len()
        invariant
            start <= i <= cs.len(),
            cs@ == s@,
            d == cs@.skip(start as int),
            d == (if s@.len() > 0 && s@[0] == '+' {
                s@.drop_first()
            } else {
                s@
            }),
            d.len() > 0,
            all_digits(d.take(i - start)),
            value == digits_value(d.take(i - start)),
        decreases cs.len() - i,
    {
        let c = cs[i];
        assert(d[i - start] == c);
        assert(d.take(i - start + 1).drop_last() == d.take(i - start));
        assert(d.take(i - start + 1).last() == c);
        if !('0' <= c && c <= '9') {
            assert(!is_ascii_digit(d[i - start]));
            assert(!all_digits(d));
            return None;
        }
        let dv = (c as u32 - '0' as u32) as usize;
        assert(dv == digit_value(c));
        if value > (usize::MAX - dv) / 10 {
            proof {
                assert(value * 10 + dv > usize::MAX) by (nonlinear_arith)
                    requires
                        value > (usize::MAX - dv) / 10,
                        dv <= 9,
                ;
                assert forall|j: int| 0 <= j < d.take(i - start + 1).len() implies #[trigger] is_ascii_digit(
                    d.take(i - start + 1)[j],
                ) by {
                    if j < i - start {
                        assert(d.take(i - start + 1)[j] == d.take(i - start)[j]);
                    }
                }
                assert(digits_value(d.take(i - start + 1)) == value * 10 + dv);
                if all_digits(d) {
                    lemma_digits_value_mono(d, i - start + 1);
                    assert(digits_value(d) > usize::MAX);
                }
            }
            return None;
        }
        proof {
            assert(value * 10 + dv <= usize::MAX) by (nonlinear_arith)
                requires
                    value <= (usize::MAX - dv) / 10,
                    dv <= 9,
            ;
            assert forall|j: int| 0 <= j < d.take(i - start + 1).len() implies #[trigger] is_ascii_digit(
                d.take(i - start + 1)[j],
            ) by {
                if j < i - start {
                    assert(d.take(i - start + 1)[j] == d.take(i - start)[j]);
                }
            }
        }
        value = value * 10 + dv;
        i = i + 1;
    }
    assert(d.take(i - start) == d);
    Some(value)
}

/// The decimal digits of `n`.
pub fn decimal_string(n: usize) -> (r: String)
    ensures
        r@ == decimal(n as nat),
    decreases n,
{
    if n < 10 {
        let c = char_from_digit(n);
        let mut s = String::new();
        push_char(&mut s, c);
        assert(s@ =~= decimal(n as nat));
        s
    } else {
        let mut s = decimal_string(n / 10);
        push_char(&mut s, char_from_digit(n % 10));
        s
    }
}

/// The ASCII digit for `d`.
fn char_from_digit(d: usize) -> (c: char)
    requires
        d < 10,
    ensures
        c == ('0' as nat + d) as char,
{
    if d == 0 { '0' }
    else if d == 1 { '1' }
    else if d == 2 { '2' }
    else if d == 3 { '3' }
    else if d == 4 { '4' }
    else if d == 5 { '5' }
    else if d == 6 { '6' }
    else if d == 7 { '7' }
    else if d == 8 { '8' }
    else { '9' }
}

} // verus!
