//! Character-level text handling: trimming, searching, splitting into lines
//! and pieces, and reading numbers, all over sequences of `char`.
//!
//! Executable functions work on a `Vec<char>` and a half-open range
//! `start..end` inside it, so that a whole file is decoded once and every
//! line, key and value is a range of it.
use vstd::prelude::*;

verus! {

// ---------------------------------------------------------------------------
// Character classes
// ---------------------------------------------------------------------------

/// The Unicode `White_Space` property, which is what `char::is_whitespace`
/// tests.
pub open spec fn is_whitespace(c: char) -> bool {
    let n = c as u32;
    ||| 0x09 <= n <= 0x0d
    ||| n == 0x20
    ||| n == 0x85
    ||| n == 0xa0
    ||| n == 0x1680
    ||| 0x2000 <= n <= 0x200a
    ||| n == 0x2028
    ||| n == 0x2029
    ||| n == 0x202f
    ||| n == 0x205f
    ||| n == 0x3000
}

/// The characters that a trim removes.
#[derive(Clone, Copy, Debug, PartialEq, Eq, Structural)]
pub enum CharClass {
    /// Unicode white space.
    Whitespace,
    /// `[` and `]`.
    SquareBracket,
}

pub open spec fn in_class(c: char, class: CharClass) -> bool {
    match class {
        CharClass::Whitespace => is_whitespace(c),
        CharClass::SquareBracket => c == '[' || c == ']',
    }
}

pub fn is_in_class(c: char, class: CharClass) -> (b: bool)
    ensures
        b == in_class(c, class),
{
    match class {
        CharClass::Whitespace => {
            let n = c as u32;
            (0x09 <= n && n <= 0x0d) || n == 0x20 || n == 0x85 || n == 0xa0 || n == 0x1680 || (0x2000
                <= n && n <= 0x200a) || n == 0x2028 || n == 0x2029 || n == 0x202f || n == 0x205f
                || n == 0x3000
        },
        CharClass::SquareBracket => c == '[' || c == ']',
    }
}

// ---------------------------------------------------------------------------
// Trimming
// ---------------------------------------------------------------------------

/// `s` without its leading characters of `class`.
pub open spec fn trim_start(s: Seq<char>, class: CharClass) -> Seq<char>
    decreases s.len(),
{
    if s.len() > 0 && in_class(s[0], class) {
        trim_start(s.drop_first(), class)
    } else {
        s
    }
}

/// `s` without its trailing characters of `class`.
pub open spec fn trim_end(s: Seq<char>, class: CharClass) -> Seq<char>
    decreases s.len(),
{
    if s.len() > 0 && in_class(s.last(), class) {
        trim_end(s.drop_last(), class)
    } else {
        s
    }
}

/// `s` without leading and trailing characters of `class`: with
/// `Whitespace` this is `str::trim`, with `SquareBracket` it is
/// `str::trim_matches(&['[', ']'])`.
pub open spec fn trim_class(s: Seq<char>, class: CharClass) -> Seq<char> {
    trim_end(trim_start(s, class), class)
}

/// `str::trim`.
pub open spec fn trim(s: Seq<char>) -> Seq<char> {
    trim_class(s, CharClass::Whitespace)
}

/// The range of `s[start..end]` that is left after trimming `class` from
/// both ends.
pub fn trim_range(s: &Vec<char>, start: usize, end: usize, class: CharClass) -> (r: (usize, usize))
    requires
        start <= end <= s.len(),
    ensures
        start <= r.0 <= r.1 <= end,
        s@.subrange(r.0 as int, r.1 as int) == trim_class(s@.subrange(start as int, end as int), class),
{
    let mut i = start;
    while i < end && is_in_class(s[i], class)
        invariant
            start <= i <= end <= s.len(),
            trim_start(s@.subrange(start as int, end as int), class) == trim_start(
                s@.subrange(i as int, end as int),
                class,
            ),
        decreases end - i,
    {
        assert(s@.subrange(i as int, end as int).drop_first() =~= s@.subrange(i + 1, end as int));
        i += 1;
    }
    assert(trim_start(s@.subrange(i as int, end as int), class) == s@.subrange(i as int, end as int));
    let mut j = end;
    while j > i && is_in_class(s[j - 1], class)
        invariant
            start <= i <= j <= end <= s.len(),
            trim_class(s@.subrange(start as int, end as int), class) == trim_end(
                s@.subrange(i as int, j as int),
                class,
            ),
        decreases j,
    {
        assert(s@.subrange(i as int, j as int).drop_last() =~= s@.subrange(i as int, j - 1));
        j -= 1;
    }
    (i, j)
}

// ---------------------------------------------------------------------------
// Lower case
// ---------------------------------------------------------------------------

/// What `str::to_lowercase` returns for a string: the Unicode lower-case
/// mapping of each of its characters, which Unicode's tables define.
pub uninterp spec fn spec_lowercase(s: Seq<char>) -> Seq<char>;

/// Every character of `s` is ASCII.
pub open spec fn is_ascii_text(s: Seq<char>) -> bool {
    forall|i: int| 0 <= i < s.len() ==> (#[trigger] s[i] as u32) < 0x80
}

/// The ASCII lower case of `c`: `A`-`Z` become `a`-`z`, every other
/// character stays.
pub open spec fn ascii_lower(c: char) -> char {
    let n = c as u32;
    if 0x41 <= n <= 0x5a {
        ((n + 0x20) as u32) as char
    } else {
        c
    }
}

/// Calls `str::to_lowercase`. Trusted: the contract claims that the result
/// is the name `spec_lowercase` applied to the characters of `s` (that
/// `to_lowercase` depends on its argument alone), and that on a string of
/// ASCII characters it maps `A`-`Z` to `a`-`z` and keeps every other
/// character, as Unicode's lower-case mapping does for ASCII. What it does
/// to other characters is not stated.
#[verifier::external_body]
pub(crate) fn lowercase(s: &str) -> (r: String)
    ensures
        r@ == spec_lowercase(s@),
        is_ascii_text(s@) ==> r@ == s@.map_values(|c: char| ascii_lower(c)),
{
    s.to_lowercase()
}

// ---------------------------------------------------------------------------
// Comparing with literals
// ---------------------------------------------------------------------------

/// The characters of `s`.
pub fn chars_of(s: &str) -> (v: Vec<char>)
    ensures
        v@ == s@,
{
    let mut v: Vec<char> = Vec::new();
    for c in it: s.chars()
        invariant
            it.seq() == s@,
            v@ == it.seq().take(it.index() as int),
    {
        v.push(c);
    }
    v
}

/// Whether `s[start..end]` spells `lit`.
pub fn range_eq(s: &Vec<char>, start: usize, end: usize, lit: &str) -> (b: bool)
    requires
        start <= end <= s.len(),
    ensures
        b == (s@.subrange(start as int, end as int) == lit@),
{
    let n = lit.unicode_len();
    if n != end - start {
        return false;
    }
    let mut k: usize = 0;
    while k < n
        invariant
            start <= end <= s.len(),
            n == end - start,
            n == lit@.len(),
            k <= n,
            forall|q: int| 0 <= q < k ==> s@[start + q] == lit@[q],
        decreases n - k,
    {
        if s[start + k] != lit.get_char(k) {
            assert(s@.subrange(start as int, end as int)[k as int] != lit@[k as int]);
            return false;
        }
        k += 1;
    }
    assert(s@.subrange(start as int, end as int) =~= lit@);
    true
}

/// Whether the characters of `v` spell `lit`.
pub fn chars_eq(v: &Vec<char>, lit: &str) -> (b: bool)
    ensures
        b == (v@ == lit@),
{
    assert(v@.subrange(0, v@.len() as int) =~= v@);
    range_eq(v, 0, v.len(), lit)
}

/// `str::starts_with`.
pub open spec fn starts_with(s: Seq<char>, p: Seq<char>) -> bool {
    p.len() <= s.len() && s.take(p.len() as int) == p
}

/// Whether `s[start..end]` begins with `lit`.
pub fn range_starts_with(s: &Vec<char>, start: usize, end: usize, lit: &str) -> (b: bool)
    requires
        start <= end <= s.len(),
    ensures
        b == starts_with(s@.subrange(start as int, end as int), lit@),
{
    let n = lit.unicode_len();
    if n > end - start {
        return false;
    }
    let r = range_eq(s, start, start + n, lit);
    assert(s@.subrange(start as int, end as int).take(n as int) =~= s@.subrange(
        start as int,
        start + n,
    ));
    r
}

// ---------------------------------------------------------------------------
// Searching
// ---------------------------------------------------------------------------

/// `p` occurs in `s` at index `i`.
pub open spec fn matches_at(s: Seq<char>, p: Seq<char>, i: int) -> bool {
    0 <= i && i + p.len() <= s.len() && s.subrange(i, i + p.len()) == p
}

/// The first index at or after `i` at which `p` occurs in `s`.
pub open spec fn find_from(s: Seq<char>, p: Seq<char>, i: int) -> Option<int>
    decreases s.len() - i,
{
    if i < 0 || i >= s.len() || i + p.len() > s.len() {
        None
    } else if matches_at(s, p, i) {
        Some(i)
    } else {
        find_from(s, p, i + 1)
    }
}

/// The first index at which `p` occurs in `s`, as `str::find` gives it for a
/// non-empty pattern.
pub open spec fn find(s: Seq<char>, p: Seq<char>) -> Option<int> {
    find_from(s, p, 0)
}

/// `str::contains` for a non-empty pattern.
pub open spec fn contains(s: Seq<char>, p: Seq<char>) -> bool {
    find(s, p) is Some
}

pub proof fn lemma_find_from_bounds(s: Seq<char>, p: Seq<char>, i: int)
    ensures
        find_from(s, p, i) matches Some(k) ==> i <= k && matches_at(s, p, k) && k < s.len(),
    decreases s.len() - i,
{
    if !(i < 0 || i >= s.len() || i + p.len() > s.len()) && !matches_at(s, p, i) {
        lemma_find_from_bounds(s, p, i + 1);
    }
}

/// The first occurrence of `p` in `s[start..end]`, as an offset from `start`.
pub fn find_in_range(s: &Vec<char>, start: usize, end: usize, p: &Vec<char>) -> (r: Option<usize>)
    requires
        start <= end <= s.len(),
    ensures
        r matches Some(k) ==> find(s@.subrange(start as int, end as int), p@) == Some(k as int),
        r is None ==> find(s@.subrange(start as int, end as int), p@) is None,
{
    let ghost t = s@.subrange(start as int, end as int);
    let len = end - start;
    let plen = p.len();
    let mut i: usize = 0;
    while i < len && plen <= len - i
        invariant
            start <= end <= s.len(),
            len == end - start,
            t == s@.subrange(start as int, end as int),
            plen == p@.len(),
            i <= len,
            find(t, p@) == find_from(t, p@, i as int),
        decreases len - i,
    {
        let mut j: usize = 0;
        let mut same = true;
        while j < plen
            invariant
                start <= end <= s.len(),
                len == end - start,
                t == s@.subrange(start as int, end as int),
                plen == p@.len(),
                i < len,
                i + plen <= len,
                j <= plen,
                same ==> forall|q: int| 0 <= q < j ==> t[i + q] == p@[q],
                !same ==> !matches_at(t, p@, i as int),
            decreases plen - j,
        {
            if s[start + i + j] != p[j] {
                assert(t.subrange(i as int, i + plen)[j as int] != p@[j as int]);
                same = false;
            }
            j += 1;
        }
        if same {
            assert(t.subrange(i as int, i + plen) =~= p@);
            return Some(i);
        }
        i += 1;
    }
    None
}

// ---------------------------------------------------------------------------
// Splitting
// ---------------------------------------------------------------------------

/// `str::split_once` for a non-empty pattern.
pub open spec fn split_once(s: Seq<char>, p: Seq<char>) -> Option<(Seq<char>, Seq<char>)> {
    match find(s, p) {
        Some(i) => Some((s.take(i), s.skip(i + p.len()))),
        None => None,
    }
}

/// `str::split` for a non-empty pattern: the pieces between the
/// occurrences of `p`, found from the left without overlap.
pub open spec fn split(s: Seq<char>, p: Seq<char>) -> Seq<Seq<char>>
    decreases s.len(),
{
    if p.len() == 0 {
        seq![s]
    } else {
        match find(s, p) {
            Some(i) => {
                proof {
                    lemma_find_from_bounds(s, p, 0);
                }
                seq![s.take(i)] + split(s.skip(i + p.len()), p)
            },
            None => seq![s],
        }
    }
}

// ---------------------------------------------------------------------------
// Lines
// ---------------------------------------------------------------------------

/// The index of the first `'\n'` at or after `i`, or the length of `s`.
pub open spec fn line_end(s: Seq<char>, i: int) -> int
    decreases s.len() - i,
{
    if i < 0 || i >= s.len() || s[i] == '\n' {
        i
    } else {
        line_end(s, i + 1)
    }
}

pub proof fn lemma_line_end_bounds(s: Seq<char>, i: int)
    requires
        0 <= i <= s.len(),
    ensures
        i <= line_end(s, i) <= s.len(),
        line_end(s, i) < s.len() ==> s[line_end(s, i)] == '\n',
        forall|q: int| i <= q < line_end(s, i) ==> s[q] != '\n',
    decreases s.len() - i,
{
    if i < s.len() && s[i] != '\n' {
        lemma_line_end_bounds(s, i + 1);
    }
}

/// The line that starts at `i`: up to the next `'\n'`, without a `'\r'`
/// that stands just before that `'\n'`.
pub open spec fn line_at(s: Seq<char>, i: int) -> Seq<char> {
    let e = line_end(s, i);
    let l = s.subrange(i, e);
    if e < s.len() && l.len() > 0 && l.last() == '\r' {
        l.drop_last()
    } else {
        l
    }
}

/// The lines of `s` from index `i` on.
pub open spec fn lines_from(s: Seq<char>, i: int) -> Seq<Seq<char>>
    decreases s.len() + 1 - i,
{
    if i < 0 || i >= s.len() {
        seq![]
    } else {
        proof {
            lemma_line_end_bounds(s, i);
        }
        seq![line_at(s, i)] + lines_from(s, line_end(s, i) + 1)
    }
}

/// `str::lines`: the text split at `'\n'` and at `"\r\n"`, with no empty
/// line after a final line ending.
pub open spec fn lines(s: Seq<char>) -> Seq<Seq<char>> {
    lines_from(s, 0)
}

proof fn lemma_line_end_shift(p: Seq<char>, r: Seq<char>, j: int)
    requires
        0 <= j <= r.len(),
    ensures
        line_end(p + r, p.len() + j) == p.len() + line_end(r, j),
    decreases r.len() - j,
{
    if j < r.len() && r[j] != '\n' {
        assert((p + r)[p.len() + j] == r[j]);
        lemma_line_end_shift(p, r, j + 1);
    } else if j < r.len() {
        assert((p + r)[p.len() + j] == r[j]);
    }
}

/// The lines of a text from a point on do not depend on what stands before
/// that point.
proof fn lemma_lines_shift(p: Seq<char>, r: Seq<char>, j: int)
    requires
        0 <= j <= r.len(),
    ensures
        lines_from(p + r, p.len() + j) == lines_from(r, j),
    decreases r.len() - j,
{
    if j < r.len() {
        lemma_line_end_shift(p, r, j);
        lemma_line_end_bounds(r, j);
        let e = line_end(r, j);
        assert((p + r).subrange(p.len() + j, p.len() + e) =~= r.subrange(j, e));
        assert(line_at(p + r, p.len() + j) == line_at(r, j));
        if e + 1 <= r.len() {
            lemma_lines_shift(p, r, e + 1);
        } else {
            assert(lines_from(p + r, p.len() + e + 1) =~= seq![]);
            assert(lines_from(r, e + 1) =~= seq![]);
        }
        assert(lines_from(p + r, p.len() + j) == seq![line_at(r, j)] + lines_from(p + r, p.len() + e + 1));
        assert(lines_from(r, j) == seq![line_at(r, j)] + lines_from(r, e + 1));
    } else {
        assert(lines_from(p + r, p.len() + j) =~= seq![]);
        assert(lines_from(r, j) =~= seq![]);
    }
}

proof fn lemma_line_end_prefix(a: Seq<char>, r: Seq<char>, i: int)
    requires
        a.len() > 0,
        a.last() == '\n',
        0 <= i < a.len(),
    ensures
        line_end(a + r, i) == line_end(a, i),
        line_end(a, i) < a.len(),
    decreases a.len() - i,
{
    assert((a + r)[i] == a[i]);
    if a[i] != '\n' {
        assert(i + 1 < a.len());
        lemma_line_end_prefix(a, r, i + 1);
    }
}

proof fn lemma_lines_prefix(a: Seq<char>, r: Seq<char>, i: int)
    requires
        a.len() > 0,
        a.last() == '\n',
        0 <= i <= a.len(),
    ensures
        lines_from(a + r, i) == lines_from(a, i) + lines(r),
    decreases a.len() - i,
{
    if i == a.len() {
        lemma_lines_shift(a, r, 0);
        assert(lines_from(a, i) + lines(r) =~= lines(r));
    } else {
        lemma_line_end_prefix(a, r, i);
        lemma_line_end_bounds(a, i);
        let e = line_end(a, i);
        assert((a + r).subrange(i, e) =~= a.subrange(i, e));
        assert(line_at(a + r, i) == line_at(a, i));
        lemma_lines_prefix(a, r, e + 1);
        assert(lines_from(a + r, i) =~= lines_from(a, i) + lines(r));
    }
}

/// The lines of a text that ends a line (or is empty) followed by more text
/// are the lines of the one followed by the lines of the other.
pub proof fn lemma_lines_append(a: Seq<char>, r: Seq<char>)
    requires
        a.len() == 0 || a.last() == '\n',
    ensures
        lines(a + r) == lines(a) + lines(r),
{
    if a.len() == 0 {
        assert(a + r =~= r);
        assert(lines(a) =~= seq![]);
        assert(lines(a) + lines(r) =~= lines(r));
    } else {
        lemma_lines_prefix(a, r, 0);
    }
}

/// The line that a text without a line break makes when a line break
/// follows it: the text without a final `'\r'`.
pub open spec fn terminated_line(c: Seq<char>) -> Seq<char> {
    if c.len() > 0 && c.last() == '\r' {
        c.drop_last()
    } else {
        c
    }
}

/// A text without a line break, followed by one, is a single line.
pub proof fn lemma_lines_single(c: Seq<char>)
    requires
        forall|k: int| 0 <= k < c.len() ==> c[k] != '\n',
    ensures
        lines(c + seq!['\n']) == seq![terminated_line(c)],
{
    let s = c + seq!['\n'];
    lemma_line_end_bounds(s, 0);
    let e = line_end(s, 0);
    assert(s[c.len() as int] == '\n');
    if e < c.len() {
        assert(s[e] == c[e]);
    }
    assert(e == c.len());
    assert(s.subrange(0, e) =~= c);
    assert(lines_from(s, e + 1) =~= seq![]);
    assert(lines(s) =~= seq![terminated_line(c)]);
}

/// A text without a line break and without one after it is a single line,
/// kept whole (an empty text has no lines).
pub proof fn lemma_lines_unterminated(c: Seq<char>)
    requires
        forall|k: int| 0 <= k < c.len() ==> c[k] != '\n',
    ensures
        lines(c) == (if c.len() == 0 {
            seq![]
        } else {
            seq![c]
        }),
{
    if c.len() > 0 {
        lemma_line_end_bounds(c, 0);
        let e = line_end(c, 0);
        if e < c.len() {
            assert(c[e] == '\n');
        }
        assert(c.subrange(0, e) =~= c);
        assert(lines_from(c, e + 1) =~= seq![]);
        assert(lines(c) =~= seq![c]);
    } else {
        assert(lines(c) =~= seq![]);
    }
}

/// A `'\r'` at the end of a text does not change where a pattern without
/// `'\r'` is first found.
pub proof fn lemma_find_before_cr(s: Seq<char>, p: Seq<char>, i: int)
    requires
        p.len() > 0,
        forall|k: int| 0 <= k < p.len() ==> p[k] != '\r',
        0 <= i,
    ensures
        find_from(s + seq!['\r'], p, i) == find_from(s, p, i),
    decreases s.len() + 1 - i,
{
    let t = s + seq!['\r'];
    if i >= t.len() || i + p.len() > t.len() {
    } else if i + p.len() == t.len() {
        assert(t.subrange(i, i + p.len())[p.len() - 1] == '\r');
        assert(!matches_at(t, p, i));
        lemma_find_before_cr(s, p, i + 1);
    } else {
        assert(t.subrange(i, i + p.len()) =~= s.subrange(i, i + p.len()));
        lemma_find_before_cr(s, p, i + 1);
    }
}

proof fn lemma_trim_start_push(v: Seq<char>, w: char, class: CharClass)
    requires
        in_class(w, class),
    ensures
        trim_start(v + seq![w], class) == (if trim_start(v, class).len() == 0 {
            seq![]
        } else {
            trim_start(v, class) + seq![w]
        }),
    decreases v.len(),
{
    let t = v + seq![w];
    if v.len() == 0 {
        assert(t.drop_first() =~= seq![]);
        assert(trim_start(t.drop_first(), class) =~= seq![]);
    } else if in_class(v[0], class) {
        assert(t.drop_first() =~= v.drop_first() + seq![w]);
        lemma_trim_start_push(v.drop_first(), w, class);
    } else {
        assert(t[0] == v[0]);
    }
}

/// Trimming ignores one more white-space character at the end.
pub proof fn lemma_trim_push_whitespace(v: Seq<char>, w: char)
    requires
        is_whitespace(w),
    ensures
        trim(v + seq![w]) == trim(v),
{
    let class = CharClass::Whitespace;
    lemma_trim_start_push(v, w, class);
    let y = trim_start(v, class);
    if y.len() > 0 {
        assert((y + seq![w]).drop_last() =~= y);
        assert((y + seq![w]).last() == w);
    }
}

/// The line that starts at `i`, as the range `r.0..r.1`, and where the
/// next line starts (`r.2`).
pub fn next_line(s: &Vec<char>, i: usize) -> (r: (usize, usize, usize))
    requires
        i < s.len(),
    ensures
        i <= r.0 <= r.1 <= s.len(),
        r.0 == i,
        s@.subrange(r.0 as int, r.1 as int) == line_at(s@, i as int),
        lines_from(s@, i as int) == seq![line_at(s@, i as int)] + lines_from(s@, r.2 as int),
        i < r.2 <= s.len(),
{
    proof {
        lemma_line_end_bounds(s@, i as int);
    }
    let mut e = i;
    while e < s.len() && s[e] != '\n'
        invariant
            i <= e <= s.len(),
            line_end(s@, i as int) == line_end(s@, e as int),
        decreases s.len() - e,
    {
        e += 1;
    }
    let mut stop = e;
    if e < s.len() && e > i && s[e - 1] == '\r' {
        stop = e - 1;
        assert(s@.subrange(i as int, e as int).drop_last() =~= s@.subrange(i as int, stop as int));
    }
    let next = if e < s.len() {
        e + 1
    } else {
        e
    };
    assert(lines_from(s@, next as int) == lines_from(s@, line_end(s@, i as int) + 1));
    (i, stop, next)
}

// ---------------------------------------------------------------------------
// Numbers
// ---------------------------------------------------------------------------

/// The value of a digit in bases up to 16 (`0-9`, `a-f`, `A-F`); 99 for any
/// other character.
pub open spec fn digit_value(c: char) -> int {
    let n = c as u32;
    if 0x30 <= n <= 0x39 {
        n - 0x30
    } else if 0x61 <= n <= 0x66 {
        n - 0x61 + 10
    } else if 0x41 <= n <= 0x46 {
        n - 0x41 + 10
    } else {
        99
    }
}

pub fn digit_of(c: char) -> (d: u32)
    ensures
        d == digit_value(c),
{
    let n = c as u32;
    if 0x30 <= n && n <= 0x39 {
        n - 0x30
    } else if 0x61 <= n && n <= 0x66 {
        n - 0x61 + 10
    } else if 0x41 <= n && n <= 0x46 {
        n - 0x41 + 10
    } else {
        99
    }
}

/// Every character of `s` is a digit in base `radix`.
pub open spec fn all_digits(s: Seq<char>, radix: int) -> bool {
    forall|i: int| 0 <= i < s.len() ==> digit_value(#[trigger] s[i]) < radix
}

/// The number that the digits of `s` spell in base `radix`.
pub open spec fn digits_value(s: Seq<char>, radix: int) -> int
    decreases s.len(),
{
    if s.len() == 0 {
        0
    } else {
        digits_value(s.drop_last(), radix) * radix + digit_value(s.last())
    }
}

proof fn lemma_digits_value_nonneg(s: Seq<char>, radix: int)
    requires
        radix >= 1,
        all_digits(s, radix),
    ensures
        digits_value(s, radix) >= 0,
    decreases s.len(),
{
    if s.len() > 0 {
        lemma_digits_value_nonneg(s.drop_last(), radix);
        let v = digits_value(s.drop_last(), radix);
        assert(v * radix >= 0) by (nonlinear_arith)
            requires
                v >= 0,
                radix >= 1,
        ;
    }
}

/// A prefix of a digit string never spells more than the whole string.
pub proof fn lemma_digits_value_prefix(s: Seq<char>, radix: int, k: int)
    requires
        radix >= 1,
        all_digits(s, radix),
        0 <= k <= s.len(),
    ensures
        digits_value(s.take(k), radix) <= digits_value(s, radix),
    decreases s.len(),
{
    if k < s.len() {
        let t = s.drop_last();
        assert(t.take(k) =~= s.take(k));
        lemma_digits_value_prefix(t, radix, k);
        lemma_digits_value_nonneg(t, radix);
        let v = digits_value(t, radix);
        assert(v * radix >= v) by (nonlinear_arith)
            requires
                v >= 0,
                radix >= 1,
        ;
    } else {
        assert(s.take(k) =~= s);
    }
}

/// `s` with one leading `+` removed, and with one leading `-` removed when
/// `minus` allows it.
pub open spec fn unsigned_digits(s: Seq<char>, minus: bool) -> Seq<char> {
    if s.len() > 0 && (s[0] == '+' || (minus && s[0] == '-')) {
        s.drop_first()
    } else {
        s
    }
}

/// `str::parse::<usize>`: an optional `+` and at least one decimal digit,
/// spelling a number that fits in `usize`.
pub open spec fn parse_usize(s: Seq<char>) -> Option<usize> {
    let digits = unsigned_digits(s, false);
    if digits.len() == 0 || !all_digits(digits, 10) || digits_value(digits, 10) > usize::MAX {
        None
    } else {
        Some(digits_value(digits, 10) as usize)
    }
}

/// `i32::from_str_radix(s, 16)`: an optional sign and at least one hex
/// digit (either case), spelling a number that fits in `i32`.
pub open spec fn parse_hex_i32(s: Seq<char>) -> Option<i32> {
    let digits = unsigned_digits(s, true);
    let negative = s.len() > 0 && s[0] == '-';
    if digits.len() == 0 || !all_digits(digits, 16) {
        None
    } else {
        let m = digits_value(digits, 16);
        let v = if negative {
            -m
        } else {
            m
        };
        if i32::MIN <= v <= i32::MAX {
            Some(v as i32)
        } else {
            None
        }
    }
}

/// Reads `s[start..end]` as `str::parse::<usize>` does.
pub fn parse_usize_range(s: &Vec<char>, start: usize, end: usize) -> (r: Option<usize>)
    requires
        start <= end <= s.len(),
    ensures
        r == parse_usize(s@.subrange(start as int, end as int)),
{
    let ghost t = s@.subrange(start as int, end as int);
    let mut from = start;
    if start < end && s[start] == '+' {
        from = start + 1;
    }
    let ghost digits = unsigned_digits(t, false);
    assert(digits =~= s@.subrange(from as int, end as int));
    if from == end {
        return None;
    }
    let mut acc: usize = 0;
    let mut i = from;
    while i < end
        invariant
            start <= from <= i <= end <= s.len(),
            digits == s@.subrange(from as int, end as int),
            t == s@.subrange(start as int, end as int),
            digits == unsigned_digits(t, false),
            all_digits(digits.take(i - from), 10),
            acc == digits_value(digits.take(i - from), 10),
        decreases end - i,
    {
        let d = digit_of(s[i]);
        if d >= 10 {
            assert(digits[i - from] == s@[i as int]);
            assert(!all_digits(digits, 10));
            return None;
        }
        assert(digits.take(i + 1 - from).drop_last() =~= digits.take(i - from));
        assert(digits.take(i + 1 - from).last() == s@[i as int]);
        let next = match acc.checked_mul(10) {
            Some(m) => m.checked_add(d as usize),
            None => None,
        };
        match next {
            Some(v) => {
                acc = v;
            },
            None => {
                proof {
                    // A longer digit string only grows, so the whole one cannot fit either.
                    let ghost pre = digits.take(i + 1 - from);
                    assert(digits_value(pre, 10) == acc * 10 + d);
                    assert(acc * 10 + d > usize::MAX);
                    if all_digits(digits, 10) {
                        lemma_digits_value_prefix(digits, 10, i + 1 - from);
                    }
                }
                return None;
            },
        }
        i += 1;
    }
    assert(digits.take(i - from) =~= digits);
    Some(acc)
}

/// Reads `s[start..end]` as `i32::from_str_radix(_, 16)` does.
pub fn parse_hex_i32_range(s: &Vec<char>, start: usize, end: usize) -> (r: Option<i32>)
    requires
        start <= end <= s.len(),
    ensures
        r == parse_hex_i32(s@.subrange(start as int, end as int)),
{
    let ghost t = s@.subrange(start as int, end as int);
    let mut from = start;
    let mut negative = false;
    if start < end && (s[start] == '+' || s[start] == '-') {
        negative = s[start] == '-';
        from = start + 1;
    }
    let ghost digits = unsigned_digits(t, true);
    assert(digits =~= s@.subrange(from as int, end as int));
    if from == end {
        return None;
    }
    // 2^31 is the largest magnitude that can fit (as a negative number).
    let limit: u64 = 0x8000_0000;
    let mut acc: u64 = 0;
    let mut i = from;
    while i < end
        invariant
            start <= from <= i <= end <= s.len(),
            digits == s@.subrange(from as int, end as int),
            t == s@.subrange(start as int, end as int),
            digits == unsigned_digits(t, true),
            negative == (t.len() > 0 && t[0] == '-'),
            all_digits(digits.take(i - from), 16),
            acc == digits_value(digits.take(i - from), 16),
            acc <= limit,
            limit == 0x8000_0000,
        decreases end - i,
    {
        let d = digit_of(s[i]);
        if d >= 16 {
            assert(digits[i - from] == s@[i as int]);
            assert(!all_digits(digits, 16));
            return None;
        }
        assert(digits.take(i + 1 - from).drop_last() =~= digits.take(i - from));
        assert(digits.take(i + 1 - from).last() == s@[i as int]);
        let v = acc * 16 + d as u64;
        if v > limit {
            proof {
                if all_digits(digits, 16) {
                    lemma_digits_value_prefix(digits, 16, i + 1 - from);
                }
            }
            return None;
        }
        acc = v;
        i += 1;
    }
    assert(digits.take(i - from) =~= digits);
    if negative {
        let m = acc as i64;
        Some((-m) as i32)
    } else if acc <= 0x7fff_ffff {
        Some(acc as i32)
    } else {
        None
    }
}

// ---------------------------------------------------------------------------
// Laws
// ---------------------------------------------------------------------------

/// The decimal digit for `d < 10`.
pub open spec fn decimal_digit(d: int) -> char {
    ((d + 0x30) as u32) as char
}

/// The decimal notation of `n`, without leading zeros.
pub open spec fn decimal(n: nat) -> Seq<char>
    decreases n,
{
    if n < 10 {
        seq![decimal_digit(n as int)]
    } else {
        decimal(n / 10).push(decimal_digit((n % 10) as int))
    }
}

proof fn lemma_decimal_value(n: nat)
    ensures
        digits_value(decimal(n), 10) == n,
        all_digits(decimal(n), 10),
        decimal(n).len() > 0,
        decimal(n)[0] != '+',
    decreases n,
{
    if n >= 10 {
        lemma_decimal_value(n / 10);
        let d = decimal(n);
        assert(d.drop_last() =~= decimal(n / 10));
        assert(d.last() == decimal_digit((n % 10) as int));
        assert(digit_value(d.last()) == n % 10);
        assert((n / 10) * 10 + n % 10 == n) by (nonlinear_arith);
        assert(digits_value(d, 10) == digits_value(decimal(n / 10), 10) * 10 + digit_value(d.last()));
        assert(digits_value(d, 10) == n);
        assert(d[0] == decimal(n / 10)[0]);
        assert forall|i: int| 0 <= i < d.len() implies digit_value(#[trigger] d[i]) < 10 by {
            if i < d.len() - 1 {
                assert(d[i] == decimal(n / 10)[i]);
            }
        }
    } else {
        let d = decimal(n);
        assert(d.drop_last() =~= seq![]);
        assert(digits_value(d.drop_last(), 10) == 0);
        assert(digit_value(d.last()) == n);
        assert(digits_value(d, 10) == n);
    }
}

/// Writing a number in decimal and reading it back as `usize` gives the
/// number.
pub proof fn lemma_parse_usize_decimal(n: usize)
    ensures
        parse_usize(decimal(n as nat)) == Some(n),
{
    lemma_decimal_value(n as nat);
}

/// A leading `+` does not change the number read.
pub proof fn lemma_parse_usize_plus(s: Seq<char>)
    requires
        s.len() == 0 || (s[0] != '+' && s[0] != '-'),
    ensures
        parse_usize(seq!['+'] + s) == parse_usize(s),
{
    assert((seq!['+'] + s).drop_first() =~= s);
}

/// The pieces joined again with the separator.
pub open spec fn join_with(pieces: Seq<Seq<char>>, p: Seq<char>) -> Seq<char>
    decreases pieces.len(),
{
    if pieces.len() == 0 {
        seq![]
    } else if pieces.len() == 1 {
        pieces[0]
    } else {
        pieces[0] + p + join_with(pieces.drop_first(), p)
    }
}

/// Splitting at a separator loses nothing: joining the pieces with it gives
/// the text back.
pub proof fn lemma_split_join(s: Seq<char>, p: Seq<char>)
    requires
        p.len() > 0,
    ensures
        join_with(split(s, p), p) == s,
        split(s, p).len() >= 1,
    decreases s.len(),
{
    lemma_find_from_bounds(s, p, 0);
    match find(s, p) {
        Some(i) => {
            let rest = s.skip(i + p.len());
            lemma_split_join(rest, p);
            let ps = split(s, p);
            assert(ps == seq![s.take(i)] + split(rest, p));
            assert(ps.drop_first() =~= split(rest, p));
            assert(ps[0] == s.take(i));
            assert(s.subrange(i, i + p.len()) == p);
            assert(s =~= s.take(i) + p + rest);
        },
        None => {},
    }
}

/// Trimming leaves a part of the text that neither starts nor ends with
/// white space, and removes only white space around it.
pub proof fn lemma_trim_shape(s: Seq<char>)
    ensures
        exists|a: int, b: int|
            0 <= a <= b <= s.len() && trim(s) == s.subrange(a, b) && (forall|k: int|
                0 <= k < a ==> is_whitespace(#[trigger] s[k])) && (forall|k: int|
                b <= k < s.len() ==> is_whitespace(#[trigger] s[k])),
        trim(s).len() > 0 ==> !is_whitespace(trim(s)[0]) && !is_whitespace(trim(s).last()),
{
    lemma_trim_start_shape(s);
    let a = s.len() - trim_start(s, CharClass::Whitespace).len();
    let t = trim_start(s, CharClass::Whitespace);
    lemma_trim_end_shape(t);
    let b = a + trim(s).len();
    assert(trim(s) == s.subrange(a, b)) by {
        assert(t == s.subrange(a, s.len() as int));
        assert(trim(s) == t.subrange(0, trim(s).len() as int));
    }
    assert forall|k: int| b <= k < s.len() implies is_whitespace(#[trigger] s[k]) by {
        assert(s[k] == t[k - a]);
    }
    if trim(s).len() > 0 {
        assert(trim(s)[0] == t[0]);
    }
}

proof fn lemma_trim_start_shape(s: Seq<char>)
    ensures
        ({
            let t = trim_start(s, CharClass::Whitespace);
            let a = s.len() - t.len();
            &&& t.len() <= s.len()
            &&& t == s.subrange(a, s.len() as int)
            &&& forall|k: int| 0 <= k < a ==> is_whitespace(#[trigger] s[k])
            &&& t.len() > 0 ==> !is_whitespace(t[0])
        }),
    decreases s.len(),
{
    if s.len() > 0 && is_whitespace(s[0]) {
        lemma_trim_start_shape(s.drop_first());
        let t = trim_start(s, CharClass::Whitespace);
        let a = s.len() - t.len();
        assert forall|k: int| 0 <= k < a implies is_whitespace(#[trigger] s[k]) by {
            if k > 0 {
                assert(s[k] == s.drop_first()[k - 1]);
            }
        }
        assert(t =~= s.subrange(a, s.len() as int));
    } else {
        assert(s =~= s.subrange(0, s.len() as int));
    }
}

proof fn lemma_trim_end_shape(s: Seq<char>)
    ensures
        ({
            let t = trim_end(s, CharClass::Whitespace);
            &&& t.len() <= s.len()
            &&& t == s.subrange(0, t.len() as int)
            &&& forall|k: int| t.len() <= k < s.len() ==> is_whitespace(#[trigger] s[k])
            &&& t.len() > 0 ==> !is_whitespace(t.last())
            &&& t.len() > 0 && s.len() > 0 ==> t[0] == s[0]
        }),
    decreases s.len(),
{
    if s.len() > 0 && is_whitespace(s.last()) {
        lemma_trim_end_shape(s.drop_last());
        let t = trim_end(s, CharClass::Whitespace);
        assert forall|k: int| t.len() <= k < s.len() implies is_whitespace(#[trigger] s[k]) by {
            if k < s.len() - 1 {
                assert(s[k] == s.drop_last()[k]);
            }
        }
        assert(t =~= s.subrange(0, t.len() as int));
    } else {
        assert(s =~= s.subrange(0, s.len() as int));
    }
}

} // verus!
