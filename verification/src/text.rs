//! Character-level text primitives shared by the language scanners.
//!
//! The scanners recognise their patterns over sequences of characters; this
//! module holds the character classes, position helpers (skipping spaces,
//! finding the end of a word run), pattern tests and conversions between
//! `&str`, `Vec<char>` and `String` that they are built from.

use vstd::prelude::*;

verus! {

/// Word character of the scanner grammars: ASCII letter, digit or underscore.
/// The character classes here are deliberately ASCII-only: an identifier with
/// characters outside this range is not recognised as a word.
pub open spec fn spec_word_char(c: char) -> bool {
    ('a' <= c && c <= 'z') || ('A' <= c && c <= 'Z') || ('0' <= c && c <= '9') || c == '_'
}

#[verifier::when_used_as_spec(spec_word_char)]
pub fn word_char(c: char) -> (b: bool)
    ensures
        b == spec_word_char(c),
{
    ('a' <= c && c <= 'z') || ('A' <= c && c <= 'Z') || ('0' <= c && c <= '9') || c == '_'
}

/// Uppercase ASCII letter; the scanners treat a name as a class name
/// candidate when its first character is one of these.
pub open spec fn spec_upper_char(c: char) -> bool {
    'A' <= c && c <= 'Z'
}

#[verifier::when_used_as_spec(spec_upper_char)]
pub fn upper_char(c: char) -> (b: bool)
    ensures
        b == spec_upper_char(c),
{
    'A' <= c && c <= 'Z'
}

/// Horizontal whitespace inside a line (a line never holds `'\n'`).
pub open spec fn spec_space_char(c: char) -> bool {
    c == ' ' || c == '\t' || c == '\r' || c == '\u{b}' || c == '\u{c}'
}

#[verifier::when_used_as_spec(spec_space_char)]
pub fn space_char(c: char) -> (b: bool)
    ensures
        b == spec_space_char(c),
{
    c == ' ' || c == '\t' || c == '\r' || c == '\u{b}' || c == '\u{c}'
}

/// Word character or `'.'`, as in a dotted module or namespace path.
pub open spec fn spec_worddot_char(c: char) -> bool {
    spec_word_char(c) || c == '.'
}

#[verifier::when_used_as_spec(spec_worddot_char)]
pub fn worddot_char(c: char) -> (b: bool)
    ensures
        b == spec_worddot_char(c),
{
    word_char(c) || c == '.'
}

/// First position at or after `p` whose character is not a space,
/// or the end of the line.
pub open spec fn spec_skip_spaces(s: Seq<char>, p: int) -> int
    decreases s.len() - p,
{
    if 0 <= p < s.len() && spec_space_char(s[p]) {
        spec_skip_spaces(s, p + 1)
    } else {
        p
    }
}

pub proof fn lemma_skip_spaces(s: Seq<char>, p: int)
    requires
        0 <= p <= s.len(),
    ensures
        p <= spec_skip_spaces(s, p) <= s.len(),
        forall|k: int| p <= k < spec_skip_spaces(s, p) ==> spec_space_char(s[k]),
        spec_skip_spaces(s, p) < s.len() ==> !spec_space_char(s[spec_skip_spaces(s, p)]),
    decreases s.len() - p,
{
    if p < s.len() && spec_space_char(s[p]) {
        lemma_skip_spaces(s, p + 1);
    }
}

pub fn skip_spaces(line: &Vec<char>, p: usize) -> (q: usize)
    requires
        p <= line@.len(),
    ensures
        q == spec_skip_spaces(line@, p as int),
        p <= q <= line@.len(),
{
    let mut q = p;
    while q < line.len() && space_char(line[q])
        invariant
            p <= q <= line@.len(),
            spec_skip_spaces(line@, p as int) == spec_skip_spaces(line@, q as int),
        decreases line@.len() - q,
    {
        q = q + 1;
    }
    q
}

/// First position at or after `p` whose character is not a word character,
/// or the end of the line: the end of the word run starting at `p`.
pub open spec fn spec_word_end(s: Seq<char>, p: int) -> int
    decreases s.len() - p,
{
    if 0 <= p < s.len() && spec_word_char(s[p]) {
        spec_word_end(s, p + 1)
    } else {
        p
    }
}

pub proof fn lemma_word_end(s: Seq<char>, p: int)
    requires
        0 <= p <= s.len(),
    ensures
        p <= spec_word_end(s, p) <= s.len(),
        forall|k: int| p <= k < spec_word_end(s, p) ==> spec_word_char(s[k]),
        spec_word_end(s, p) < s.len() ==> !spec_word_char(s[spec_word_end(s, p)]),
    decreases s.len() - p,
{
    if p < s.len() && spec_word_char(s[p]) {
        lemma_word_end(s, p + 1);
    }
}

pub fn word_end(line: &Vec<char>, p: usize) -> (q: usize)
    requires
        p <= line@.len(),
    ensures
        q == spec_word_end(line@, p as int),
        p <= q <= line@.len(),
{
    let mut q = p;
    while q < line.len() && word_char(line[q])
        invariant
            p <= q <= line@.len(),
            spec_word_end(line@, p as int) == spec_word_end(line@, q as int),
        decreases line@.len() - q,
    {
        q = q + 1;
    }
    q
}

/// End of the run of word-or-dot characters starting at `p`.
pub open spec fn spec_worddot_end(s: Seq<char>, p: int) -> int
    decreases s.len() - p,
{
    if 0 <= p < s.len() && spec_worddot_char(s[p]) {
        spec_worddot_end(s, p + 1)
    } else {
        p
    }
}

pub fn worddot_end(line: &Vec<char>, p: usize) -> (q: usize)
    requires
        p <= line@.len(),
    ensures
        q == spec_worddot_end(line@, p as int),
        p <= q <= line@.len(),
{
    let mut q = p;
    while q < line.len() && worddot_char(line[q])
        invariant
            p <= q <= line@.len(),
            spec_worddot_end(line@, p as int) == spec_worddot_end(line@, q as int),
        decreases line@.len() - q,
    {
        q = q + 1;
    }
    q
}

/// End of the run of non-space characters starting at `p`, capped at `bound`.
pub open spec fn spec_nonspace_end(s: Seq<char>, p: int, bound: int) -> int
    decreases bound - p,
{
    if p < bound && 0 <= p < s.len() && !spec_space_char(s[p]) {
        spec_nonspace_end(s, p + 1, bound)
    } else {
        p
    }
}

pub fn nonspace_end(line: &Vec<char>, p: usize, bound: usize) -> (q: usize)
    requires
        p <= bound <= line@.len(),
    ensures
        q == spec_nonspace_end(line@, p as int, bound as int),
        p <= q <= bound,
{
    let mut q = p;
    while q < bound && !space_char(line[q])
        invariant
            p <= q <= bound <= line@.len(),
            spec_nonspace_end(line@, p as int, bound as int) == spec_nonspace_end(
                line@,
                q as int,
                bound as int,
            ),
        decreases bound - q,
    {
        q = q + 1;
    }
    q
}

/// Start of the run of trailing spaces that ends at `c`, staying at or after
/// `a`: the position after the last non-space character in `[a, c)`.
pub open spec fn spec_trim_end(s: Seq<char>, a: int, c: int) -> int
    decreases c - a,
{
    if c > a && 0 <= c - 1 < s.len() && spec_space_char(s[c - 1]) {
        spec_trim_end(s, a, c - 1)
    } else {
        c
    }
}

pub fn trim_end(line: &Vec<char>, a: usize, c: usize) -> (b: usize)
    requires
        a <= c <= line@.len(),
    ensures
        b == spec_trim_end(line@, a as int, c as int),
        a <= b <= c,
{
    let mut b = c;
    while b > a && space_char(line[b - 1])
        invariant
            a <= b <= c <= line@.len(),
            spec_trim_end(line@, a as int, c as int) == spec_trim_end(line@, a as int, b as int),
        decreases b,
    {
        b = b - 1;
    }
    b
}

/// First position at or after `p` holding character `c`, or the length of
/// the line when `c` does not occur at or after `p`.
pub open spec fn spec_find_char(s: Seq<char>, p: int, c: char) -> int
    decreases s.len() - p,
{
    if 0 <= p < s.len() {
        if s[p] == c {
            p
        } else {
            spec_find_char(s, p + 1, c)
        }
    } else {
        p
    }
}

pub proof fn lemma_find_char(s: Seq<char>, p: int, c: char)
    requires
        0 <= p <= s.len(),
    ensures
        p <= spec_find_char(s, p, c) <= s.len(),
        forall|k: int| p <= k < spec_find_char(s, p, c) ==> s[k] != c,
        spec_find_char(s, p, c) < s.len() ==> s[spec_find_char(s, p, c)] == c,
    decreases s.len() - p,
{
    if p < s.len() && s[p] != c {
        lemma_find_char(s, p + 1, c);
    }
}

pub fn find_char(line: &Vec<char>, p: usize, c: char) -> (q: usize)
    requires
        p <= line@.len(),
    ensures
        q == spec_find_char(line@, p as int, c),
        p <= q <= line@.len(),
{
    let mut q = p;
    while q < line.len() && line[q] != c
        invariant
            p <= q <= line@.len(),
            spec_find_char(line@, p as int, c) == spec_find_char(line@, q as int, c),
        decreases line@.len() - q,
    {
        q = q + 1;
    }
    q
}

/// The characters of `pat` occur in `s` starting exactly at position `p`.
pub open spec fn spec_pat_at(s: Seq<char>, p: int, pat: Seq<char>) -> bool {
    0 <= p && p + pat.len() <= s.len() && (forall|k: int|
        0 <= k < pat.len() ==> s[p + k] == pat[k])
}

pub fn pat_at(line: &Vec<char>, p: usize, pat: &str) -> (b: bool)
    requires
        p <= line@.len(),
    ensures
        b == spec_pat_at(line@, p as int, pat@),
{
    let n = pat.unicode_len();
    let len = line.len();
    if n > len - p {
        return false;
    }
    let mut k: usize = 0;
    let mut q: usize = p;
    while k < n
        invariant
            0 <= k <= n,
            q == p + k,
            n == pat@.len(),
            len == line@.len(),
            p + n <= len,
            forall|j: int| 0 <= j < k ==> line@[p + j] == pat@[j],
        decreases n - k,
    {
        if line[q] != pat.get_char(k) {
            return false;
        }
        k = k + 1;
        q = q + 1;
    }
    true
}

pub proof fn lemma_pat_at_subrange(s: Seq<char>, a: int, b: int, q: int, pat: Seq<char>)
    requires
        0 <= a <= b <= s.len(),
        0 <= q,
        q + pat.len() <= b - a,
    ensures
        spec_pat_at(s.subrange(a, b), q, pat) == spec_pat_at(s, a + q, pat),
{
    let sub = s.subrange(a, b);
    if spec_pat_at(sub, q, pat) {
        assert forall|k: int| 0 <= k < pat.len() implies s[a + q + k] == pat[k] by {
            assert(sub[q + k] == pat[k]);
        }
    }
    if spec_pat_at(s, a + q, pat) {
        assert forall|k: int| 0 <= k < pat.len() implies sub[q + k] == pat[k] by {
            assert(s[a + q + k] == pat[k]);
        }
    }
}

/// The characters of a string, in order.
pub fn to_chars(s: &str) -> (v: Vec<char>)
    ensures
        v@ == s@,
{
    let n = s.unicode_len();
    let mut v: Vec<char> = Vec::new();
    let mut i: usize = 0;
    while i < n
        invariant
            0 <= i <= n,
            n == s@.len(),
            v@ == s@.subrange(0, i as int),
        decreases n - i,
    {
        let c = s.get_char(i);
        v.push(c);
        proof {
            assert(v@ =~= s@.subrange(0, i + 1));
        }
        i = i + 1;
    }
    proof {
        assert(v@ =~= s@);
    }
    v
}

/// Relies on `String::push` from std: appends one character to the string.
#[verifier::external_body]
fn push_char(s: &mut String, c: char)
    ensures
        final(s)@ == old(s)@.push(c),
{
    s.push(c);
}

/// A `String` holding the characters `line[a..b]`.
pub fn capture_string(line: &Vec<char>, a: usize, b: usize) -> (s: String)
    requires
        a <= b <= line@.len(),
    ensures
        s@ == line@.subrange(a as int, b as int),
{
    let mut s = String::new();
    let mut i = a;
    while i < b
        invariant
            a <= i <= b <= line@.len(),
            s@ == line@.subrange(a as int, i as int),
        decreases b - i,
    {
        push_char(&mut s, line[i]);
        proof {
            assert(s@ =~= line@.subrange(a as int, i + 1));
        }
        i = i + 1;
    }
    s
}

/// A `Vec<char>` holding the characters `line[a..b]`.
pub fn sub_chars(line: &Vec<char>, a: usize, b: usize) -> (v: Vec<char>)
    requires
        a <= b <= line@.len(),
    ensures
        v@ == line@.subrange(a as int, b as int),
{
    let mut v: Vec<char> = Vec::new();
    let mut i = a;
    while i < b
        invariant
            a <= i <= b <= line@.len(),
            v@ == line@.subrange(a as int, i as int),
        decreases b - i,
    {
        v.push(line[i]);
        proof {
            assert(v@ =~= line@.subrange(a as int, i + 1));
        }
        i = i + 1;
    }
    v
}

/// Two strings hold the same characters.
pub fn str_eq(a: &str, b: &str) -> (r: bool)
    ensures
        r == (a@ == b@),
{
    let na = a.unicode_len();
    let nb = b.unicode_len();
    if na != nb {
        proof {
            assert(a@ != b@);
        }
        return false;
    }
    let mut i: usize = 0;
    while i < na
        invariant
            0 <= i <= na,
            na == a@.len() && na == b@.len(),
            forall|j: int| 0 <= j < i ==> a@[j] == b@[j],
        decreases na - i,
    {
        if a.get_char(i) != b.get_char(i) {
            return false;
        }
        i = i + 1;
    }
    proof {
        assert(a@ =~= b@);
    }
    true
}

/// The views of a sequence of strings.
pub open spec fn names_view(v: Seq<String>) -> Seq<Seq<char>> {
    Seq::new(v.len(), |i: int| v[i]@)
}

pub proof fn lemma_names_view_push(v: Seq<String>, x: String)
    ensures
        names_view(v.push(x)) == names_view(v).push(x@),
{
    assert(names_view(v.push(x)) =~= names_view(v).push(x@));
}

/// The views of a sequence of character vectors.
pub open spec fn lines_view(v: Seq<Vec<char>>) -> Seq<Seq<char>> {
    Seq::new(v.len(), |i: int| v[i]@)
}

pub proof fn lemma_lines_view_push(v: Seq<Vec<char>>, x: Vec<char>)
    ensures
        lines_view(v.push(x)) == lines_view(v).push(x@),
{
    assert(lines_view(v.push(x)) =~= lines_view(v).push(x@));
}

/// A scan position strictly after `p`, at most `len`: `e` when `e` lies past
/// `p` and within bounds, otherwise the nearest admissible position.  Keeps
/// the position-scanning functions decreasing.
pub open spec fn spec_advance(len: int, p: int, e: int) -> int {
    if e <= p {
        p + 1
    } else if e > len {
        len
    } else {
        e
    }
}

/// The lines of a text from position `p` on, in the manner of `str::lines`:
/// split at `'\n'`, a `'\r'` directly before the `'\n'` dropped, no empty
/// final line after a trailing `'\n'`.
pub open spec fn spec_lines_from(s: Seq<char>, p: int) -> Seq<Seq<char>>
    decreases s.len() - p,
{
    if p < 0 || p >= s.len() {
        Seq::empty()
    } else {
        let j = spec_find_char(s, p, '\n');
        if j >= s.len() {
            seq![s.subrange(p, s.len() as int)]
        } else {
            let e = if j > p && s[j - 1] == '\r' {
                j - 1
            } else {
                j
            };
            seq![s.subrange(p, e)] + spec_lines_from(s, spec_advance(s.len() as int, p, j + 1))
        }
    }
}

/// The lines of a text, in the manner of `str::lines`.
pub open spec fn spec_lines_of(s: Seq<char>) -> Seq<Seq<char>> {
    spec_lines_from(s, 0)
}

/// Splits a text into its lines.
pub fn split_lines(chars: &Vec<char>) -> (r: Vec<Vec<char>>)
    ensures
        lines_view(r@) == spec_lines_of(chars@),
{
    let len = chars.len();
    let mut r: Vec<Vec<char>> = Vec::new();
    let mut p: usize = 0;
    while p < len
        invariant
            0 <= p <= len,
            len == chars@.len(),
            spec_lines_of(chars@) =~= lines_view(r@) + spec_lines_from(chars@, p as int),
        decreases len - p,
    {
        let j = find_char(chars, p, '\n');
        proof {
            lemma_find_char(chars@, p as int, '\n');
        }
        let ghost r0 = r@;
        let ghost p0 = p as int;
        if j == len {
            let line = sub_chars(chars, p, len);
            proof {
                lemma_lines_view_push(r0, line);
            }
            r.push(line);
            p = len;
        } else {
            let e = if j > p && chars[j - 1] == '\r' {
                j - 1
            } else {
                j
            };
            let line = sub_chars(chars, p, e);
            proof {
                lemma_lines_view_push(r0, line);
            }
            r.push(line);
            p = j + 1;
        }
        proof {
            assert(lines_view(r@) + spec_lines_from(chars@, p as int) =~= lines_view(r0)
                + spec_lines_from(chars@, p0));
        }
    }
    proof {
        assert(lines_view(r@) =~= spec_lines_of(chars@));
    }
    r
}

} // verus!
