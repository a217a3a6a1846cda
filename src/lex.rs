//! Character classes and the skip rule shared by every production.

use vstd::prelude::*;

verus! {

/// Whether `c` has the Unicode Alphabetic property.
pub uninterp spec fn alphabetic(c: char) -> bool;

/// Relies on `char::is_alphabetic`: the Unicode Alphabetic property, which
/// among ASCII characters holds of the letters and of nothing else.
#[verifier::external_body]
pub fn is_alphabetic(c: char) -> (r: bool)
    ensures
        r == alphabetic(c),
        (c as u32) < 128 ==> (r <==> is_ascii_letter(c)),
{
    c.is_alphabetic()
}

/// `a`..`z` and `A`..`Z`.
pub open spec fn is_ascii_letter(c: char) -> bool {
    ('a' <= c && c <= 'z') || ('A' <= c && c <= 'Z')
}

/// `0`..`9`.
pub open spec fn is_digit(c: char) -> bool {
    '0' <= c && c <= '9'
}

/// Characters skipped one at a time: space, tab, form feed and newline.
pub open spec fn is_blank(c: char) -> bool {
    c == ' ' || c == '\t' || c == '\x0c' || c == '\n'
}

/// Characters with the Unicode White_Space property.
pub open spec fn is_white_space(c: char) -> bool {
    let u = c as u32;
    (0x9 <= u && u <= 0xd) || u == 0x20 || u == 0x85 || u == 0xa0 || u == 0x1680 || (0x2000 <= u
        && u <= 0x200a) || u == 0x2028 || u == 0x2029 || u == 0x202f || u == 0x205f || u == 0x3000
}

/// The classes of characters that make up runs.
#[derive(Clone, Copy, Debug, PartialEq, Eq)]
pub enum CharClass {
    /// `0`..`9`
    Digit,
    /// Unicode alphabetic characters.
    Letter,
    /// ASCII letters, digits, `/` and `_`.
    PathChar,
    /// Alphabetic characters, digits and `_`.
    IdentChar,
}

/// Whether `c` belongs to `class`.
pub open spec fn in_class(c: char, class: CharClass) -> bool {
    match class {
        CharClass::Digit => is_digit(c),
        CharClass::Letter => alphabetic(c),
        CharClass::PathChar => is_ascii_letter(c) || is_digit(c) || c == '/' || c == '_',
        CharClass::IdentChar => alphabetic(c) || is_digit(c) || c == '_',
    }
}

/// End of the longest run of `class` characters that starts at `i`.
pub open spec fn run_end(s: Seq<char>, i: int, class: CharClass) -> int
    decreases s.len() - i,
{
    if 0 <= i < s.len() && in_class(s[i], class) {
        run_end(s, i + 1, class)
    } else {
        i
    }
}

/// Position reached from `i` by the skip rule: blanks are skipped, and so is
/// a line comment (`//` up to a newline) together with its newline. A
/// comment that no newline ends is not skipped.
pub open spec fn skip(s: Seq<char>, i: int) -> int
    decreases s.len() - i, 0nat,
{
    if 0 <= i < s.len() {
        if is_blank(s[i]) {
            skip(s, i + 1)
        } else if s[i] == '/' && i + 1 < s.len() && s[i + 1] == '/' {
            comment_skip(s, i + 2, i)
        } else {
            i
        }
    } else {
        i
    }
}

/// The skip rule inside a comment that started at `start`, at `j`.
pub open spec fn comment_skip(s: Seq<char>, j: int, start: int) -> int
    decreases s.len() - j, 1nat,
{
    if 0 <= j < s.len() {
        if s[j] == '\n' {
            skip(s, j + 1)
        } else {
            comment_skip(s, j + 1, start)
        }
    } else {
        start
    }
}

/// Whether `s[i..]` starts with `t`.
pub open spec fn starts_with_at(s: Seq<char>, i: int, t: Seq<char>) -> bool {
    0 <= i && i + t.len() <= s.len() && s.subrange(i, i + t.len()) == t
}

fn char_in_class(c: char, class: CharClass) -> (r: bool)
    ensures
        r == in_class(c, class),
{
    match class {
        CharClass::Digit => '0' <= c && c <= '9',
        CharClass::Letter => is_alphabetic(c),
        CharClass::PathChar => ('a' <= c && c <= 'z') || ('A' <= c && c <= 'Z') || ('0' <= c && c
            <= '9') || c == '/' || c == '_',
        CharClass::IdentChar => is_alphabetic(c) || ('0' <= c && c <= '9') || c == '_',
    }
}

/// End of the longest run of `class` characters of `s` from `i`.
pub fn scan_run(s: &[char], i: usize, class: CharClass) -> (r: usize)
    requires
        i <= s@.len(),
    ensures
        r == run_end(s@, i as int, class),
        i <= r <= s@.len(),
{
    let mut p = i;
    while p < s.len() && char_in_class(s[p], class)
        invariant
            i <= p <= s@.len(),
            run_end(s@, i as int, class) == run_end(s@, p as int, class),
        decreases s@.len() - p,
    {
        p = p + 1;
    }
    p
}

/// Applies the skip rule to `s` from `i`.
pub fn skip_space(s: &[char], i: usize) -> (r: usize)
    requires
        i <= s@.len(),
    ensures
        r == skip(s@, i as int),
        i <= r <= s@.len(),
{
    let mut p = i;
    loop
        invariant
            i <= p <= s@.len(),
            skip(s@, i as int) == skip(s@, p as int),
        decreases s@.len() - p,
    {
        if p < s.len() && (s[p] == ' ' || s[p] == '\t' || s[p] == '\x0c' || s[p] == '\n') {
            p = p + 1;
        } else if s.len() - p > 1 && s[p] == '/' && s[p + 1] == '/' {
            let mut q = p + 2;
            while q < s.len() && s[q] != '\n'
                invariant
                    p + 2 <= q <= s@.len(),
                    comment_skip(s@, q as int, p as int) == skip(s@, p as int),
                decreases s@.len() - q,
            {
                q = q + 1;
            }
            if q >= s.len() {
                return p;
            }
            p = q + 1;
        } else {
            return p;
        }
    }
}

/// Whether every character of `s[i..]` is white space.
pub fn rest_is_white_space(s: &[char], i: usize) -> (r: bool)
    requires
        i <= s@.len(),
    ensures
        r == (forall|k: int| i <= k < s@.len() ==> is_white_space(#[trigger] s@[k])),
{
    let mut p = i;
    while p < s.len()
        invariant
            i <= p <= s@.len(),
            forall|k: int| i <= k < p ==> is_white_space(#[trigger] s@[k]),
        decreases s@.len() - p,
    {
        let u = s[p] as u32;
        let w = (0x9 <= u && u <= 0xd) || u == 0x20 || u == 0x85 || u == 0xa0 || u == 0x1680 || (
        0x2000 <= u && u <= 0x200a) || u == 0x2028 || u == 0x2029 || u == 0x202f || u == 0x205f
            || u == 0x3000;
        if !w {
            return false;
        }
        p = p + 1;
    }
    true
}

} // verus!

verus! {

/// The skip rule never moves backwards, and stays within the text.
pub proof fn lemma_skip_bounds(s: Seq<char>, i: int)
    requires
        0 <= i,
    ensures
        i <= skip(s, i),
        i <= s.len() ==> skip(s, i) <= s.len(),
    decreases s.len() - i, 0nat,
{
    if 0 <= i < s.len() {
        if is_blank(s[i]) {
            lemma_skip_bounds(s, i + 1);
        } else if s[i] == '/' && i + 1 < s.len() && s[i + 1] == '/' {
            lemma_comment_skip_bounds(s, i + 2, i);
        }
    }
}

proof fn lemma_comment_skip_bounds(s: Seq<char>, j: int, start: int)
    requires
        0 <= start < j,
    ensures
        comment_skip(s, j, start) == start || j < comment_skip(s, j, start),
        j <= s.len() ==> comment_skip(s, j, start) <= s.len(),
    decreases s.len() - j, 1nat,
{
    if 0 <= j < s.len() {
        if s[j] == '\n' {
            lemma_skip_bounds(s, j + 1);
        } else {
            lemma_comment_skip_bounds(s, j + 1, start);
        }
    }
}

/// Every character of a run is of its class, and the run stays within the text.
pub proof fn lemma_run_all(s: Seq<char>, i: int, class: CharClass)
    requires
        0 <= i,
    ensures
        forall|k: int| i <= k < run_end(s, i, class) ==> in_class(#[trigger] s[k], class),
        i <= run_end(s, i, class),
        i <= s.len() ==> run_end(s, i, class) <= s.len(),
    decreases s.len() - i,
{
    if 0 <= i < s.len() && in_class(s[i], class) {
        lemma_run_all(s, i + 1, class);
    }
}

} // verus!

verus! {

/// A line comment, from its `//` to its newline, is skipped like blank
/// space: the skip rule reaches the same position from the start of the
/// comment as from just after its newline.
pub proof fn lemma_line_comment_skipped(s: Seq<char>, i: int, j: int)
    requires
        0 <= i,
        i + 2 <= j < s.len(),
        s[i] == '/' && s[i + 1] == '/',
        forall|k: int| i + 2 <= k < j ==> s[k] != '\n',
        s[j] == '\n',
    ensures
        skip(s, i) == skip(s, j + 1),
{
    lemma_comment_reaches_newline(s, i + 2, i, j);
}

proof fn lemma_comment_reaches_newline(s: Seq<char>, k: int, start: int, j: int)
    requires
        0 <= start,
        start + 2 <= k <= j < s.len(),
        forall|m: int| k <= m < j ==> s[m] != '\n',
        s[j] == '\n',
    ensures
        comment_skip(s, k, start) == skip(s, j + 1),
    decreases j - k,
{
    if k < j {
        lemma_comment_reaches_newline(s, k + 1, start, j);
    }
}

} // verus!
