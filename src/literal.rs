//! Literal values: integers, floats, quoted strings, paths, `null` and
//! `list(...)` forms.

use vstd::prelude::*;
use crate::lex::{
    is_digit, lemma_run_all, lemma_skip_bounds, run_end, scan_run, skip, skip_space,
    starts_with_at, CharClass,
};

verus! {

/// A literal value.
#[derive(Clone, Debug, PartialEq)]
pub enum Literal {
    /// A type path such as `/obj/item`.
    Path(String),
    /// A string, with escapes resolved. `null` and `list(...)` forms are kept
    /// here too, as written.
    Str(String),
    /// An integer.
    Number(i64),
    /// A floating-point number, kept as written (`str::parse::<f64>` reads
    /// every such text).
    Float(String),
}

/// The mathematical form of a literal.
pub enum LiteralView {
    Path(Seq<char>),
    Str(Seq<char>),
    Number(i64),
    Float(Seq<char>),
}

impl View for Literal {
    type V = LiteralView;

    open spec fn view(&self) -> LiteralView {
        match self {
            Literal::Path(p) => LiteralView::Path(p@),
            Literal::Str(t) => LiteralView::Str(t@),
            Literal::Number(n) => LiteralView::Number(*n),
            Literal::Float(f) => LiteralView::Float(f@),
        }
    }
}

/// The view of a parse result: a value and the position after it.
pub open spec fn parsed<T: View>(r: Option<(T, usize)>) -> Option<(T::V, int)> {
    match r {
        Some((v, e)) => Some((v@, e as int)),
        None => None,
    }
}

/// The text `null`.
pub open spec fn null_text() -> Seq<char> {
    seq!['n', 'u', 'l', 'l']
}

/// The text `list(`.
pub open spec fn list_open_text() -> Seq<char> {
    seq!['l', 'i', 's', 't', '(']
}

/// Value of the decimal digits `s[j..d]`.
pub open spec fn digits_value(s: Seq<char>, j: int, d: int) -> nat
    decreases d - j,
{
    if d <= j {
        0
    } else {
        digits_value(s, j, d - 1) * 10 + ((s[d - 1] as u32) - 48) as nat
    }
}

/// End of an integer literal at `i` (an optional `-`, then digits), unless
/// the digits are followed by `.`, `e` or `E`, which make it a float.
pub open spec fn integer_end(s: Seq<char>, i: int) -> Option<int> {
    let j = if i < s.len() && s[i] == '-' {
        i + 1
    } else {
        i
    };
    let d = run_end(s, j, CharClass::Digit);
    if d > j && !(d < s.len() && (s[d] == '.' || s[d] == 'e' || s[d] == 'E')) {
        Some(d)
    } else {
        None
    }
}

/// Value of the integer literal `s[i..d]`.
pub open spec fn integer_value(s: Seq<char>, i: int, d: int) -> int {
    if s[i] == '-' {
        -digits_value(s, i + 1, d)
    } else {
        digits_value(s, i, d) as int
    }
}

/// End of the mantissa of a float whose optional sign ends at `j`.
pub open spec fn mantissa_end(s: Seq<char>, j: int) -> Option<int> {
    let d = run_end(s, j, CharClass::Digit);
    if d > j {
        if d < s.len() && s[d] == '.' {
            Some(run_end(s, d + 1, CharClass::Digit))
        } else {
            Some(d)
        }
    } else if j < s.len() && s[j] == '.' && run_end(s, j + 1, CharClass::Digit) > j + 1 {
        Some(run_end(s, j + 1, CharClass::Digit))
    } else {
        None
    }
}

/// End of an optional exponent (`e` or `E`, an optional sign, digits) at `m`.
pub open spec fn exponent_end(s: Seq<char>, m: int) -> int {
    if m < s.len() && (s[m] == 'e' || s[m] == 'E') {
        let x = if m + 1 < s.len() && (s[m + 1] == '+' || s[m + 1] == '-') {
            m + 2
        } else {
            m + 1
        };
        let e = run_end(s, x, CharClass::Digit);
        if e > x {
            e
        } else {
            m
        }
    } else {
        m
    }
}

/// End of a float literal at `i`: an optional sign, then `digits`,
/// `digits.`, `digits.digits` or `.digits`, then an optional exponent.
pub open spec fn float_end(s: Seq<char>, i: int) -> Option<int> {
    let j = if i < s.len() && (s[i] == '+' || s[i] == '-') {
        i + 1
    } else {
        i
    };
    match mantissa_end(s, j) {
        Some(m) => Some(exponent_end(s, m)),
        None => None,
    }
}

/// What the escape `\c` stands for inside a string quoted by `q`.
pub open spec fn escape(c: char, q: char) -> Option<Seq<char>> {
    if c == '\\' {
        Some(seq!['\\'])
    } else if c == q {
        Some(seq![q])
    } else if c == 'n' {
        Some(seq!['\n'])
    } else if c == 'i' {
        Some(seq!['\\', 'i'])
    } else {
        None
    }
}

/// The rest of a string quoted by `q` from `j`: its decoded characters and
/// the position after the closing quote.
pub open spec fn string_body(s: Seq<char>, j: int, q: char) -> Option<(Seq<char>, int)>
    decreases s.len() - j,
{
    if !(0 <= j < s.len()) {
        None
    } else if s[j] == q {
        Some((Seq::empty(), j + 1))
    } else if s[j] == '\\' {
        if j + 1 < s.len() && escape(s[j + 1], q) is Some {
            match string_body(s, j + 2, q) {
                Some((t, e)) => Some((escape(s[j + 1], q)->0 + t, e)),
                None => None,
            }
        } else {
            None
        }
    } else {
        match string_body(s, j + 1, q) {
            Some((t, e)) => Some((seq![s[j]] + t, e)),
            None => None,
        }
    }
}

/// The literal at `i`, and the position after it. The alternatives are
/// tried in order: integer, float, quoted string, path, `null`, list. An
/// integer out of the range of `i64` is no literal.
pub open spec fn literal(s: Seq<char>, i: int) -> Option<(LiteralView, int)>
    decreases s.len() - i, 1nat,
{
    if !(0 <= i < s.len()) {
        None
    } else if integer_end(s, i) is Some {
        let d = integer_end(s, i)->0;
        let v = integer_value(s, i, d);
        if i64::MIN <= v <= i64::MAX {
            Some((LiteralView::Number(v as i64), d))
        } else {
            None
        }
    } else if float_end(s, i) is Some {
        let k = float_end(s, i)->0;
        Some((LiteralView::Float(s.subrange(i, k)), k))
    } else if (s[i] == '"' || s[i] == '\'') && string_body(s, i + 1, s[i]) is Some {
        let (t, e) = string_body(s, i + 1, s[i])->0;
        Some((LiteralView::Str(t), e))
    } else if s[i] == '/' {
        let e = run_end(s, i + 1, CharClass::PathChar);
        Some((LiteralView::Path(s.subrange(i, e)), e))
    } else if starts_with_at(s, i, null_text()) {
        Some((LiteralView::Str(null_text()), i + 4))
    } else if list_end(s, i) is Some {
        let e = list_end(s, i)->0;
        Some((LiteralView::Str(s.subrange(i, e)), e))
    } else {
        None
    }
}

/// End of a `list(` literal `,` ... `)` form at `i`.
pub open spec fn list_end(s: Seq<char>, i: int) -> Option<int>
    decreases s.len() - i, 0nat,
{
    if 0 <= i && starts_with_at(s, i, list_open_text()) {
        let a = skip(s, i + 5);
        proof {
            lemma_skip_bounds(s, i + 5);
        }
        let stop = match literal(s, a) {
            Some((_, b)) => if a < b <= s.len() {
                list_items(s, b)
            } else {
                a
            },
            None => a,
        };
        let c = skip(s, stop);
        if 0 <= c < s.len() && s[c] == ')' {
            Some(c + 1)
        } else {
            None
        }
    } else {
        None
    }
}

/// Where the elements of a list stop, given that one ended at `b`: each
/// further element is a `,` and a literal.
pub open spec fn list_items(s: Seq<char>, b: int) -> int
    decreases s.len() - b, 2nat,
{
    if 0 <= b {
        let q = skip(s, b);
        proof {
            lemma_skip_bounds(s, b);
        }
        if 0 <= q < s.len() && s[q] == ',' {
            let c = skip(s, q + 1);
            proof {
                lemma_skip_bounds(s, q + 1);
            }
            match literal(s, c) {
                Some((_, e)) => if c < e <= s.len() {
                    list_items(s, e)
                } else {
                    b
                },
                None => b,
            }
        } else {
            b
        }
    } else {
        b
    }
}

/// The view of a position that may be missing.
pub open spec fn position(r: Option<usize>) -> Option<int> {
    match r {
        Some(e) => Some(e as int),
        None => None,
    }
}

/// `r` with `a` put before the characters it decoded.
pub open spec fn prefixed(a: Seq<char>, r: Option<(Seq<char>, int)>) -> Option<(Seq<char>, int)> {
    match r {
        Some((t, e)) => Some((a + t, e)),
        None => None,
    }
}

proof fn lemma_prefixed_assoc(a: Seq<char>, b: Seq<char>, r: Option<(Seq<char>, int)>)
    ensures
        prefixed(a, prefixed(b, r)) == prefixed(a + b, r),
{
    if let Some((t, e)) = r {
        assert((a + b) + t =~= a + (b + t));
    }
}

proof fn lemma_digits_value_monotone(s: Seq<char>, j: int, k: int, d: int)
    requires
        j <= k <= d,
    ensures
        digits_value(s, j, k) <= digits_value(s, j, d),
    decreases d - k,
{
    if k < d {
        lemma_digits_value_monotone(s, j, k, d - 1);
    }
}

/// Value of the digits `s[j..d]`, when it is at most 2^63.
pub fn digits_value_at(s: &[char], j: usize, d: usize) -> (r: Option<u64>)
    requires
        j <= d <= s@.len(),
        forall|k: int| j <= k < d ==> is_digit(#[trigger] s@[k]),
    ensures
        r is Some <==> digits_value(s@, j as int, d as int) <= 9223372036854775808,
        r is Some ==> r->0 == digits_value(s@, j as int, d as int),
{
    let mut v: u64 = 0;
    let mut k = j;
    while k < d
        invariant
            j <= k <= d <= s@.len(),
            forall|m: int| j <= m < d ==> is_digit(#[trigger] s@[m]),
            v == digits_value(s@, j as int, k as int),
            v <= 9223372036854775808,
        decreases d - k,
    {
        let dig = (s[k] as u32 - 48) as u64;
        assert(is_digit(s@[k as int]));
        if v > 922337203685477580 {
            proof {
                lemma_digits_value_monotone(s@, j as int, (k + 1) as int, d as int);
            }
            return None;
        }
        v = v * 10 + dig;
        if v > 9223372036854775808 {
            proof {
                lemma_digits_value_monotone(s@, j as int, (k + 1) as int, d as int);
            }
            return None;
        }
        k = k + 1;
    }
    Some(v)
}

/// The integer literal at `i` and the position after it; `None` where
/// there is no integer literal or its value does not fit in `i64`.
fn integer_at(s: &[char], i: usize) -> (r: Option<(i64, usize)>)
    requires
        i <= s@.len(),
        integer_end(s@, i as int) is Some,
    ensures
        r is Some <==> i64::MIN <= integer_value(s@, i as int, integer_end(s@, i as int)->0)
            <= i64::MAX,
        r is Some ==> (r->0).0 == integer_value(s@, i as int, integer_end(s@, i as int)->0)
            && (r->0).1 == integer_end(s@, i as int)->0,
        r is Some ==> i < (r->0).1 <= s@.len(),
{
    let neg = i < s.len() && s[i] == '-';
    let j = if neg {
        i + 1
    } else {
        i
    };
    let d = scan_run(s, j, CharClass::Digit);
    proof {
        lemma_run_all(s@, j as int, CharClass::Digit);
    }
    match digits_value_at(s, j, d) {
        None => None,
        Some(m) => {
            if neg {
                if m == 9223372036854775808 {
                    Some((i64::MIN, d))
                } else {
                    Some((-(m as i64), d))
                }
            } else if m <= 9223372036854775807 {
                Some((m as i64, d))
            } else {
                None
            }
        },
    }
}

/// Exec form of `integer_end`.
fn integer_end_at(s: &[char], i: usize) -> (r: Option<usize>)
    requires
        i <= s@.len(),
    ensures
        position(r) == integer_end(s@, i as int),
{
    let j = if i < s.len() && s[i] == '-' {
        i + 1
    } else {
        i
    };
    let d = scan_run(s, j, CharClass::Digit);
    if d > j && !(d < s.len() && (s[d] == '.' || s[d] == 'e' || s[d] == 'E')) {
        Some(d)
    } else {
        None
    }
}

/// Exec form of `float_end`.
fn float_end_at(s: &[char], i: usize) -> (r: Option<usize>)
    requires
        i <= s@.len(),
    ensures
        position(r) == float_end(s@, i as int),
        r is Some ==> i < r->0 <= s@.len(),
{
    let j = if i < s.len() && (s[i] == '+' || s[i] == '-') {
        i + 1
    } else {
        i
    };
    let d = scan_run(s, j, CharClass::Digit);
    let m = if d > j {
        if d < s.len() && s[d] == '.' {
            scan_run(s, d + 1, CharClass::Digit)
        } else {
            d
        }
    } else if j < s.len() && s[j] == '.' {
        let f = scan_run(s, j + 1, CharClass::Digit);
        if f > j + 1 {
            f
        } else {
            return None;
        }
    } else {
        return None;
    };
    assert(mantissa_end(s@, j as int) == Some(m as int));
    if m < s.len() && (s[m] == 'e' || s[m] == 'E') {
        let x = if m + 1 < s.len() && (s[m + 1] == '+' || s[m + 1] == '-') {
            m + 2
        } else {
            m + 1
        };
        let e = scan_run(s, x, CharClass::Digit);
        if e > x {
            return Some(e);
        }
    }
    Some(m)
}

/// Exec form of `string_body`.
fn string_body_at(s: &[char], j: usize, q: char) -> (r: Option<(Vec<char>, usize)>)
    requires
        j <= s@.len(),
    ensures
        parsed(r) == string_body(s@, j as int, q),
        r is Some ==> j < (r->0).1 <= s@.len(),
{
    let mut out: Vec<char> = Vec::new();
    let mut p = j;
    loop
        invariant
            j <= p <= s@.len(),
            string_body(s@, j as int, q) == prefixed(out@, string_body(s@, p as int, q)),
        decreases s@.len() - p,
    {
        if p >= s.len() {
            return None;
        }
        let c = s[p];
        if c == q {
            assert(out@ + Seq::<char>::empty() =~= out@);
            return Some((out, p + 1));
        } else if c == '\\' {
            if p + 1 >= s.len() {
                return None;
            }
            let e = s[p + 1];
            let ghost before = out@;
            if e == '\\' {
                out.push('\\');
            } else if e == q {
                out.push(q);
            } else if e == 'n' {
                out.push('\n');
            } else if e == 'i' {
                out.push('\\');
                out.push('i');
            } else {
                return None;
            }
            proof {
                let esc = escape(e, q)->0;
                assert(out@ =~= before + esc);
                lemma_prefixed_assoc(before, esc, string_body(s@, p + 2, q));
            }
            p = p + 2;
        } else {
            let ghost before = out@;
            out.push(c);
            proof {
                assert(out@ =~= before + seq![c]);
                lemma_prefixed_assoc(before, seq![c], string_body(s@, p + 1, q));
            }
            p = p + 1;
        }
    }
}

/// The literal at `i` of `s`, and the position after it.
pub fn literal_at(s: &[char], i: usize) -> (r: Option<(Literal, usize)>)
    requires
        i <= s@.len(),
    ensures
        parsed(r) == literal(s@, i as int),
        r is Some ==> i < (r->0).1 <= s@.len(),
    decreases s@.len() - i, 1nat,
{
    if i >= s.len() {
        return None;
    }
    if let Some(d) = integer_end_at(s, i) {
        return match integer_at(s, i) {
            Some((v, e)) => Some((Literal::Number(v), e)),
            None => None,
        };
    }
    if let Some(k) = float_end_at(s, i) {
        let text = crate::text::string_of_chars(&s[i..k]);
        return Some((Literal::Float(text), k));
    }
    let c = s[i];
    if c == '"' || c == '\'' {
        if let Some((t, e)) = string_body_at(s, i + 1, c) {
            let text = crate::text::string_of_chars(t.as_slice());
            return Some((Literal::Str(text), e));
        }
    }
    if c == '/' {
        let e = scan_run(s, i + 1, CharClass::PathChar);
        let text = crate::text::string_of_chars(&s[i..e]);
        return Some((Literal::Path(text), e));
    }
    if s.len() - i >= 4 && s[i] == 'n' && s[i + 1] == 'u' && s[i + 2] == 'l' && s[i + 3] == 'l' {
        assert(s@.subrange(i as int, i + 4) =~= null_text());
        let text = crate::text::string_of_chars(&s[i..i + 4]);
        return Some((Literal::Str(text), i + 4));
    }
    if let Some(e) = list_end_at(s, i) {
        let text = crate::text::string_of_chars(&s[i..e]);
        return Some((Literal::Str(text), e));
    }
    None
}

/// Exec form of `list_end`.
fn list_end_at(s: &[char], i: usize) -> (r: Option<usize>)
    requires
        i <= s@.len(),
    ensures
        position(r) == list_end(s@, i as int),
        r is Some ==> i < r->0 <= s@.len(),
    decreases s@.len() - i, 0nat,
{
    if !(s.len() - i >= 5 && s[i] == 'l' && s[i + 1] == 'i' && s[i + 2] == 's' && s[i + 3] == 't'
        && s[i + 4] == '(') {
        proof {
            if starts_with_at(s@, i as int, list_open_text()) {
                assert(s@.subrange(i as int, i + 5)[0] == s@[i as int]);
                assert(s@.subrange(i as int, i + 5)[1] == s@[i + 1]);
                assert(s@.subrange(i as int, i + 5)[2] == s@[i + 2]);
                assert(s@.subrange(i as int, i + 5)[3] == s@[i + 3]);
                assert(s@.subrange(i as int, i + 5)[4] == s@[i + 4]);
            }
        }
        return None;
    }
    assert(s@.subrange(i as int, i + 5) =~= list_open_text());
    let a = skip_space(s, i + 5);
    let mut stop = a;
    if let Some((_, b)) = literal_at(s, a) {
        stop = b;
        loop
            invariant
                i + 5 <= a < b <= stop <= s@.len(),
                list_items(s@, b as int) == list_items(s@, stop as int),
            ensures
                list_items(s@, b as int) == stop,
            decreases s@.len() - stop,
        {
            let q = skip_space(s, stop);
            if q < s.len() && s[q] == ',' {
                let c = skip_space(s, q + 1);
                match literal_at(s, c) {
                    Some((_, e)) => {
                        stop = e;
                    },
                    None => {
                        break;
                    },
                }
            } else {
                break;
            }
        }
    }
    let c = skip_space(s, stop);
    if c < s.len() && s[c] == ')' {
        Some(c + 1)
    } else {
        None
    }
}

} // verus!
