//! The productions of a document above the literal level.

use vstd::prelude::*;
use crate::lex::{
    alphabetic, lemma_run_all, lemma_skip_bounds, run_end, skip, CharClass,
};
use crate::literal::{digits_value, literal};
use crate::syntax::{DatumView, DictionaryEntryView, DocumentView, GridEntryView, VarEditView};

verus! {

/// `(a + r.0, r.1)`: items found before a repetition, joined to it.
pub open spec fn joined<T>(a: Seq<T>, r: (Seq<T>, int)) -> (Seq<T>, int) {
    (a + r.0, r.1)
}

/// A field edit `identifier = literal` at `i`, with the skip rule around
/// each token.
pub open spec fn var_edit(s: Seq<char>, i: int) -> Option<(VarEditView, int)> {
    let a = skip(s, i);
    if 0 <= a < s.len() && (alphabetic(s[a]) || s[a] == '_') {
        let b = run_end(s, a, CharClass::IdentChar);
        let c = skip(s, b);
        if 0 <= c < s.len() && s[c] == '=' {
            match literal(s, skip(s, c + 1)) {
                Some((v, e)) => Some(
                    (VarEditView { identifier: s.subrange(a, b), value: v }, skip(s, e)),
                ),
                None => None,
            }
        } else {
            None
        }
    } else {
        None
    }
}

/// Field edits after one that ended at `b`: each is `;` then a field edit.
pub open spec fn edit_items(s: Seq<char>, b: int) -> (Seq<VarEditView>, int)
    decreases s.len() - b,
{
    if 0 <= b {
        let q = skip(s, b);
        proof {
            lemma_skip_bounds(s, b);
        }
        if 0 <= q < s.len() && s[q] == ';' {
            match var_edit(s, q + 1) {
                Some((v, e)) => if q + 1 < e <= s.len() {
                    joined(seq![v], edit_items(s, e))
                } else {
                    (Seq::empty(), b)
                },
                None => (Seq::empty(), b),
            }
        } else {
            (Seq::empty(), b)
        }
    } else {
        (Seq::empty(), b)
    }
}

/// The field edits of a block at `i`: `;`-separated, with an optional
/// trailing `;`. Never fails.
pub open spec fn var_edits(s: Seq<char>, i: int) -> (Seq<VarEditView>, int) {
    let p = skip(s, i);
    let (edits, stop) = match var_edit(s, p) {
        Some((v, b)) => if p < b <= s.len() {
            joined(seq![v], edit_items(s, b))
        } else {
            (Seq::empty(), p)
        },
        None => (Seq::empty(), p),
    };
    let t = skip(s, stop);
    let u = if 0 <= t < s.len() && s[t] == ';' {
        t + 1
    } else {
        t
    };
    (edits, skip(s, u))
}

/// A block `{` field edits `}` at `i`.
pub open spec fn data_block(s: Seq<char>, i: int) -> Option<(Seq<VarEditView>, int)> {
    let a = skip(s, i);
    if 0 <= a < s.len() && s[a] == '{' {
        let (edits, b) = var_edits(s, a + 1);
        let c = skip(s, b);
        if 0 <= c < s.len() && s[c] == '}' {
            Some((edits, skip(s, c + 1)))
        } else {
            None
        }
    } else {
        None
    }
}

/// An object at `i`: a path, then an optional block of field edits.
pub open spec fn datum(s: Seq<char>, i: int) -> Option<(DatumView, int)> {
    let a = skip(s, i);
    if 0 <= a < s.len() && s[a] == '/' {
        let b = run_end(s, a + 1, CharClass::PathChar);
        let c = skip(s, b);
        match data_block(s, c) {
            Some((edits, d)) => Some((DatumView { path: s.subrange(a, b), var_edits: edits }, d)),
            None => Some((DatumView { path: s.subrange(a, b), var_edits: Seq::empty() }, c)),
        }
    } else {
        None
    }
}

/// Objects after one that ended at `b`: each is an optional `,` then an
/// object.
pub open spec fn datum_items(s: Seq<char>, b: int) -> (Seq<DatumView>, int)
    decreases s.len() - b,
{
    if 0 <= b {
        let q = skip(s, b);
        proof {
            lemma_skip_bounds(s, b);
        }
        let r = if 0 <= q < s.len() && s[q] == ',' {
            q + 1
        } else {
            b
        };
        match datum(s, r) {
            Some((d, e)) => if r < e <= s.len() {
                joined(seq![d], datum_items(s, e))
            } else {
                (Seq::empty(), b)
            },
            None => (Seq::empty(), b),
        }
    } else {
        (Seq::empty(), b)
    }
}

/// A parenthesized list of objects at `i`.
pub open spec fn datums_block(s: Seq<char>, i: int) -> Option<(Seq<DatumView>, int)> {
    let a = skip(s, i);
    if 0 <= a < s.len() && s[a] == '(' {
        let p = a + 1;
        let (ds, stop) = match datum(s, p) {
            Some((d, b)) => if p < b <= s.len() {
                joined(seq![d], datum_items(s, b))
            } else {
                (Seq::empty(), p)
            },
            None => (Seq::empty(), p),
        };
        let c = skip(s, stop);
        if 0 <= c < s.len() && s[c] == ')' {
            Some((ds, skip(s, c + 1)))
        } else {
            None
        }
    } else {
        None
    }
}

/// A quoted key at `i` (a `"`, one or more letters, a `"`): the letters
/// and the position after the closing quote.
pub open spec fn quoted_key(s: Seq<char>, a: int) -> Option<(Seq<char>, int)> {
    if 0 <= a < s.len() && s[a] == '"' {
        let b = run_end(s, a + 1, CharClass::Letter);
        if b > a + 1 && b < s.len() && s[b] == '"' {
            Some((s.subrange(a + 1, b), b + 1))
        } else {
            None
        }
    } else {
        None
    }
}

/// A dictionary entry `"key" = ( objects )` at `i`.
pub open spec fn dictionary_entry(s: Seq<char>, i: int) -> Option<(DictionaryEntryView, int)> {
    let a = skip(s, i);
    match quoted_key(s, a) {
        Some((key, b)) => {
            let c = skip(s, b);
            if 0 <= c < s.len() && s[c] == '=' {
                match datums_block(s, c + 1) {
                    Some((ds, d)) => Some(
                        (DictionaryEntryView { key: key, datums: ds }, skip(s, d)),
                    ),
                    None => None,
                }
            } else {
                None
            }
        },
        None => None,
    }
}

/// Dictionary entries after one that ended at `b`: each is `,` then an
/// entry.
pub open spec fn entry_items(s: Seq<char>, b: int) -> (Seq<DictionaryEntryView>, int)
    decreases s.len() - b,
{
    if 0 <= b {
        let q = skip(s, b);
        proof {
            lemma_skip_bounds(s, b);
        }
        if 0 <= q < s.len() && s[q] == ',' {
            match dictionary_entry(s, q + 1) {
                Some((d, e)) => if q + 1 < e <= s.len() {
                    joined(seq![d], entry_items(s, e))
                } else {
                    (Seq::empty(), b)
                },
                None => (Seq::empty(), b),
            }
        } else {
            (Seq::empty(), b)
        }
    } else {
        (Seq::empty(), b)
    }
}

/// The dictionary at `i`: `,`-separated entries. Never fails.
pub open spec fn dictionary(s: Seq<char>, i: int) -> (Seq<DictionaryEntryView>, int) {
    let p = skip(s, i);
    let (entries, stop) = match dictionary_entry(s, p) {
        Some((d, b)) => if p < b <= s.len() {
            joined(seq![d], entry_items(s, b))
        } else {
            (Seq::empty(), p)
        },
        None => (Seq::empty(), p),
    };
    (entries, skip(s, stop))
}

/// An unsigned decimal number at `p` that fits in `u32`.
pub open spec fn number(s: Seq<char>, p: int) -> Option<(u32, int)> {
    let d = run_end(s, p, CharClass::Digit);
    if d > p && digits_value(s, p, d) <= u32::MAX {
        Some((digits_value(s, p, d) as u32, d))
    } else {
        None
    }
}

/// After the skip rule from `d`, a `c`: the position after it.
pub open spec fn token_after(s: Seq<char>, d: int, c: char) -> Option<int> {
    let q = skip(s, d);
    if 0 <= q < s.len() && s[q] == c {
        Some(q + 1)
    } else {
        None
    }
}

/// Grid coordinates `(x, y, z)` at `i`.
pub open spec fn grid_coords(s: Seq<char>, i: int) -> Option<((u32, u32, u32), int)> {
    match token_after(s, i, '(') {
        Some(p1) => match number(s, skip(s, p1)) {
            Some((x, d1)) => match token_after(s, d1, ',') {
                Some(p2) => match number(s, skip(s, p2)) {
                    Some((y, d2)) => match token_after(s, d2, ',') {
                        Some(p3) => match number(s, skip(s, p3)) {
                            Some((z, d3)) => match token_after(s, d3, ')') {
                                Some(e) => Some(((x, y, z), skip(s, e))),
                                None => None,
                            },
                            None => None,
                        },
                        None => None,
                    },
                    None => None,
                },
                None => None,
            },
            None => None,
        },
        None => None,
    }
}

/// Row tokens from `p`: each is the skip rule then a run of letters.
pub open spec fn grid_keys(s: Seq<char>, p: int) -> (Seq<Seq<char>>, int)
    decreases s.len() - p,
{
    if 0 <= p {
        let q = skip(s, p);
        proof {
            lemma_skip_bounds(s, p);
            lemma_run_all(s, q + 1, CharClass::Letter);
        }
        if 0 <= q < s.len() && alphabetic(s[q]) {
            let e = run_end(s, q, CharClass::Letter);
            joined(seq![s.subrange(q, e)], grid_keys(s, e))
        } else {
            (Seq::empty(), p)
        }
    } else {
        (Seq::empty(), p)
    }
}

/// A grid block `{"` row tokens `"}` at `i`.
pub open spec fn grid_line(s: Seq<char>, i: int) -> Option<(Seq<Seq<char>>, int)> {
    let a = skip(s, i);
    if 0 <= a && a + 1 < s.len() && s[a] == '{' && s[a + 1] == '"' {
        let (keys, stop) = grid_keys(s, skip(s, a + 2));
        let c = skip(s, stop);
        if 0 <= c && c + 1 < s.len() && s[c] == '"' && s[c + 1] == '}' {
            Some((keys, skip(s, c + 2)))
        } else {
            None
        }
    } else {
        None
    }
}

/// A grid entry `(x, y, z) = {" ... "}` at `i`.
pub open spec fn grid_entry(s: Seq<char>, i: int) -> Option<(GridEntryView, int)> {
    match grid_coords(s, skip(s, i)) {
        Some((xyz, b)) => match token_after(s, b, '=') {
            Some(c) => match grid_line(s, c) {
                Some((keys, d)) => Some((GridEntryView { coords: xyz, keys: keys }, skip(s, d))),
                None => None,
            },
            None => None,
        },
        None => None,
    }
}

/// Grid entries from `p`, one after another.
pub open spec fn grid(s: Seq<char>, p: int) -> (Seq<GridEntryView>, int)
    decreases s.len() - p,
{
    if 0 <= p {
        match grid_entry(s, p) {
            Some((g, e)) => if p < e <= s.len() {
                joined(seq![g], grid(s, e))
            } else {
                (Seq::empty(), p)
            },
            None => (Seq::empty(), p),
        }
    } else {
        (Seq::empty(), p)
    }
}

/// A document: the dictionary, then the grid; and where they stop.
pub open spec fn document(s: Seq<char>) -> (DocumentView, int) {
    let (d, p) = dictionary(s, 0);
    let (g, q) = grid(s, p);
    (DocumentView { dictionary: d, grid: g }, q)
}

/// A path at `a`: `/` and the run of path characters after it.
pub open spec fn path(s: Seq<char>, a: int) -> Option<(Seq<char>, int)> {
    if 0 <= a < s.len() && s[a] == '/' {
        let b = run_end(s, a + 1, CharClass::PathChar);
        Some((s.subrange(a, b), b))
    } else {
        None
    }
}

/// An identifier at `a`: a letter or `_`, then letters, digits and `_`.
pub open spec fn identifier(s: Seq<char>, a: int) -> Option<(Seq<char>, int)> {
    if 0 <= a < s.len() && (alphabetic(s[a]) || s[a] == '_') {
        let b = run_end(s, a, CharClass::IdentChar);
        Some((s.subrange(a, b), b))
    } else {
        None
    }
}

/// Whether `(rest, v)` is what `expected` gives on `input`: its value, and
/// the text after it.
pub open spec fn gives<V>(input: Seq<char>, expected: Option<(V, int)>, rest: Seq<char>, v: V) -> bool {
    match expected {
        Some((w, e)) => v == w && rest == input.subrange(e, input.len() as int),
        None => false,
    }
}

} // verus!
