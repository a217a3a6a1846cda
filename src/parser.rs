//! Executable forms of the productions, each proved equal to its
//! specification in `grammar`.

use vstd::prelude::*;
use crate::grammar::{
    data_block, datum, datum_items, datums_block, dictionary, dictionary_entry, document, edit_items,
    entry_items, grid, grid_coords, grid_entry, grid_keys, grid_line, joined, number, quoted_key,
    token_after, var_edit, var_edits, gives, identifier, path,
};
use crate::error::Error;
use crate::lex::{is_alphabetic, lemma_run_all, scan_run, skip_space, CharClass};
use crate::literal::{digits_value_at, literal, literal_at, parsed, position, Literal};
use crate::syntax::{
    GridEntryView, datums_view, edits_view, entries_view, grid_view, strings_view, DMM, Datum, DatumView,
    DictionaryEntry, DictionaryEntryView, GridEntry, VarEdit, VarEditView,
};
use crate::text::{chars_of, string_of_chars};

verus! {

/// The view of a parse result that holds field edits.
pub open spec fn parsed_edits(r: Option<(Vec<VarEdit>, usize)>) -> Option<(Seq<VarEditView>, int)> {
    match r {
        Some((v, e)) => Some((edits_view(v@), e as int)),
        None => None,
    }
}

/// The view of a parse result that holds objects.
pub open spec fn parsed_datums(r: Option<(Vec<Datum>, usize)>) -> Option<(Seq<DatumView>, int)> {
    match r {
        Some((v, e)) => Some((datums_view(v@), e as int)),
        None => None,
    }
}

/// The view of a parse result that holds strings.
pub open spec fn parsed_strings(r: Option<(Vec<String>, usize)>) -> Option<(Seq<Seq<char>>, int)> {
    match r {
        Some((v, e)) => Some((strings_view(v@), e as int)),
        None => None,
    }
}

proof fn lemma_joined_assoc<T>(a: Seq<T>, b: Seq<T>, r: (Seq<T>, int))
    ensures
        joined(a, joined(b, r)) == joined(a + b, r),
        joined(a, (Seq::<T>::empty(), r.1)) == (a, r.1),
{
    assert((a + b) + r.0 =~= a + (b + r.0));
    assert(a + Seq::<T>::empty() =~= a);
}

/// Exec form of `var_edit`.
pub fn var_edit_at(s: &[char], i: usize) -> (r: Option<(VarEdit, usize)>)
    requires
        i <= s@.len(),
    ensures
        parsed(r) == var_edit(s@, i as int),
        r is Some ==> i < (r->0).1 <= s@.len(),
{
    let a = skip_space(s, i);
    if !(a < s.len() && (is_alphabetic(s[a]) || s[a] == '_')) {
        return None;
    }
    let b = scan_run(s, a, CharClass::IdentChar);
    let c = skip_space(s, b);
    if !(c < s.len() && s[c] == '=') {
        return None;
    }
    let d = skip_space(s, c + 1);
    match literal_at(s, d) {
        Some((v, e)) => {
            let name = string_of_chars(&s[a..b]);
            let end = skip_space(s, e);
            Some((VarEdit { identifier: name, value: v }, end))
        },
        None => None,
    }
}

/// Exec form of `var_edits`.
pub fn var_edits_at(s: &[char], i: usize) -> (r: (Vec<VarEdit>, usize))
    requires
        i <= s@.len(),
    ensures
        (edits_view(r.0@), r.1 as int) == var_edits(s@, i as int),
        i <= r.1 <= s@.len(),
{
    let p = skip_space(s, i);
    let mut out: Vec<VarEdit> = Vec::new();
    let mut stop = p;
    if let Some((v, b)) = var_edit_at(s, p) {
        let ghost first = v@;
        out.push(v);
        stop = b;
        assert(edits_view(out@) =~= seq![first]);
        proof {
            lemma_joined_assoc(seq![first], Seq::empty(), edit_items(s@, b as int));
        }
        loop
            invariant
                p < b <= stop <= s@.len(),
                joined(seq![first], edit_items(s@, b as int)) == joined(
                    edits_view(out@),
                    edit_items(s@, stop as int),
                ),
            ensures
                joined(seq![first], edit_items(s@, b as int)) == (edits_view(out@), stop as int),
            decreases s@.len() - stop,
        {
            let q = skip_space(s, stop);
            if q < s.len() && s[q] == ';' {
                match var_edit_at(s, q + 1) {
                    Some((v2, e)) => {
                        let ghost prev = edits_view(out@);
                        out.push(v2);
                        proof {
                            assert(edits_view(out@) =~= prev + seq![v2@]);
                            lemma_joined_assoc(prev, seq![v2@], edit_items(s@, e as int));
                        }
                        stop = e;
                    },
                    None => {
                        proof {
                            lemma_joined_assoc(edits_view(out@), Seq::empty(), (Seq::empty(), stop as int));
                        }
                        break;
                    },
                }
            } else {
                proof {
                    lemma_joined_assoc(edits_view(out@), Seq::empty(), (Seq::empty(), stop as int));
                }
                break;
            }
        }
    } else {
        assert(edits_view(out@) =~= Seq::<VarEditView>::empty());
    }
    let t = skip_space(s, stop);
    let u = if t < s.len() && s[t] == ';' {
        t + 1
    } else {
        t
    };
    let end = skip_space(s, u);
    (out, end)
}

/// Exec form of `data_block`.
pub fn data_block_at(s: &[char], i: usize) -> (r: Option<(Vec<VarEdit>, usize)>)
    requires
        i <= s@.len(),
    ensures
        parsed_edits(r) == data_block(s@, i as int),
        r is Some ==> i < (r->0).1 <= s@.len(),
{
    let a = skip_space(s, i);
    if !(a < s.len() && s[a] == '{') {
        return None;
    }
    let (edits, b) = var_edits_at(s, a + 1);
    let c = skip_space(s, b);
    if c < s.len() && s[c] == '}' {
        let end = skip_space(s, c + 1);
        Some((edits, end))
    } else {
        None
    }
}

/// Exec form of `datum`.
pub fn datum_at(s: &[char], i: usize) -> (r: Option<(Datum, usize)>)
    requires
        i <= s@.len(),
    ensures
        parsed(r) == datum(s@, i as int),
        r is Some ==> i < (r->0).1 <= s@.len(),
{
    let a = skip_space(s, i);
    if !(a < s.len() && s[a] == '/') {
        return None;
    }
    let b = scan_run(s, a + 1, CharClass::PathChar);
    let c = skip_space(s, b);
    let path = string_of_chars(&s[a..b]);
    match data_block_at(s, c) {
        Some((edits, d)) => Some((Datum { path, var_edits: edits }, d)),
        None => {
            let edits: Vec<VarEdit> = Vec::new();
            assert(edits_view(edits@) =~= Seq::<VarEditView>::empty());
            Some((Datum { path, var_edits: edits }, c))
        },
    }
}

/// Exec form of `datums_block`.
pub fn datums_block_at(s: &[char], i: usize) -> (r: Option<(Vec<Datum>, usize)>)
    requires
        i <= s@.len(),
    ensures
        parsed_datums(r) == datums_block(s@, i as int),
        r is Some ==> i < (r->0).1 <= s@.len(),
{
    let a = skip_space(s, i);
    if !(a < s.len() && s[a] == '(') {
        return None;
    }
    let p = a + 1;
    let mut out: Vec<Datum> = Vec::new();
    let mut stop = p;
    if let Some((d, b)) = datum_at(s, p) {
        let ghost first = d@;
        out.push(d);
        stop = b;
        assert(datums_view(out@) =~= seq![first]);
        proof {
            lemma_joined_assoc(seq![first], Seq::empty(), datum_items(s@, b as int));
        }
        loop
            invariant
                p < b <= stop <= s@.len(),
                joined(seq![first], datum_items(s@, b as int)) == joined(
                    datums_view(out@),
                    datum_items(s@, stop as int),
                ),
            ensures
                joined(seq![first], datum_items(s@, b as int)) == (datums_view(out@), stop as int),
            decreases s@.len() - stop,
        {
            let q = skip_space(s, stop);
            let r = if q < s.len() && s[q] == ',' {
                q + 1
            } else {
                stop
            };
            match datum_at(s, r) {
                Some((d2, e)) => {
                    let ghost prev = datums_view(out@);
                    out.push(d2);
                    proof {
                        assert(datums_view(out@) =~= prev + seq![d2@]);
                        lemma_joined_assoc(prev, seq![d2@], datum_items(s@, e as int));
                    }
                    stop = e;
                },
                None => {
                    proof {
                        lemma_joined_assoc(datums_view(out@), Seq::empty(), (Seq::empty(), stop as int));
                    }
                    break;
                },
            }
        }
    } else {
        assert(datums_view(out@) =~= Seq::<DatumView>::empty());
    }
    let c = skip_space(s, stop);
    if c < s.len() && s[c] == ')' {
        let end = skip_space(s, c + 1);
        Some((out, end))
    } else {
        None
    }
}

/// Exec form of `quoted_key`.
pub fn quoted_key_at(s: &[char], a: usize) -> (r: Option<(String, usize)>)
    requires
        a <= s@.len(),
    ensures
        parsed(r) == quoted_key(s@, a as int),
        r is Some ==> a < (r->0).1 <= s@.len(),
{
    if !(a < s.len() && s[a] == '"') {
        return None;
    }
    let b = scan_run(s, a + 1, CharClass::Letter);
    if b > a + 1 && b < s.len() && s[b] == '"' {
        Some((string_of_chars(&s[a + 1..b]), b + 1))
    } else {
        None
    }
}

/// Exec form of `dictionary_entry`.
pub fn dictionary_entry_at(s: &[char], i: usize) -> (r: Option<(DictionaryEntry, usize)>)
    requires
        i <= s@.len(),
    ensures
        parsed(r) == dictionary_entry(s@, i as int),
        r is Some ==> i < (r->0).1 <= s@.len(),
{
    let a = skip_space(s, i);
    let (key, b) = match quoted_key_at(s, a) {
        Some(k) => k,
        None => return None,
    };
    let c = skip_space(s, b);
    if !(c < s.len() && s[c] == '=') {
        return None;
    }
    match datums_block_at(s, c + 1) {
        Some((ds, d)) => {
            let end = skip_space(s, d);
            Some((DictionaryEntry { key, datums: ds }, end))
        },
        None => None,
    }
}

/// Exec form of `dictionary`.
pub fn dictionary_at(s: &[char], i: usize) -> (r: (Vec<DictionaryEntry>, usize))
    requires
        i <= s@.len(),
    ensures
        (entries_view(r.0@), r.1 as int) == dictionary(s@, i as int),
        i <= r.1 <= s@.len(),
{
    let p = skip_space(s, i);
    let mut out: Vec<DictionaryEntry> = Vec::new();
    let mut stop = p;
    if let Some((d, b)) = dictionary_entry_at(s, p) {
        let ghost first = d@;
        out.push(d);
        stop = b;
        assert(entries_view(out@) =~= seq![first]);
        proof {
            lemma_joined_assoc(seq![first], Seq::empty(), entry_items(s@, b as int));
        }
        loop
            invariant
                p < b <= stop <= s@.len(),
                joined(seq![first], entry_items(s@, b as int)) == joined(
                    entries_view(out@),
                    entry_items(s@, stop as int),
                ),
            ensures
                joined(seq![first], entry_items(s@, b as int)) == (entries_view(out@), stop as int),
            decreases s@.len() - stop,
        {
            let q = skip_space(s, stop);
            if q < s.len() && s[q] == ',' {
                match dictionary_entry_at(s, q + 1) {
                    Some((d2, e)) => {
                        let ghost prev = entries_view(out@);
                        out.push(d2);
                        proof {
                            assert(entries_view(out@) =~= prev + seq![d2@]);
                            lemma_joined_assoc(prev, seq![d2@], entry_items(s@, e as int));
                        }
                        stop = e;
                    },
                    None => {
                        proof {
                            lemma_joined_assoc(entries_view(out@), Seq::empty(), (Seq::empty(), stop as int));
                        }
                        break;
                    },
                }
            } else {
                proof {
                    lemma_joined_assoc(entries_view(out@), Seq::empty(), (Seq::empty(), stop as int));
                }
                break;
            }
        }
    } else {
        assert(entries_view(out@) =~= Seq::<DictionaryEntryView>::empty());
    }
    let end = skip_space(s, stop);
    (out, end)
}

/// Exec form of `number`.
pub fn number_at(s: &[char], p: usize) -> (r: Option<(u32, usize)>)
    requires
        p <= s@.len(),
    ensures
        (match r {
            Some((v, e)) => Some((v, e as int)),
            None => None,
        }) == number(s@, p as int),
        r is Some ==> p < (r->0).1 <= s@.len(),
{
    let d = scan_run(s, p, CharClass::Digit);
    proof {
        lemma_run_all(s@, p as int, CharClass::Digit);
    }
    if d <= p {
        return None;
    }
    match digits_value_at(s, p, d) {
        Some(v) => {
            if v <= 4294967295 {
                Some((v as u32, d))
            } else {
                None
            }
        },
        None => None,
    }
}

/// Exec form of `token_after`.
pub fn token_after_at(s: &[char], d: usize, c: char) -> (r: Option<usize>)
    requires
        d <= s@.len(),
    ensures
        position(r) == token_after(s@, d as int, c),
        r is Some ==> d < r->0 <= s@.len(),
{
    let q = skip_space(s, d);
    if q < s.len() && s[q] == c {
        Some(q + 1)
    } else {
        None
    }
}

/// Exec form of `grid_coords`.
pub fn grid_coords_at(s: &[char], i: usize) -> (r: Option<((u32, u32, u32), usize)>)
    requires
        i <= s@.len(),
    ensures
        (match r {
            Some((xyz, e)) => Some((xyz, e as int)),
            None => None,
        }) == grid_coords(s@, i as int),
        r is Some ==> i < (r->0).1 <= s@.len(),
{
    let p1 = match token_after_at(s, i, '(') {
        Some(p) => p,
        None => return None,
    };
    let (x, d1) = match number_at(s, skip_space(s, p1)) {
        Some(n) => n,
        None => return None,
    };
    let p2 = match token_after_at(s, d1, ',') {
        Some(p) => p,
        None => return None,
    };
    let (y, d2) = match number_at(s, skip_space(s, p2)) {
        Some(n) => n,
        None => return None,
    };
    let p3 = match token_after_at(s, d2, ',') {
        Some(p) => p,
        None => return None,
    };
    let (z, d3) = match number_at(s, skip_space(s, p3)) {
        Some(n) => n,
        None => return None,
    };
    let e = match token_after_at(s, d3, ')') {
        Some(p) => p,
        None => return None,
    };
    let end = skip_space(s, e);
    Some(((x, y, z), end))
}

/// Exec form of `grid_keys`.
pub fn grid_keys_at(s: &[char], p: usize) -> (r: (Vec<String>, usize))
    requires
        p <= s@.len(),
    ensures
        (strings_view(r.0@), r.1 as int) == grid_keys(s@, p as int),
        p <= r.1 <= s@.len(),
{
    let mut out: Vec<String> = Vec::new();
    let mut stop = p;
    assert(strings_view(out@) =~= Seq::<Seq<char>>::empty());
    proof {
        lemma_joined_assoc(Seq::<Seq<char>>::empty(), Seq::empty(), grid_keys(s@, p as int));
        assert(Seq::<Seq<char>>::empty() + grid_keys(s@, p as int).0 =~= grid_keys(s@, p as int).0);
    }
    loop
        invariant
            p <= stop <= s@.len(),
            grid_keys(s@, p as int) == joined(strings_view(out@), grid_keys(s@, stop as int)),
        ensures
            grid_keys(s@, p as int) == (strings_view(out@), stop as int),
        decreases s@.len() - stop,
    {
        let q = skip_space(s, stop);
        if q < s.len() && is_alphabetic(s[q]) {
            let e = scan_run(s, q, CharClass::Letter);
            proof {
                lemma_run_all(s@, q + 1, CharClass::Letter);
            }
            let k = string_of_chars(&s[q..e]);
            let ghost prev = strings_view(out@);
            out.push(k);
            proof {
                assert(strings_view(out@) =~= prev + seq![k@]);
                lemma_joined_assoc(prev, seq![k@], grid_keys(s@, e as int));
            }
            stop = e;
        } else {
            proof {
                lemma_joined_assoc(strings_view(out@), Seq::empty(), (Seq::empty(), stop as int));
            }
            break;
        }
    }
    (out, stop)
}

/// Exec form of `grid_line`.
pub fn grid_line_at(s: &[char], i: usize) -> (r: Option<(Vec<String>, usize)>)
    requires
        i <= s@.len(),
    ensures
        parsed_strings(r) == grid_line(s@, i as int),
        r is Some ==> i < (r->0).1 <= s@.len(),
{
    let a = skip_space(s, i);
    if !(a < s.len() && s.len() - a > 1 && s[a] == '{' && s[a + 1] == '"') {
        return None;
    }
    let (keys, stop) = grid_keys_at(s, skip_space(s, a + 2));
    let c = skip_space(s, stop);
    if c < s.len() && s.len() - c > 1 && s[c] == '"' && s[c + 1] == '}' {
        let end = skip_space(s, c + 2);
        Some((keys, end))
    } else {
        None
    }
}

/// Exec form of `grid_entry`.
pub fn grid_entry_at(s: &[char], i: usize) -> (r: Option<(GridEntry, usize)>)
    requires
        i <= s@.len(),
    ensures
        parsed(r) == grid_entry(s@, i as int),
        r is Some ==> i < (r->0).1 <= s@.len(),
{
    let (coords, b) = match grid_coords_at(s, skip_space(s, i)) {
        Some(g) => g,
        None => return None,
    };
    let c = match token_after_at(s, b, '=') {
        Some(c) => c,
        None => return None,
    };
    match grid_line_at(s, c) {
        Some((keys, d)) => {
            let end = skip_space(s, d);
            Some((GridEntry { coords, keys }, end))
        },
        None => None,
    }
}

/// Exec form of `grid`.
pub fn grid_at(s: &[char], p: usize) -> (r: (Vec<GridEntry>, usize))
    requires
        p <= s@.len(),
    ensures
        (grid_view(r.0@), r.1 as int) == grid(s@, p as int),
        p <= r.1 <= s@.len(),
{
    let mut out: Vec<GridEntry> = Vec::new();
    let mut stop = p;
    assert(grid_view(out@) =~= Seq::<GridEntryView>::empty());
    proof {
        assert(Seq::<GridEntryView>::empty() + grid(s@, p as int).0 =~= grid(
            s@,
            p as int,
        ).0);
    }
    loop
        invariant
            p <= stop <= s@.len(),
            grid(s@, p as int) == joined(grid_view(out@), grid(s@, stop as int)),
        ensures
            grid(s@, p as int) == (grid_view(out@), stop as int),
        decreases s@.len() - stop,
    {
        match grid_entry_at(s, stop) {
            Some((g, e)) => {
                let ghost prev = grid_view(out@);
                let ghost gv = g@;
                out.push(g);
                proof {
                    assert(grid_view(out@) =~= prev + seq![gv]);
                    lemma_joined_assoc(prev, seq![gv], grid(s@, e as int));
                }
                stop = e;
            },
            None => {
                proof {
                    lemma_joined_assoc(grid_view(out@), Seq::empty(), (Seq::empty(), stop as int));
                }
                break;
            },
        }
    }
    (out, stop)
}

/// Exec form of `document`: the syntax tree and where the grammar stopped.
pub fn document_at(s: &[char]) -> (r: (DMM, usize))
    ensures
        (r.0@, r.1 as int) == document(s@),
        r.1 <= s@.len(),
{
    let (dictionary, p) = dictionary_at(s, 0);
    let (grid, q) = grid_at(s, p);
    (DMM { dictionary, grid }, q)
}

/// The literal at the start of `input`, and the text after it.
pub fn parse_literal(input: &str) -> (r: Result<(String, Literal), Error>)
    ensures
        r is Ok <==> literal(input@, 0) is Some,
        r matches Ok((rest, v)) ==> gives(input@, literal(input@, 0), rest@, v@),
        r matches Err(e) ==> e == Error::Syntax,
{
    let cs = chars_of(input);
    match literal_at(cs.as_slice(), 0) {
        Some((v, e)) => Ok((string_of_chars(&cs.as_slice()[e..cs.len()]), v)),
        None => Err(Error::Syntax),
    }
}

/// The path at the start of `input`, and the text after it.
pub fn parse_path(input: &str) -> (r: Result<(String, String), Error>)
    ensures
        r is Ok <==> path(input@, 0) is Some,
        r matches Ok((rest, v)) ==> gives(input@, path(input@, 0), rest@, v@),
        r matches Err(e) ==> e == Error::Syntax,
{
    let cs = chars_of(input);
    match path_at(cs.as_slice()) {
        Some((v, e)) => Ok((string_of_chars(&cs.as_slice()[e..cs.len()]), v)),
        None => Err(Error::Syntax),
    }
}

/// The identifier at the start of `input`, and the text after it.
pub fn parse_identifier(input: &str) -> (r: Result<(String, String), Error>)
    ensures
        r is Ok <==> identifier(input@, 0) is Some,
        r matches Ok((rest, v)) ==> gives(input@, identifier(input@, 0), rest@, v@),
        r matches Err(e) ==> e == Error::Syntax,
{
    let cs = chars_of(input);
    match identifier_at(cs.as_slice()) {
        Some((v, e)) => Ok((string_of_chars(&cs.as_slice()[e..cs.len()]), v)),
        None => Err(Error::Syntax),
    }
}

/// The field edit at the start of `input`, and the text after it.
pub fn parse_var_edit(input: &str) -> (r: Result<(String, VarEdit), Error>)
    ensures
        r is Ok <==> var_edit(input@, 0) is Some,
        r matches Ok((rest, v)) ==> gives(input@, var_edit(input@, 0), rest@, v@),
        r matches Err(e) ==> e == Error::Syntax,
{
    let cs = chars_of(input);
    match var_edit_at(cs.as_slice(), 0) {
        Some((v, e)) => Ok((string_of_chars(&cs.as_slice()[e..cs.len()]), v)),
        None => Err(Error::Syntax),
    }
}

/// The block of field edits at the start of `input`, and the text after it.
pub fn parse_data_block(input: &str) -> (r: Result<(String, Vec<VarEdit>), Error>)
    ensures
        r is Ok <==> data_block(input@, 0) is Some,
        r matches Ok((rest, v)) ==> gives(input@, data_block(input@, 0), rest@, edits_view(v@)),
        r matches Err(e) ==> e == Error::Syntax,
{
    let cs = chars_of(input);
    match data_block_at(cs.as_slice(), 0) {
        Some((v, e)) => Ok((string_of_chars(&cs.as_slice()[e..cs.len()]), v)),
        None => Err(Error::Syntax),
    }
}

/// The object at the start of `input`, and the text after it.
pub fn parse_datum(input: &str) -> (r: Result<(String, Datum), Error>)
    ensures
        r is Ok <==> datum(input@, 0) is Some,
        r matches Ok((rest, v)) ==> gives(input@, datum(input@, 0), rest@, v@),
        r matches Err(e) ==> e == Error::Syntax,
{
    let cs = chars_of(input);
    match datum_at(cs.as_slice(), 0) {
        Some((v, e)) => Ok((string_of_chars(&cs.as_slice()[e..cs.len()]), v)),
        None => Err(Error::Syntax),
    }
}

/// The parenthesized objects at the start of `input`, and the text after them.
pub fn parse_datums_block(input: &str) -> (r: Result<(String, Vec<Datum>), Error>)
    ensures
        r is Ok <==> datums_block(input@, 0) is Some,
        r matches Ok((rest, v)) ==> gives(input@, datums_block(input@, 0), rest@, datums_view(v@)),
        r matches Err(e) ==> e == Error::Syntax,
{
    let cs = chars_of(input);
    match datums_block_at(cs.as_slice(), 0) {
        Some((v, e)) => Ok((string_of_chars(&cs.as_slice()[e..cs.len()]), v)),
        None => Err(Error::Syntax),
    }
}

/// The quoted key at the start of `input`, and the text after it.
pub fn parse_key(input: &str) -> (r: Result<(String, String), Error>)
    ensures
        r is Ok <==> quoted_key(input@, 0) is Some,
        r matches Ok((rest, v)) ==> gives(input@, quoted_key(input@, 0), rest@, v@),
        r matches Err(e) ==> e == Error::Syntax,
{
    let cs = chars_of(input);
    match quoted_key_at(cs.as_slice(), 0) {
        Some((v, e)) => Ok((string_of_chars(&cs.as_slice()[e..cs.len()]), v)),
        None => Err(Error::Syntax),
    }
}

/// The dictionary entry at the start of `input`, and the text after it.
pub fn parse_dictionary_entry(input: &str) -> (r: Result<(String, DictionaryEntry), Error>)
    ensures
        r is Ok <==> dictionary_entry(input@, 0) is Some,
        r matches Ok((rest, v)) ==> gives(input@, dictionary_entry(input@, 0), rest@, v@),
        r matches Err(e) ==> e == Error::Syntax,
{
    let cs = chars_of(input);
    match dictionary_entry_at(cs.as_slice(), 0) {
        Some((v, e)) => Ok((string_of_chars(&cs.as_slice()[e..cs.len()]), v)),
        None => Err(Error::Syntax),
    }
}

/// The grid entry at the start of `input`, and the text after it.
pub fn parse_grid_entry(input: &str) -> (r: Result<(String, GridEntry), Error>)
    ensures
        r is Ok <==> grid_entry(input@, 0) is Some,
        r matches Ok((rest, v)) ==> gives(input@, grid_entry(input@, 0), rest@, v@),
        r matches Err(e) ==> e == Error::Syntax,
{
    let cs = chars_of(input);
    match grid_entry_at(cs.as_slice(), 0) {
        Some((v, e)) => Ok((string_of_chars(&cs.as_slice()[e..cs.len()]), v)),
        None => Err(Error::Syntax),
    }
}

/// The grid coordinates at the start of `input`, and the text after them.
pub fn parse_grid_coords(input: &str) -> (r: Result<(String, (u32, u32, u32)), Error>)
    ensures
        r is Ok <==> grid_coords(input@, 0) is Some,
        r matches Ok((rest, v)) ==> gives(input@, grid_coords(input@, 0), rest@, v),
        r matches Err(e) ==> e == Error::Syntax,
{
    let cs = chars_of(input);
    match grid_coords_at(cs.as_slice(), 0) {
        Some((v, e)) => Ok((string_of_chars(&cs.as_slice()[e..cs.len()]), v)),
        None => Err(Error::Syntax),
    }
}

/// The field edits at the start of `input`, and the text after them.
pub fn parse_var_edits(input: &str) -> (r: Result<(String, Vec<VarEdit>), Error>)
    ensures
        r matches Ok((rest, v)) && gives(input@, Some(var_edits(input@, 0)), rest@, edits_view(v@)),
{
    let cs = chars_of(input);
    let (v, e) = var_edits_at(cs.as_slice(), 0);
    Ok((string_of_chars(&cs.as_slice()[e..cs.len()]), v))
}

/// The dictionary at the start of `input`, and the text after it.
pub fn parse_dictionary(input: &str) -> (r: Result<(String, Vec<DictionaryEntry>), Error>)
    ensures
        r matches Ok((rest, v)) && gives(input@, Some(dictionary(input@, 0)), rest@, entries_view(v@)),
{
    let cs = chars_of(input);
    let (v, e) = dictionary_at(cs.as_slice(), 0);
    Ok((string_of_chars(&cs.as_slice()[e..cs.len()]), v))
}

/// The document at the start of `input`, and the text after it.
pub fn parse_dmm(input: &str) -> (r: Result<(String, DMM), Error>)
    ensures
        r matches Ok((rest, v)) && gives(input@, Some(document(input@)), rest@, v@),
{
    let cs = chars_of(input);
    let (v, e) = document_at(cs.as_slice());
    Ok((string_of_chars(&cs.as_slice()[e..cs.len()]), v))
}

/// Exec form of `path` at the start of `s`.
fn path_at(s: &[char]) -> (r: Option<(String, usize)>)
    ensures
        parsed(r) == path(s@, 0),
        r is Some ==> (r->0).1 <= s@.len(),
{
    if !(s.len() > 0 && s[0] == '/') {
        return None;
    }
    let b = scan_run(s, 1, CharClass::PathChar);
    Some((string_of_chars(&s[0..b]), b))
}

/// Exec form of `identifier` at the start of `s`.
fn identifier_at(s: &[char]) -> (r: Option<(String, usize)>)
    ensures
        parsed(r) == identifier(s@, 0),
        r is Some ==> (r->0).1 <= s@.len(),
{
    if !(s.len() > 0 && (is_alphabetic(s[0]) || s[0] == '_')) {
        return None;
    }
    let b = scan_run(s, 0, CharClass::IdentChar);
    Some((string_of_chars(&s[0..b]), b))
}

} // verus!
