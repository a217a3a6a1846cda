//! Conversion of a syntax tree into a map, and decoding of a whole text.

use vstd::prelude::*;
use crate::assoc::assoc_of;
use crate::error::Error;
use crate::key::{key_value, Key, KeyStrConverter};
use crate::literal::{Literal, LiteralView};
use crate::model::{
    datum_models, dictionary_view, grid_view, key_values, missing_error, model_of, pairs_view,
    resolves, reversed, Coords, DMM, Datum, DatumModel, DmmModel,
};
use crate::syntax;
use crate::syntax::{
    datums_view, edits_view, entries_view, grid_view as syntax_grid_view, strings_view, DatumView, DictionaryEntryView, DocumentView,
    GridEntryView, VarEditView,
};

verus! {

/// A field edit as a name/value pair.
pub open spec fn edit_pair(e: VarEditView) -> (Seq<char>, LiteralView) {
    (e.identifier, e.value)
}

/// Field edits as name/value pairs, in order.
pub open spec fn edit_pairs(v: Seq<VarEditView>) -> Seq<(Seq<char>, LiteralView)> {
    v.map_values(|e: VarEditView| edit_pair(e))
}

/// The object that a parsed object stands for: its fields are its field
/// edits, the last edit of a name winning.
pub open spec fn model_datum(d: DatumView) -> DatumModel {
    DatumModel { path: d.path, var_edits: assoc_of(edit_pairs(d.var_edits)) }
}

/// The objects that parsed objects stand for, in order.
pub open spec fn model_datums(v: Seq<DatumView>) -> Seq<DatumModel> {
    v.map_values(|d: DatumView| model_datum(d))
}

/// The key values of row tokens, in order.
pub open spec fn key_list(v: Seq<Seq<char>>) -> Seq<nat> {
    v.map_values(|t: Seq<char>| key_value(t)->0)
}

/// A dictionary entry as a key/objects pair.
pub open spec fn entry_pair(e: DictionaryEntryView) -> (nat, Seq<DatumModel>) {
    (key_value(e.key)->0, model_datums(e.datums))
}

/// A grid entry as a coordinates/keys pair.
pub open spec fn grid_pair(g: GridEntryView) -> (Coords, Seq<nat>) {
    (g.coords, key_list(g.keys))
}

/// Dictionary entries as pairs, in order.
pub open spec fn entry_pairs(v: Seq<DictionaryEntryView>) -> Seq<(nat, Seq<DatumModel>)> {
    v.map_values(|e: DictionaryEntryView| entry_pair(e))
}

/// Grid entries as pairs, in order.
pub open spec fn grid_pairs(v: Seq<GridEntryView>) -> Seq<(Coords, Seq<nat>)> {
    v.map_values(|g: GridEntryView| grid_pair(g))
}

/// Whether every key of the dictionary of `doc` is a valid key text.
pub open spec fn dictionary_keys_valid(doc: DocumentView) -> bool {
    forall|i: int|
        0 <= i < doc.dictionary.len() ==> key_value((#[trigger] doc.dictionary[i]).key) is Some
}

/// Whether every row token of the grid of `doc` is a valid key text.
pub open spec fn grid_keys_valid(doc: DocumentView) -> bool {
    forall|i: int, m: int|
        0 <= i < doc.grid.len() && 0 <= m < doc.grid[i].keys.len() ==> key_value(
            #[trigger] doc.grid[i].keys[m],
        ) is Some
}

/// The map that a document with valid keys stands for: later dictionary
/// entries for a key, and later grid entries at coordinates, replace
/// earlier ones.
pub open spec fn document_model(doc: DocumentView) -> DmmModel {
    DmmModel {
        dictionary: assoc_of(entry_pairs(doc.dictionary)),
        grid: assoc_of(grid_pairs(doc.grid)),
    }
}

/// Whether `e` reports an invalid key of `doc`: a dictionary key (without
/// coordinates) or a row token with the coordinates of its grid entry.
pub open spec fn invalid_key_error(doc: DocumentView, e: Error) -> bool {
    match e {
        Error::InvalidKey { key, coords } => key_value(key@) is None && match coords {
            None => exists|i: int|
                0 <= i < doc.dictionary.len() && (#[trigger] doc.dictionary[i]).key == key@,
            Some(c) => exists|i: int, m: int|
                0 <= i < doc.grid.len() && 0 <= m < doc.grid[i].keys.len() && doc.grid[i].coords
                    == c && #[trigger] doc.grid[i].keys[m] == key@,
        },
        _ => false,
    }
}

/// What converting `doc` gives: an invalid key error while a key is
/// invalid; otherwise a missing key error while a grid key has no
/// dictionary entry; otherwise the map of the document.
pub open spec fn converted(doc: DocumentView, r: Result<DMM, Error>) -> bool {
    if !(dictionary_keys_valid(doc) && grid_keys_valid(doc)) {
        r matches Err(e) && invalid_key_error(doc, e)
    } else if !resolves(document_model(doc)) {
        r matches Err(e) && missing_error(document_model(doc), e)
    } else {
        r matches Ok(m) && m@ == document_model(doc)
    }
}

fn convert_edits(v: Vec<syntax::VarEdit>) -> (r: Vec<(String, Literal)>)
    ensures
        pairs_view(r@) == edit_pairs(edits_view(v@)),
{
    let ghost all = edit_pairs(edits_view(v@));
    let mut rest = reversed(v);
    let mut out: Vec<(String, Literal)> = Vec::new();
    while rest.len() > 0
        invariant
            out@.len() + rest@.len() == all.len(),
            pairs_view(out@) == all.take(out@.len() as int),
            edit_pairs(edits_view(rest@.reverse())) == all.skip(out@.len() as int),
        decreases rest.len(),
    {
        let ghost before = rest@;
        let e = rest.pop().unwrap();
        proof {
            assert(edit_pairs(edits_view(before.reverse()))[0] == (e.identifier@, e.value@));
            assert(edit_pairs(edits_view(rest@.reverse())) =~= edit_pairs(
                edits_view(before.reverse()),
            ).drop_first());
        }
        let ghost prev = pairs_view(out@);
        out.push((e.identifier, e.value));
        proof {
            assert(pairs_view(out@) =~= prev.push((e.identifier@, e.value@)));
            assert(all.take(out@.len() as int) =~= all.take(out@.len() - 1).push(
                all[out@.len() - 1],
            ));
            assert(all.skip(out@.len() - 1).drop_first() =~= all.skip(out@.len() as int));
        }
    }
    assert(all.take(out@.len() as int) =~= all);
    out
}

fn convert_datum(d: syntax::Datum) -> (r: Datum)
    ensures
        r@ == model_datum(d@),
{
    let pairs = convert_edits(d.var_edits);
    Datum::with_var_edits(d.path.as_str(), pairs)
}

fn convert_datums(v: Vec<syntax::Datum>) -> (r: Vec<Datum>)
    ensures
        datum_models(r@) == model_datums(datums_view(v@)),
{
    let ghost all = model_datums(datums_view(v@));
    let mut rest = reversed(v);
    let mut out: Vec<Datum> = Vec::new();
    while rest.len() > 0
        invariant
            out@.len() + rest@.len() == all.len(),
            datum_models(out@) == all.take(out@.len() as int),
            model_datums(datums_view(rest@.reverse())) == all.skip(out@.len() as int),
        decreases rest.len(),
    {
        let ghost before = rest@;
        let d = rest.pop().unwrap();
        proof {
            assert(model_datums(datums_view(before.reverse()))[0] == model_datum(d@));
            assert(model_datums(datums_view(rest@.reverse())) =~= model_datums(
                datums_view(before.reverse()),
            ).drop_first());
        }
        let ghost prev = datum_models(out@);
        let m = convert_datum(d);
        out.push(m);
        proof {
            assert(datum_models(out@) =~= prev.push(m@));
            assert(all.take(out@.len() as int) =~= all.take(out@.len() - 1).push(
                all[out@.len() - 1],
            ));
            assert(all.skip(out@.len() - 1).drop_first() =~= all.skip(out@.len() as int));
        }
    }
    assert(all.take(out@.len() as int) =~= all);
    out
}

/// The keys that the row tokens `v` stand for, or the first token that is
/// not a valid key text.
fn convert_keys(v: &Vec<String>) -> (r: Result<Vec<Key>, usize>)
    ensures
        r matches Ok(ks) ==> key_values(ks@) == key_list(strings_view(v@)) && forall|m: int|
            0 <= m < v@.len() ==> key_value(#[trigger] v@[m]@) is Some,
        r matches Err(m) ==> m < v@.len() && key_value(v@[m as int]@) is None,
{
    let mut out: Vec<Key> = Vec::new();
    let mut m: usize = 0;
    while m < v.len()
        invariant
            m <= v@.len(),
            out@.len() == m,
            key_values(out@) == key_list(strings_view(v@)).take(m as int),
            forall|n: int| 0 <= n < m ==> key_value(#[trigger] v@[n]@) is Some,
        decreases v@.len() - m,
    {
        match KeyStrConverter::str_to_key(v[m].as_str()) {
            Some(k) => {
                let ghost prev = key_values(out@);
                out.push(k);
                proof {
                    assert(key_values(out@) =~= prev.push(k@));
                    assert(key_list(strings_view(v@)).take(m + 1) =~= key_list(
                        strings_view(v@),
                    ).take(m as int).push(k@));
                }
                m = m + 1;
            },
            None => {
                return Err(m);
            },
        }
    }
    assert(key_list(strings_view(v@)).take(m as int) =~= key_list(strings_view(v@)));
    Ok(out)
}

/// The map that syntax tree `doc` stands for; see `converted`.
pub fn from_syntax(doc: syntax::DMM) -> (r: Result<DMM, Error>)
    ensures
        converted(doc@, r),
{
    let ghost dv = doc@;
    let syntax::DMM { dictionary, grid } = doc;
    let ghost dall = dv.dictionary;
    let ghost dpairs = entry_pairs(dall);
    let mut rest = reversed(dictionary);
    let mut dict: Vec<(Key, Vec<Datum>)> = Vec::new();
    while rest.len() > 0
        invariant
            dict@.len() + rest@.len() == dall.len(),
            dictionary_view(dict@) == dpairs.take(dict@.len() as int),
            entries_view(rest@.reverse()) == dall.skip(dict@.len() as int),
            forall|i: int| 0 <= i < dict@.len() ==> key_value((#[trigger] dall[i]).key) is Some,
            dall == dv.dictionary,
            dpairs == entry_pairs(dall),
            dv == doc@,
        decreases rest.len(),
    {
        let ghost before = rest@;
        let ghost n = dict@.len() as int;
        let e = rest.pop().unwrap();
        proof {
            assert(entries_view(before.reverse())[0] == e@);
            assert(entries_view(rest@.reverse()) =~= entries_view(before.reverse()).drop_first());
            assert(dall[n] == e@);
        }
        match KeyStrConverter::str_to_key(e.key.as_str()) {
            None => {
                proof {
                    assert(!dictionary_keys_valid(dv));
                    assert(dv.dictionary[n].key == e.key@);
                    assert(invalid_key_error(dv, Error::InvalidKey { key: e.key, coords: None }));
                }
                return Err(Error::InvalidKey { key: e.key, coords: None });
            },
            Some(k) => {
                let ds = convert_datums(e.datums);
                let ghost prev = dictionary_view(dict@);
                dict.push((k, ds));
                proof {
                    assert(dictionary_view(dict@) =~= prev.push((k@, datum_models(ds@))));
                    assert(dpairs[n] == (k@, datum_models(ds@)));
                    assert(dpairs.take(n + 1) =~= dpairs.take(n).push(dpairs[n]));
                    assert(dall.skip(n).drop_first() =~= dall.skip(n + 1));
                }
            },
        }
    }
    assert(dpairs.take(dict@.len() as int) =~= dpairs);
    let ghost gall = dv.grid;
    let ghost gpairs = grid_pairs(gall);
    let mut grest = reversed(grid);
    let mut cells: Vec<(Coords, Vec<Key>)> = Vec::new();
    while grest.len() > 0
        invariant
            cells@.len() + grest@.len() == gall.len(),
            grid_view(cells@) == gpairs.take(cells@.len() as int),
            syntax_grid_view(grest@.reverse()) == gall.skip(cells@.len() as int),
            forall|i: int, m: int|
                0 <= i < cells@.len() && 0 <= m < gall[i].keys.len() ==> key_value(
                    #[trigger] gall[i].keys[m],
                ) is Some,
            dictionary_keys_valid(dv),
            gall == dv.grid,
            gpairs == grid_pairs(gall),
            dv == doc@,
        decreases grest.len(),
    {
        let ghost before = grest@;
        let ghost n = cells@.len() as int;
        let g = grest.pop().unwrap();
        proof {
            assert(syntax_grid_view(before.reverse())[0] == g@);
            assert(syntax_grid_view(grest@.reverse()) =~= syntax_grid_view(
                before.reverse(),
            ).drop_first());
            assert(gall[n] == g@);
        }
        match convert_keys(&g.keys) {
            Err(m) => {
                let key = g.keys[m].clone();
                proof {
                    assert(gall[n].keys[m as int] == key@);
                    assert(!grid_keys_valid(dv));
                    assert(dv.grid[n].coords == g.coords);
                    assert(invalid_key_error(dv, Error::InvalidKey { key, coords: Some(g.coords) }));
                }
                return Err(Error::InvalidKey { key, coords: Some(g.coords) });
            },
            Ok(ks) => {
                let ghost prev = grid_view(cells@);
                proof {
                    assert(forall|m: int| 0 <= m < gall[n].keys.len() ==> key_value(
                        #[trigger] gall[n].keys[m],
                    ) is Some);
                }
                cells.push((g.coords, ks));
                proof {
                    assert(grid_view(cells@) =~= prev.push((g.coords, key_values(ks@))));
                    assert(gpairs[n] == (g.coords, key_values(ks@)));
                    assert(gpairs.take(n + 1) =~= gpairs.take(n).push(gpairs[n]));
                    assert(gall.skip(n).drop_first() =~= gall.skip(n + 1));
                }
            },
        }
    }
    assert(gpairs.take(cells@.len() as int) =~= gpairs);
    proof {
        assert(model_of(dict@, cells@) == document_model(dv));
    }
    DMM::new(dict, cells)
}

} // verus!
