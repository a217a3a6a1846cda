//! The decoded map: a dictionary from keys to objects and a grid from
//! coordinates to keys.

use vstd::prelude::*;
use crate::assoc::{
    assoc_of, assoc_put, has_key, keys_distinct, last_value, lemma_assoc_of, lemma_assoc_put,
};
use crate::error::Error;
use crate::key::{key_text, Key, KeyStrConverter};
use crate::literal::{Literal, LiteralView};

verus! {

/// The elements of `v`, last first.
pub fn reversed<T>(v: Vec<T>) -> (r: Vec<T>)
    ensures
        r@ == v@.reverse(),
{
    let mut v = v;
    let ghost orig = v@;
    let mut r: Vec<T> = Vec::new();
    while v.len() > 0
        invariant
            v@ + r@.reverse() == orig,
        decreases v.len(),
    {
        let ghost before = r@;
        let x = v.pop().unwrap();
        r.push(x);
        proof {
            assert(r@.reverse() =~= seq![x] + before.reverse());
            assert(v@ + r@.reverse() =~= (v@ + seq![x]) + before.reverse());
        }
    }
    assert(r@.reverse().reverse() =~= r@);
    assert(v@ + r@.reverse() =~= r@.reverse());
    assert(orig.reverse() =~= r@.reverse().reverse());
    r
}

/// The field edits of an object, viewed.
pub open spec fn pairs_view(v: Seq<(String, Literal)>) -> Seq<(Seq<char>, LiteralView)> {
    v.map_values(|p: (String, Literal)| (p.0@, p.1@))
}

/// An object of the map: a type path and its fields. Each field name
/// appears once, where it was first given, with the last value given to it.
#[derive(Clone, Debug, PartialEq)]
pub struct Datum {
    path: String,
    var_edits: Vec<(String, Literal)>,
}

/// The mathematical form of an object.
pub struct DatumModel {
    pub path: Seq<char>,
    pub var_edits: Seq<(Seq<char>, LiteralView)>,
}

impl View for Datum {
    type V = DatumModel;

    closed spec fn view(&self) -> DatumModel {
        DatumModel { path: self.path@, var_edits: pairs_view(self.var_edits@) }
    }
}

/// Sets field `name` of the association list `fields` to `value`.
fn put_field(fields: &mut Vec<(String, Literal)>, name: String, value: Literal)
    ensures
        pairs_view(final(fields)@) == assoc_put(pairs_view(old(fields)@), name@, value@),
{
    let ghost v = pairs_view(fields@);
    let mut j: usize = 0;
    while j < fields.len() && !(fields[j].0 == name)
        invariant
            j <= fields@.len(),
            v == pairs_view(fields@),
            forall|i: int| 0 <= i < j ==> v[i].0 != name@,
        decreases fields@.len() - j,
    {
        j = j + 1;
    }
    proof {
        lemma_assoc_put(v, name@, value@, j as int);
    }
    if j < fields.len() {
        fields.set(j, (name, value));
        assert(pairs_view(fields@) =~= v.update(j as int, (name@, value@)));
    } else {
        fields.push((name, value));
        assert(pairs_view(fields@) =~= v.push((name@, value@)));
    }
}

impl Datum {
    /// An object of type `path`, without fields.
    pub fn new(path: &str) -> (r: Datum)
        ensures
            r@.path == path@,
            r@.var_edits == Seq::<(Seq<char>, LiteralView)>::empty(),
    {
        Self::with_var_edits(path, Vec::new())
    }

    /// An object of type `path` with the given field edits: each name once,
    /// where it first appears, with the last value given to it.
    pub fn with_var_edits(path: &str, var_edits: Vec<(String, Literal)>) -> (r: Datum)
        ensures
            r@.path == path@,
            r@.var_edits == assoc_of(pairs_view(var_edits@)),
    {
        let mut rest = reversed(var_edits);
        let ghost all = pairs_view(var_edits@);
        let mut fields: Vec<(String, Literal)> = Vec::new();
        let ghost mut done: int = 0;
        assert(pairs_view(fields@) =~= assoc_of(all.take(0)));
        while rest.len() > 0
            invariant
                0 <= done <= all.len(),
                rest@.len() == all.len() - done,
                pairs_view(rest@.reverse()) == all.skip(done),
                pairs_view(fields@) == assoc_of(all.take(done)),
            decreases rest.len(),
        {
            let ghost before = rest@;
            let (name, value) = rest.pop().unwrap();
            proof {
                assert(pairs_view(before.reverse())[0] == (name@, value@));
                assert(pairs_view(rest@.reverse()) =~= pairs_view(before.reverse()).drop_first());
                assert(all.take(done + 1).drop_last() =~= all.take(done));
                assert(all[done] == (name@, value@));
            }
            put_field(&mut fields, name, value);
            proof {
                done = done + 1;
                assert(all.skip(done - 1).drop_first() =~= all.skip(done));
            }
        }
        assert(all.take(done) =~= all);
        Datum { path: path.to_owned(), var_edits: fields }
    }

    /// The type path of the object.
    pub fn path(&self) -> (r: &str)
        ensures
            r@ == self@.path,
    {
        self.path.as_str()
    }

    /// The fields of the object.
    pub fn var_edits(&self) -> (r: &[(String, Literal)])
        ensures
            pairs_view(r@) == self@.var_edits,
    {
        self.var_edits.as_slice()
    }
}

/// Grid coordinates `(x, y, z)`.
pub type Coords = (u32, u32, u32);

/// Views of objects, in order.
pub open spec fn datum_models(v: Seq<Datum>) -> Seq<DatumModel> {
    v.map_values(|d: Datum| d@)
}

/// Values of keys, in order.
pub open spec fn key_values(v: Seq<Key>) -> Seq<nat> {
    v.map_values(|k: Key| k@)
}

/// Views of dictionary entries, in order.
pub open spec fn dictionary_view(v: Seq<(Key, Vec<Datum>)>) -> Seq<(nat, Seq<DatumModel>)> {
    v.map_values(|p: (Key, Vec<Datum>)| (p.0@, datum_models(p.1@)))
}

/// Views of grid entries, in order.
pub open spec fn grid_view(v: Seq<(Coords, Vec<Key>)>) -> Seq<(Coords, Seq<nat>)> {
    v.map_values(|p: (Coords, Vec<Key>)| (p.0, key_values(p.1@)))
}

/// Whether every key of grid `g` has an entry in dictionary `d`.
pub open spec fn references_resolve(d: Seq<(nat, Seq<DatumModel>)>, g: Seq<(Coords, Seq<nat>)>) -> bool {
    forall|i: int, m: int| 0 <= i < g.len() && 0 <= m < g[i].1.len() ==> has_key(d, #[trigger] g[i].1[m])
}

/// Whether grid `g` holds key `k` at `coords` that dictionary `d` lacks.
pub open spec fn missing_at(d: Seq<(nat, Seq<DatumModel>)>, g: Seq<(Coords, Seq<nat>)>, coords: Coords, k: nat) -> bool {
    exists|i: int, m: int|
        0 <= i < g.len() && 0 <= m < g[i].1.len() && g[i].0 == coords && #[trigger] g[i].1[m] == k
            && !has_key(d, k)
}

/// The map that the given entries make, later entries replacing earlier
/// ones with the same key or coordinates.
pub open spec fn model_of(dictionary: Seq<(Key, Vec<Datum>)>, grid: Seq<(Coords, Vec<Key>)>) -> DmmModel {
    DmmModel {
        dictionary: assoc_of(dictionary_view(dictionary)),
        grid: assoc_of(grid_view(grid)),
    }
}

/// Whether every key of the grid of `m` has a dictionary entry.
pub open spec fn resolves(m: DmmModel) -> bool {
    references_resolve(m.dictionary, m.grid)
}

/// Whether `e` reports a key of the grid of `m` that has no dictionary
/// entry, with its coordinates.
pub open spec fn missing_error(m: DmmModel, e: Error) -> bool {
    match e {
        Error::MissingKey { key, coords } => exists|k: nat|
            missing_at(m.dictionary, m.grid, coords, k) && key@ == key_text(k),
        _ => false,
    }
}

/// Whether the first `m` keys of grid entry `i`, and all keys of the
/// entries before it, have dictionary entries.
pub open spec fn resolved_upto(
    d: Seq<(nat, Seq<DatumModel>)>,
    g: Seq<(Coords, Seq<nat>)>,
    i: int,
    m: int,
) -> bool {
    &&& forall|a: int, n: int|
        0 <= a < i && 0 <= n < g[a].1.len() ==> has_key(d, #[trigger] g[a].1[n])
    &&& forall|n: int| 0 <= n < m ==> has_key(d, #[trigger] g[i].1[n])
}

/// A decoded map. Keys of the dictionary are distinct, coordinates of the
/// grid are distinct, and every key of the grid has a dictionary entry.
/// Entries are kept in the order in which they were first given.
#[derive(Debug, PartialEq)]
pub struct DMM {
    dictionary: Vec<(Key, Vec<Datum>)>,
    grid: Vec<(Coords, Vec<Key>)>,
}

/// The mathematical form of a map.
pub struct DmmModel {
    pub dictionary: Seq<(nat, Seq<DatumModel>)>,
    pub grid: Seq<(Coords, Seq<nat>)>,
}

impl View for DMM {
    type V = DmmModel;

    closed spec fn view(&self) -> DmmModel {
        DmmModel { dictionary: dictionary_view(self.dictionary@), grid: grid_view(self.grid@) }
    }
}

/// Index of the entry of `dictionary` with key `k`, if any.
fn find_key(dictionary: &Vec<(Key, Vec<Datum>)>, k: Key) -> (r: Option<usize>)
    ensures
        r is Some ==> r->0 < dictionary@.len() && dictionary_view(dictionary@)[r->0 as int].0 == k@,
        r is Some ==> forall|i: int| 0 <= i < r->0 ==> dictionary_view(dictionary@)[i].0 != k@,
        r is None ==> !has_key(dictionary_view(dictionary@), k@),
{
    let ghost v = dictionary_view(dictionary@);
    let mut j: usize = 0;
    while j < dictionary.len()
        invariant
            j <= dictionary@.len(),
            v == dictionary_view(dictionary@),
            forall|i: int| 0 <= i < j ==> v[i].0 != k@,
        decreases dictionary@.len() - j,
    {
        if dictionary[j].0.value() == k.value() {
            return Some(j);
        }
        j = j + 1;
    }
    None
}

/// Index of the entry of `grid` at `c`, if any.
fn find_coords(grid: &Vec<(Coords, Vec<Key>)>, c: Coords) -> (r: Option<usize>)
    ensures
        r is Some ==> r->0 < grid@.len() && grid_view(grid@)[r->0 as int].0 == c,
        r is Some ==> forall|i: int| 0 <= i < r->0 ==> grid_view(grid@)[i].0 != c,
        r is None ==> !has_key(grid_view(grid@), c),
{
    let ghost v = grid_view(grid@);
    let mut j: usize = 0;
    while j < grid.len()
        invariant
            j <= grid@.len(),
            v == grid_view(grid@),
            forall|i: int| 0 <= i < j ==> v[i].0 != c,
        decreases grid@.len() - j,
    {
        let g = grid[j].0;
        if g.0 == c.0 && g.1 == c.1 && g.2 == c.2 {
            return Some(j);
        }
        j = j + 1;
    }
    None
}

/// The value of a key in an association list with distinct keys is the
/// value of its pair.
pub proof fn lemma_last_value_distinct<A, B>(v: Seq<(A, B)>, j: int)
    requires
        keys_distinct(v),
        0 <= j < v.len(),
    ensures
        last_value(v, v[j].0) == v[j].1,
    decreases v.len(),
{
    if j < v.len() - 1 {
        let p = v.drop_last();
        assert(keys_distinct(p));
        lemma_last_value_distinct(p, j);
    }
}

impl DMM {
    #[verifier::type_invariant]
    spec fn well_formed(self) -> bool {
        &&& keys_distinct(dictionary_view(self.dictionary@))
        &&& keys_distinct(grid_view(self.grid@))
        &&& references_resolve(dictionary_view(self.dictionary@), grid_view(self.grid@))
    }

    /// The map with the given dictionary and grid entries. A later entry
    /// for a key or for coordinates replaces an earlier one. Fails with
    /// `MissingKey` when a key of the grid has no dictionary entry.
    pub fn new(dictionary: Vec<(Key, Vec<Datum>)>, grid: Vec<(Coords, Vec<Key>)>) -> (r: Result<
        DMM,
        Error,
    >)
        ensures
            r is Ok <==> resolves(model_of(dictionary@, grid@)),
            r matches Ok(m) ==> m@ == model_of(dictionary@, grid@),
            r matches Err(e) ==> missing_error(model_of(dictionary@, grid@), e),
    {
        let ghost dv = dictionary_view(dictionary@);
        let ghost gv = grid_view(grid@);
        let d = Self::fold_dictionary(dictionary);
        let g = Self::fold_grid(grid);
        proof {
            lemma_assoc_of(dv);
            lemma_assoc_of(gv);
        }
        let mut i: usize = 0;
        while i < g.len()
            invariant
                i <= g@.len(),
                dv == dictionary_view(dictionary@),
                gv == grid_view(grid@),
                dictionary_view(d@) == assoc_of(dv),
                grid_view(g@) == assoc_of(gv),
                resolved_upto(dictionary_view(d@), grid_view(g@), i as int, 0),
            decreases g@.len() - i,
        {
            let keys = &g[i].1;
            let mut m: usize = 0;
            while m < keys.len()
                invariant
                    i < g@.len(),
                    keys == &g@[i as int].1,
                    m <= keys@.len(),
                    dv == dictionary_view(dictionary@),
                    gv == grid_view(grid@),
                    dictionary_view(d@) == assoc_of(dv),
                    grid_view(g@) == assoc_of(gv),
                    resolved_upto(dictionary_view(d@), grid_view(g@), i as int, m as int),
                decreases keys@.len() - m,
            {
                let k = keys[m];
                if find_key(&d, k).is_none() {
                    let coords = g[i].0;
                    let text = KeyStrConverter::key_to_str(k);
                    proof {
                        let gg = grid_view(g@);
                        assert(gg[i as int].1[m as int] == k@);
                        assert(gg[i as int].0 == coords);
                        assert(missing_at(assoc_of(dv), assoc_of(gv), coords, k@));
                        assert(missing_at(assoc_of(dv), assoc_of(gv), coords, k@) && text@ == key_text(
                            k@,
                        ));
                        assert(!has_key(assoc_of(dv), gg[i as int].1[m as int]));
                        assert(model_of(dictionary@, grid@).dictionary == assoc_of(dv));
                        assert(model_of(dictionary@, grid@).grid == assoc_of(gv));
                        assert(!resolves(model_of(dictionary@, grid@)));
                        assert(missing_error(
                            model_of(dictionary@, grid@),
                            Error::MissingKey { key: text, coords },
                        ));
                    }
                    return Err(Error::MissingKey { key: text, coords });
                }
                m = m + 1;
            }
            i = i + 1;
        }
        Ok(DMM { dictionary: d, grid: g })
    }

    /// The association list of dictionary entries, later ones replacing
    /// earlier ones with the same key.
    fn fold_dictionary(entries: Vec<(Key, Vec<Datum>)>) -> (r: Vec<(Key, Vec<Datum>)>)
        ensures
            dictionary_view(r@) == assoc_of(dictionary_view(entries@)),
    {
        let ghost all = dictionary_view(entries@);
        let mut rest = reversed(entries);
        let mut out: Vec<(Key, Vec<Datum>)> = Vec::new();
        let ghost mut done: int = 0;
        assert(dictionary_view(out@) =~= assoc_of(all.take(0)));
        while rest.len() > 0
            invariant
                0 <= done <= all.len(),
                rest@.len() == all.len() - done,
                dictionary_view(rest@.reverse()) == all.skip(done),
                dictionary_view(out@) == assoc_of(all.take(done)),
            decreases rest.len(),
        {
            let ghost before = rest@;
            let (k, x) = rest.pop().unwrap();
            proof {
                assert(dictionary_view(before.reverse())[0] == (k@, datum_models(x@)));
                assert(dictionary_view(rest@.reverse()) =~= dictionary_view(before.reverse()).drop_first());
                assert(all.take(done + 1).drop_last() =~= all.take(done));
            }
            let ghost v = dictionary_view(out@);
            let found = find_key(&out, k);
            proof {
                match found {
                    Some(j) => lemma_assoc_put(v, k@, datum_models(x@), j as int),
                    None => lemma_assoc_put(v, k@, datum_models(x@), v.len() as int),
                }
            }
            match found {
                Some(j) => {
                    out.set(j, (k, x));
                    assert(dictionary_view(out@) =~= v.update(j as int, (k@, datum_models(x@))));
                },
                None => {
                    out.push((k, x));
                    assert(dictionary_view(out@) =~= v.push((k@, datum_models(x@))));
                },
            }
            proof {
                done = done + 1;
                assert(all.skip(done - 1).drop_first() =~= all.skip(done));
            }
        }
        assert(all.take(done) =~= all);
        out
    }

    /// The association list of grid entries, later ones replacing earlier
    /// ones at the same coordinates.
    fn fold_grid(entries: Vec<(Coords, Vec<Key>)>) -> (r: Vec<(Coords, Vec<Key>)>)
        ensures
            grid_view(r@) == assoc_of(grid_view(entries@)),
    {
        let ghost all = grid_view(entries@);
        let mut rest = reversed(entries);
        let mut out: Vec<(Coords, Vec<Key>)> = Vec::new();
        let ghost mut done: int = 0;
        assert(grid_view(out@) =~= assoc_of(all.take(0)));
        while rest.len() > 0
            invariant
                0 <= done <= all.len(),
                rest@.len() == all.len() - done,
                grid_view(rest@.reverse()) == all.skip(done),
                grid_view(out@) == assoc_of(all.take(done)),
            decreases rest.len(),
        {
            let ghost before = rest@;
            let (c, x) = rest.pop().unwrap();
            proof {
                assert(grid_view(before.reverse())[0] == (c, key_values(x@)));
                assert(grid_view(rest@.reverse()) =~= grid_view(before.reverse()).drop_first());
                assert(all.take(done + 1).drop_last() =~= all.take(done));
            }
            let ghost v = grid_view(out@);
            let found = find_coords(&out, c);
            proof {
                match found {
                    Some(j) => lemma_assoc_put(v, c, key_values(x@), j as int),
                    None => lemma_assoc_put(v, c, key_values(x@), v.len() as int),
                }
            }
            match found {
                Some(j) => {
                    out.set(j, (c, x));
                    assert(grid_view(out@) =~= v.update(j as int, (c, key_values(x@))));
                },
                None => {
                    out.push((c, x));
                    assert(grid_view(out@) =~= v.push((c, key_values(x@))));
                },
            }
            proof {
                done = done + 1;
                assert(all.skip(done - 1).drop_first() =~= all.skip(done));
            }
        }
        assert(all.take(done) =~= all);
        out
    }
}

/// Coordinates `c` with the second component moved on by `o`, modulo 2^32.
pub open spec fn shifted(c: Coords, o: int) -> Coords {
    (c.0, ((c.1 + o) % 0x1_0000_0000) as u32, c.2)
}

/// The cells of grid `g` from key `o` of entry `e` on: for the key at
/// offset `o` of an entry at `c`, the cell at `shifted(c, o)` with the
/// objects that dictionary `d` gives that key.
pub open spec fn cells_from(
    d: Seq<(nat, Seq<DatumModel>)>,
    g: Seq<(Coords, Seq<nat>)>,
    e: int,
    o: int,
) -> Seq<(Coords, Seq<DatumModel>)>
    decreases g.len() - e, g[e].1.len() - o,
{
    if 0 <= e < g.len() {
        if 0 <= o < g[e].1.len() {
            seq![(shifted(g[e].0, o), last_value(d, g[e].1[o]))] + cells_from(d, g, e, o + 1)
        } else {
            cells_from(d, g, e + 1, 0)
        }
    } else {
        Seq::empty()
    }
}

/// All cells of map `m`, entry after entry of its grid.
pub open spec fn cells(m: DmmModel) -> Seq<(Coords, Seq<DatumModel>)> {
    cells_from(m.dictionary, m.grid, 0, 0)
}

impl DMM {
    /// The dictionary entries, in the order in which their keys first came.
    pub fn dictionary(&self) -> (r: &[(Key, Vec<Datum>)])
        ensures
            dictionary_view(r@) == self@.dictionary,
            keys_distinct(self@.dictionary),
            references_resolve(self@.dictionary, self@.grid),
    {
        proof {
            use_type_invariant(self);
        }
        self.dictionary.as_slice()
    }

    /// The grid entries, in the order in which their coordinates first came.
    pub fn grid(&self) -> (r: &[(Coords, Vec<Key>)])
        ensures
            grid_view(r@) == self@.grid,
            keys_distinct(self@.grid),
    {
        proof {
            use_type_invariant(self);
        }
        self.grid.as_slice()
    }

    /// The objects of `key`, when the dictionary has it.
    pub fn datums(&self, key: Key) -> (r: Option<&[Datum]>)
        ensures
            r is Some <==> has_key(self@.dictionary, key@),
            r matches Some(ds) ==> datum_models(ds@) == last_value(self@.dictionary, key@),
    {
        proof {
            use_type_invariant(self);
        }
        match find_key(&self.dictionary, key) {
            Some(j) => {
                proof {
                    lemma_last_value_distinct(dictionary_view(self.dictionary@), j as int);
                }
                Some(self.dictionary[j].1.as_slice())
            },
            None => None,
        }
    }

    /// The keys at `coords`, when the grid has an entry there.
    pub fn keys_at(&self, coords: Coords) -> (r: Option<&[Key]>)
        ensures
            r is Some <==> has_key(self@.grid, coords),
            r matches Some(ks) ==> key_values(ks@) == last_value(self@.grid, coords),
    {
        proof {
            use_type_invariant(self);
        }
        match find_coords(&self.grid, coords) {
            Some(j) => {
                proof {
                    lemma_last_value_distinct(grid_view(self.grid@), j as int);
                }
                Some(self.grid[j].1.as_slice())
            },
            None => None,
        }
    }

    /// An iterator over the cells of the map: for each grid entry in order,
    /// and each of its keys in order, the coordinates of the cell and the
    /// objects of the key.
    pub fn iter(&self) -> (r: GridIterator<'_>)
        ensures
            r.remaining() == cells(self@),
    {
        GridIterator { dmm: self, entry: 0, offset: 0 }
    }
}

/// The cells of a map, produced one at a time.
pub struct GridIterator<'d> {
    dmm: &'d DMM,
    entry: usize,
    offset: usize,
}

impl<'d> GridIterator<'d> {
    /// The cells still to come.
    pub closed spec fn remaining(&self) -> Seq<(Coords, Seq<DatumModel>)> {
        cells_from(self.dmm@.dictionary, self.dmm@.grid, self.entry as int, self.offset as int)
    }

    /// The next cell, if any.
    pub fn next(&mut self) -> (r: Option<(Coords, &'d [Datum])>)
        ensures
            old(self).remaining().len() == 0 ==> r is None && final(self).remaining() == old(
                self,
            ).remaining(),
            old(self).remaining().len() > 0 ==> (r matches Some((c, ds)) && (c, datum_models(ds@))
                == old(self).remaining()[0] && final(self).remaining() == old(
                self,
            ).remaining().drop_first()),
    {
        let dmm: &'d DMM = self.dmm;
        proof {
            use_type_invariant(dmm);
        }
        let ghost d = dmm@.dictionary;
        let ghost g = dmm@.grid;
        let ghost start = cells_from(d, g, self.entry as int, self.offset as int);
        loop
            invariant
                self.dmm == dmm,
                d == dmm@.dictionary,
                g == dmm@.grid,
                g == grid_view(dmm.grid@),
                d == dictionary_view(dmm.dictionary@),
                keys_distinct(d),
                references_resolve(d, g),
                start == old(self).remaining(),
                cells_from(d, g, self.entry as int, self.offset as int) == start,
            decreases dmm.grid@.len() - self.entry,
        {
            if self.entry >= dmm.grid.len() {
                return None;
            }
            let row = &dmm.grid[self.entry];
            if self.offset < row.1.len() {
                let k = row.1[self.offset];
                let o = self.offset;
                proof {
                    assert(g[self.entry as int].1[o as int] == k@);
                    assert(has_key(d, g[self.entry as int].1[o as int]));
                }
                let j = match find_key(&dmm.dictionary, k) {
                    Some(j) => j,
                    None => return None,
                };
                proof {
                    lemma_last_value_distinct(d, j as int);
                }
                let y = ((row.0.1 as u64 + (o as u64) % 4294967296) % 4294967296) as u32;
                proof {
                    assert((row.0.1 as int + (o as int) % 4294967296) % 4294967296 == (row.0.1 as int
                        + o as int) % 4294967296) by (nonlinear_arith);
                }
                let c = (row.0.0, y, row.0.2);
                self.offset = self.offset + 1;
                return Some((c, dmm.dictionary[j].1.as_slice()));
            }
            self.entry = self.entry + 1;
            self.offset = 0;
        }
    }
}

} // verus!
