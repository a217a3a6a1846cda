//! The syntax tree of a document, as the grammar produces it.

use vstd::prelude::*;
use crate::literal::{Literal, LiteralView};

verus! {

/// One `identifier = literal` field edit.
#[derive(Clone, Debug, PartialEq)]
pub struct VarEdit {
    pub identifier: String,
    pub value: Literal,
}

/// An object: a type path and the field edits of its block, in order.
#[derive(Clone, Debug, PartialEq)]
pub struct Datum {
    pub path: String,
    pub var_edits: Vec<VarEdit>,
}

/// A dictionary entry: a key and its objects, in order.
#[derive(Clone, Debug, PartialEq)]
pub struct DictionaryEntry {
    pub key: String,
    pub datums: Vec<Datum>,
}

/// A grid entry: coordinates and the row tokens of its block, in order.
#[derive(Debug, PartialEq)]
pub struct GridEntry {
    pub coords: (u32, u32, u32),
    pub keys: Vec<String>,
}

/// A whole document: its dictionary entries, then its grid entries.
#[derive(Debug, PartialEq)]
pub struct DMM {
    pub dictionary: Vec<DictionaryEntry>,
    pub grid: Vec<GridEntry>,
}

/// The mathematical form of a field edit.
pub struct VarEditView {
    pub identifier: Seq<char>,
    pub value: LiteralView,
}

/// The mathematical form of a parsed object.
pub struct DatumView {
    pub path: Seq<char>,
    pub var_edits: Seq<VarEditView>,
}

/// The mathematical form of a dictionary entry.
pub struct DictionaryEntryView {
    pub key: Seq<char>,
    pub datums: Seq<DatumView>,
}

/// The mathematical form of a grid entry.
pub struct GridEntryView {
    pub coords: (u32, u32, u32),
    pub keys: Seq<Seq<char>>,
}

/// The mathematical form of a document.
pub struct DocumentView {
    pub dictionary: Seq<DictionaryEntryView>,
    pub grid: Seq<GridEntryView>,
}

/// Views of field edits, in order.
pub open spec fn edits_view(v: Seq<VarEdit>) -> Seq<VarEditView> {
    v.map_values(|e: VarEdit| e@)
}

/// Views of objects, in order.
pub open spec fn datums_view(v: Seq<Datum>) -> Seq<DatumView> {
    v.map_values(|d: Datum| d@)
}

/// Views of dictionary entries, in order.
pub open spec fn entries_view(v: Seq<DictionaryEntry>) -> Seq<DictionaryEntryView> {
    v.map_values(|d: DictionaryEntry| d@)
}

/// Views of grid entries, in order.
pub open spec fn grid_view(v: Seq<GridEntry>) -> Seq<GridEntryView> {
    v.map_values(|g: GridEntry| g@)
}

/// Views of strings, in order.
pub open spec fn strings_view(v: Seq<String>) -> Seq<Seq<char>> {
    v.map_values(|k: String| k@)
}

impl View for VarEdit {
    type V = VarEditView;

    open spec fn view(&self) -> VarEditView {
        VarEditView { identifier: self.identifier@, value: self.value@ }
    }
}

impl View for Datum {
    type V = DatumView;

    open spec fn view(&self) -> DatumView {
        DatumView { path: self.path@, var_edits: edits_view(self.var_edits@) }
    }
}

impl View for DictionaryEntry {
    type V = DictionaryEntryView;

    open spec fn view(&self) -> DictionaryEntryView {
        DictionaryEntryView { key: self.key@, datums: datums_view(self.datums@) }
    }
}

impl View for GridEntry {
    type V = GridEntryView;

    open spec fn view(&self) -> GridEntryView {
        GridEntryView { coords: self.coords, keys: strings_view(self.keys@) }
    }
}

impl View for DMM {
    type V = DocumentView;

    open spec fn view(&self) -> DocumentView {
        DocumentView { dictionary: entries_view(self.dictionary@), grid: grid_view(self.grid@) }
    }
}

} // verus!
