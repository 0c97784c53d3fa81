//! A parse tree that owns its values: every component is copied out of
//! the input, so the tree does not borrow it. Fields split into repeats
//! and repeats into components; an empty field has no repeat and an
//! empty repeat no component.
pub mod field_parser;
pub mod message_parser;
pub mod segment_parser;

use crate::separators::Separators;
use crate::text::{split, split_nonempty, string_views, trimmed};
use vstd::prelude::*;

verus! {

/// The repeats of the field `f`, each split into its components.
pub open spec fn field_values(f: Seq<char>, seps: Separators) -> Seq<Seq<Seq<char>>> {
    split_nonempty(f, seps.repeat).map_values(|r: Seq<char>| split_nonempty(r, seps.component))
}

/// The fields of the segment `line` once trimmed, each split into
/// repeats and components.
pub open spec fn segment_values(line: Seq<char>, seps: Separators) -> Seq<Seq<Seq<Seq<char>>>> {
    split(trimmed(line), seps.field).map_values(|f: Seq<char>| field_values(f, seps))
}

/// One repeat of a field: its components.
#[derive(Debug, Clone, PartialEq)]
pub struct Repeat {
    pub components: Vec<String>,
}

/// A field: its repeats.
#[derive(Debug, Clone, PartialEq)]
pub struct Field {
    pub repeats: Vec<Repeat>,
}

/// A segment: its fields, the identifier first.
#[derive(Debug, Clone, PartialEq)]
pub struct Segment {
    pub fields: Vec<Field>,
}

/// A message: the input it was parsed from, and its segments.
#[derive(Debug, Clone, PartialEq)]
pub struct Message {
    pub input: String,
    pub segments: Vec<Segment>,
}

impl View for Repeat {
    type V = Seq<Seq<char>>;

    open spec fn view(&self) -> Seq<Seq<char>> {
        string_views(self.components@)
    }
}

impl View for Field {
    type V = Seq<Seq<Seq<char>>>;

    open spec fn view(&self) -> Seq<Seq<Seq<char>>> {
        self.repeats@.map_values(|r: Repeat| r@)
    }
}

impl View for Segment {
    type V = Seq<Seq<Seq<Seq<char>>>>;

    open spec fn view(&self) -> Seq<Seq<Seq<Seq<char>>>> {
        self.fields@.map_values(|f: Field| f@)
    }
}

} // verus!
