//! A lightweight parse tree with the recommended delimiters fixed: a
//! message is split into segments, fields, repeats and components, every
//! value a slice of the input.
pub mod message_parser;

use crate::text::{
    join, join_strings, join_strs, split, split_nonempty, str_eq, string_views, views,
};
use vstd::prelude::*;

verus! {

/// The components of a repeat.
pub open spec fn repeat_parts(r: Seq<char>) -> Seq<Seq<char>> {
    split_nonempty(r, '^')
}

/// The repeats of a field, each split into its components.
pub open spec fn field_parts(f: Seq<char>) -> Seq<Seq<Seq<char>>> {
    split_nonempty(f, '~').map_values(|r: Seq<char>| repeat_parts(r))
}

/// The fields of a segment, split into repeats and components.
pub open spec fn segment_parts(line: Seq<char>) -> Seq<Seq<Seq<Seq<char>>>> {
    split(line, '|').map_values(|f: Seq<char>| field_parts(f))
}

/// The text of a repeat: its components joined with `^`.
pub open spec fn repeat_text(r: Seq<Seq<char>>) -> Seq<char> {
    join(r, '^')
}

/// The text of a field: its repeats joined with `~`.
pub open spec fn field_text(f: Seq<Seq<Seq<char>>>) -> Seq<char> {
    join(f.map_values(|r: Seq<Seq<char>>| repeat_text(r)), '~')
}

/// One repeat of a field: its components (none for an empty repeat).
#[derive(Debug, Clone, PartialEq)]
pub struct Repeat<'a> {
    pub sub_components: Vec<&'a str>,
}

/// A field: its repeats (none for an empty field).
#[derive(Debug, Clone, PartialEq)]
pub struct Field<'a> {
    pub repeats: Vec<Repeat<'a>>,
}

/// A segment: its fields, the identifier first.
#[derive(Debug, Clone, PartialEq)]
pub struct Segment<'a> {
    pub fields: Vec<Field<'a>>,
}

/// A message: its segments.
#[derive(Debug, Clone, PartialEq)]
pub struct Message<'a> {
    pub segments: Vec<Segment<'a>>,
}

impl<'a> View for Repeat<'a> {
    type V = Seq<Seq<char>>;

    open spec fn view(&self) -> Seq<Seq<char>> {
        views(self.sub_components@)
    }
}

impl<'a> View for Field<'a> {
    type V = Seq<Seq<Seq<char>>>;

    open spec fn view(&self) -> Seq<Seq<Seq<char>>> {
        self.repeats@.map_values(|r: Repeat<'a>| r@)
    }
}

impl<'a> View for Segment<'a> {
    type V = Seq<Seq<Seq<Seq<char>>>>;

    open spec fn view(&self) -> Seq<Seq<Seq<Seq<char>>>> {
        self.fields@.map_values(|f: Field<'a>| f@)
    }
}

impl<'a> View for Message<'a> {
    type V = Seq<Seq<Seq<Seq<Seq<char>>>>>;

    open spec fn view(&self) -> Seq<Seq<Seq<Seq<Seq<char>>>>> {
        self.segments@.map_values(|s: Segment<'a>| s@)
    }
}

impl<'a> Repeat<'a> {
    /// The text of this repeat: its components joined with `^`.
    pub fn get_as_string(&self) -> (r: String)
        ensures
            r@ == repeat_text(self@),
    {
        join_strs(&self.sub_components, '^')
    }
}

impl<'a> Field<'a> {
    /// The text of this field: its repeats joined with `~`, each repeat's
    /// components joined with `^`. The text is a copy.
    pub fn get_all_as_string(&self) -> (r: String)
        ensures
            r@ == field_text(self@),
    {
        let mut texts: Vec<String> = Vec::new();
        let mut i: usize = 0;
        while i < self.repeats.len()
            invariant
                i <= self.repeats@.len(),
                texts@.len() == i,
                forall|j: int|
                    0 <= j < i ==> (#[trigger] texts@[j])@ == repeat_text(self.repeats@[j]@),
            decreases self.repeats@.len() - i,
        {
            texts.push(self.repeats[i].get_as_string());
            i = i + 1;
        }
        assert(string_views(texts@) =~= self@.map_values(|r: Seq<Seq<char>>| repeat_text(r)));
        join_strings(&texts, '~')
    }
}

impl<'a> Message<'a> {
    /// The segments whose first field reads `segment_type`, in order.
    pub fn get_segments(&self, segment_type: &str) -> (r: Vec<&Segment<'a>>)
        ensures
            r@.map_values(|s: &Segment<'a>| *s) == self.segments@.filter(
                |s: Segment<'a>| s.fields@.len() > 0 && field_text(s.fields@[0]@) == segment_type@,
            ),
    {
        let ghost pred = |s: Segment<'a>|
            s.fields@.len() > 0 && field_text(s.fields@[0]@) == segment_type@;
        let mut found: Vec<&Segment<'a>> = Vec::new();
        let mut i: usize = 0;
        proof {
            reveal(Seq::filter);
            assert(found@.map_values(|s: &Segment<'a>| *s) =~= self.segments@.subrange(0, 0));
        }
        while i < self.segments.len()
            invariant
                i <= self.segments@.len(),
                pred == (|s: Segment<'a>|
                    s.fields@.len() > 0 && field_text(s.fields@[0]@) == segment_type@),
                found@.map_values(|s: &Segment<'a>| *s) == self.segments@.subrange(
                    0,
                    i as int,
                ).filter(pred),
            decreases self.segments@.len() - i,
        {
            let seg = &self.segments[i];
            let ghost before = found@.map_values(|s: &Segment<'a>| *s);
            let ghost prefix = self.segments@.subrange(0, i as int + 1);
            assert(prefix.drop_last() =~= self.segments@.subrange(0, i as int));
            assert(prefix.last() == *seg);
            reveal(Seq::filter);
            assert(prefix.filter(pred) == if pred(prefix.last()) {
                prefix.drop_last().filter(pred).push(prefix.last())
            } else {
                prefix.drop_last().filter(pred)
            });
            let matches = if seg.fields.len() > 0 {
                let text = seg.fields[0].get_all_as_string();
                str_eq(text.as_str(), segment_type)
            } else {
                false
            };
            assert(matches == pred(*seg));
            if matches {
                found.push(seg);
                assert(found@.map_values(|s: &Segment<'a>| *s) =~= before.push(*seg));
            }
            i = i + 1;
        }
        assert(self.segments@.subrange(0, self.segments@.len() as int) =~= self.segments@);
        found
    }
}

} // verus!
