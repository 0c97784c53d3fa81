//! Parses within one field: the value between two field delimiters.
use crate::owned_parser::{field_values, Field, Repeat};
use crate::separators::Separators;
use crate::text::{split_nonempty, split_str_nonempty, string_views, views};
use vstd::prelude::*;

verus! {

/// Splits one field into repeats and components, copying each value.
pub struct FieldParser;

impl FieldParser {
    /// The components of one repeat, copied: none when `input` is empty.
    pub fn get_components(input: &str, delims: &Separators) -> (r: Vec<String>)
        ensures
            string_views(r@) == split_nonempty(input@, delims.component),
    {
        let parts = split_str_nonempty(input, delims.component);
        let mut out: Vec<String> = Vec::new();
        let mut i: usize = 0;
        while i < parts.len()
            invariant
                i <= parts@.len(),
                out@.len() == i,
                forall|j: int| 0 <= j < i ==> (#[trigger] out@[j])@ == parts@[j]@,
            decreases parts@.len() - i,
        {
            out.push(parts[i].to_owned());
            i = i + 1;
        }
        assert(string_views(out@) =~= views(parts@));
        out
    }

    /// The repeats of one field: none when `input` is empty.
    pub fn get_repeats<'a>(input: &'a str, delims: &Separators) -> (r: Vec<&'a str>)
        ensures
            views(r@) == split_nonempty(input@, delims.repeat),
    {
        split_str_nonempty(input, delims.repeat)
    }

    /// One field split into repeats, each split into components.
    pub fn parse_field(input: &str, delims: &Separators) -> (r: Field)
        ensures
            r@ == field_values(input@, *delims),
    {
        let values = FieldParser::get_repeats(input, delims);
        let mut repeats: Vec<Repeat> = Vec::new();
        let mut i: usize = 0;
        while i < values.len()
            invariant
                i <= values@.len(),
                repeats@.len() == i,
                forall|j: int|
                    0 <= j < i ==> (#[trigger] repeats@[j])@ == split_nonempty(
                        values@[j]@,
                        delims.component,
                    ),
            decreases values@.len() - i,
        {
            let components = FieldParser::get_components(values[i], delims);
            repeats.push(Repeat { components });
            i = i + 1;
        }
        let f = Field { repeats };
        assert(f@ =~= field_values(input@, *delims));
        f
    }
}

} // verus!
