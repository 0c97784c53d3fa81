//! Parses one segment: one line of a message.
use crate::owned_parser::field_parser::FieldParser;
use crate::owned_parser::{field_values, segment_values, Field, Segment};
use crate::separators::Separators;
use crate::text::{split_str, trim};
use vstd::prelude::*;

verus! {

/// Splits one segment into fields, repeats and components.
pub struct SegmentParser;

impl SegmentParser {
    /// The fields of `input`, trimmed of surrounding whitespace first,
    /// each split into repeats and components.
    pub fn parse_segment(input: &str, delims: &Separators) -> (r: Segment)
        ensures
            r@ == segment_values(input@, *delims),
    {
        let values = split_str(trim(input), delims.field);
        let mut fields: Vec<Field> = Vec::new();
        let mut i: usize = 0;
        while i < values.len()
            invariant
                i <= values@.len(),
                fields@.len() == i,
                forall|j: int|
                    0 <= j < i ==> (#[trigger] fields@[j])@ == field_values(values@[j]@, *delims),
            decreases values@.len() - i,
        {
            fields.push(FieldParser::parse_field(values[i], delims));
            i = i + 1;
        }
        let s = Segment { fields };
        assert(s@ =~= segment_values(input@, *delims));
        s
    }
}

} // verus!
