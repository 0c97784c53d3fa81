//! Parses a whole message into the owned tree, one message at a time,
//! with the recommended delimiters. Values are kept as they stand:
//! nothing is typed or converted.
use crate::owned_parser::segment_parser::SegmentParser;
use crate::owned_parser::{segment_values, Message, Segment};
use crate::separators::{default_separators, Separators};
use crate::text::{lines_before_blank, lines_until_blank, split};
use vstd::prelude::*;

verus! {

/// What a message reads as: the segments before the first empty line,
/// each split into fields, repeats and components.
pub open spec fn message_values(input: Seq<char>) -> Seq<Seq<Seq<Seq<Seq<char>>>>> {
    lines_until_blank(split(input, '\r')).map_values(
        |l: Seq<char>| segment_values(l, default_separators()),
    )
}

/// Parses one message into the owned tree.
pub struct MessageParser;

impl MessageParser {
    /// Parses `input` into segments, fields, repeats and components; the
    /// message keeps `input`. Parsing stops at the first empty line, so a
    /// trailing segment delimiter adds nothing.
    pub fn parse_message(input: String) -> (r: Message)
        ensures
            r.input@ == input@,
            r.segments@.map_values(|s: Segment| s@) == message_values(input@),
    {
        let delims = Separators::default();
        let lines = lines_before_blank(input.as_str(), delims.segment);
        let mut segments: Vec<Segment> = Vec::new();
        let mut i: usize = 0;
        while i < lines.len()
            invariant
                i <= lines@.len(),
                delims == default_separators(),
                segments@.len() == i,
                forall|j: int|
                    0 <= j < i ==> (#[trigger] segments@[j])@ == segment_values(
                        lines@[j]@,
                        delims,
                    ),
            decreases lines@.len() - i,
        {
            segments.push(SegmentParser::parse_segment(lines[i], &delims));
            i = i + 1;
        }
        assert(segments@.map_values(|s: Segment| s@) =~= message_values(input@));
        Message { input, segments }
    }
}

} // verus!
