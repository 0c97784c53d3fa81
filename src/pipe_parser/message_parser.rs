//! Parses a whole message into the lightweight tree, one message at a
//! time. Values are kept as they stand: nothing is typed or converted.
use crate::pipe_parser::{field_parts, repeat_parts, segment_parts, Field, Message, Repeat, Segment};
use crate::text::{
    find_char, lemma_split_concat, lemma_split_free, lines_before_blank, lines_until_blank, slice,
    split, split_str, split_str_nonempty, views,
};
use vstd::prelude::*;

verus! {

/// What a message reads as: the segments before the first empty line,
/// each split into fields, repeats and components.
pub open spec fn message_parts(input: Seq<char>) -> Seq<Seq<Seq<Seq<Seq<char>>>>> {
    lines_until_blank(split(input, '\r')).map_values(|l: Seq<char>| segment_parts(l))
}

/// The lines of `input` before the first empty one, found by searching for
/// each segment delimiter in turn.
fn lines_by_search<'a>(input: &'a str) -> (r: Vec<&'a str>)
    ensures
        views(r@) == lines_until_blank(split(input@, '\r')),
{
    let n = input.unicode_len();
    let mut out: Vec<&'a str> = Vec::new();
    let mut start: usize = 0;
    assert(input@.subrange(0, n as int) =~= input@);
    assert(views(out@) + lines_until_blank(split(input@, '\r')) =~= lines_until_blank(
        split(input@, '\r'),
    ));
    loop
        invariant
            n == input@.len(),
            start <= n,
            lines_until_blank(split(input@, '\r')) == views(out@) + lines_until_blank(
                split(input@.subrange(start as int, n as int), '\r'),
            ),
        decreases n + 1 - start,
    {
        let ghost rest = input@.subrange(start as int, n as int);
        let ghost before = views(out@);
        match find_char(input, start, '\r') {
            Some(k) => {
                let line = slice(input, start, k);
                let ghost x = line@;
                let ghost y = input@.subrange(k as int + 1, n as int);
                assert(rest =~= x + seq!['\r'] + y);
                assert(!x.contains('\r')) by {
                    if x.contains('\r') {
                        let j = choose|j: int| 0 <= j < x.len() && x[j] == '\r';
                        assert(input@[start + j] == '\r');
                    }
                }
                proof {
                    lemma_split_concat(x, y, '\r');
                    lemma_split_free(x, '\r');
                }
                assert(split(rest, '\r') =~= seq![x] + split(y, '\r'));
                assert((seq![x] + split(y, '\r'))[0] == x);
                assert((seq![x] + split(y, '\r')).drop_first() =~= split(y, '\r'));
                if line.unicode_len() == 0 {
                    assert(lines_until_blank(split(rest, '\r')) =~= Seq::<Seq<char>>::empty());
                    assert(views(out@) + Seq::<Seq<char>>::empty() =~= views(out@));
                    return out;
                }
                out.push(line);
                assert(views(out@) =~= before.push(x));
                assert(before + (seq![x] + lines_until_blank(split(y, '\r'))) =~= views(out@)
                    + lines_until_blank(split(y, '\r')));
                start = k + 1;
            },
            None => {
                let line = slice(input, start, n);
                assert(!rest.contains('\r')) by {
                    if rest.contains('\r') {
                        let j = choose|j: int| 0 <= j < rest.len() && rest[j] == '\r';
                        assert(input@[start + j] == '\r');
                    }
                }
                proof {
                    lemma_split_free(rest, '\r');
                }
                assert(seq![rest].drop_first() =~= Seq::<Seq<char>>::empty());
                if line.unicode_len() == 0 {
                    assert(views(out@) + Seq::<Seq<char>>::empty() =~= views(out@));
                    return out;
                }
                out.push(line);
                assert(views(out@) =~= before.push(rest));
                assert(lines_until_blank(seq![rest]) == seq![rest] + lines_until_blank(
                    Seq::<Seq<char>>::empty(),
                ));
                assert(before + (seq![rest] + Seq::<Seq<char>>::empty()) =~= views(out@));
                return out;
            },
        }
    }
}

fn parse_field<'a>(value: &'a str) -> (r: Field<'a>)
    ensures
        r@ == field_parts(value@),
{
    let repeats = split_str_nonempty(value, '~');
    let mut out: Vec<Repeat<'a>> = Vec::new();
    let mut i: usize = 0;
    while i < repeats.len()
        invariant
            i <= repeats@.len(),
            out@.len() == i,
            forall|j: int| 0 <= j < i ==> (#[trigger] out@[j])@ == repeat_parts(repeats@[j]@),
        decreases repeats@.len() - i,
    {
        out.push(Repeat { sub_components: split_str_nonempty(repeats[i], '^') });
        i = i + 1;
    }
    let f = Field { repeats: out };
    assert(f@ =~= field_parts(value@));
    f
}

fn parse_segment<'a>(line: &'a str) -> (r: Segment<'a>)
    ensures
        r@ == segment_parts(line@),
{
    let values = split_str(line, '|');
    let mut fields: Vec<Field<'a>> = Vec::new();
    let mut i: usize = 0;
    while i < values.len()
        invariant
            i <= values@.len(),
            fields@.len() == i,
            forall|j: int| 0 <= j < i ==> (#[trigger] fields@[j])@ == field_parts(values@[j]@),
        decreases values@.len() - i,
    {
        fields.push(parse_field(values[i]));
        i = i + 1;
    }
    let s = Segment { fields };
    assert(s@ =~= segment_parts(line@));
    s
}

fn parse_lines<'a>(lines: &Vec<&'a str>) -> (r: Message<'a>)
    ensures
        r@ == views(lines@).map_values(|l: Seq<char>| segment_parts(l)),
{
    let mut segments: Vec<Segment<'a>> = Vec::new();
    let mut i: usize = 0;
    while i < lines.len()
        invariant
            i <= lines@.len(),
            segments@.len() == i,
            forall|j: int| 0 <= j < i ==> (#[trigger] segments@[j])@ == segment_parts(lines@[j]@),
        decreases lines@.len() - i,
    {
        segments.push(parse_segment(lines[i]));
        i = i + 1;
    }
    let m = Message { segments };
    assert(m@ =~= views(lines@).map_values(|l: Seq<char>| segment_parts(l)));
    m
}

/// Parses one message with the recommended delimiters. Parsing stops at
/// the first empty line, so a trailing segment delimiter adds nothing.
pub struct MessageParser;

impl MessageParser {
    /// Parses `input` into segments, fields, repeats and components.
    pub fn parse_message<'a>(input: &'a str) -> (r: Message<'a>)
        ensures
            r@ == message_parts(input@),
    {
        let lines = lines_before_blank(input, '\r');
        parse_lines(&lines)
    }

    /// Parses `input` as [`MessageParser::parse_message`] does, finding
    /// each segment by searching for the next segment delimiter.
    pub fn parse_message_alt<'a>(input: &'a str) -> (r: Message<'a>)
        ensures
            r@ == message_parts(input@),
    {
        let lines = lines_by_search(input);
        parse_lines(&lines)
    }
}

} // verus!
