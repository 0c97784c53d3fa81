//! A segment: one line of a message, split into fields.
use crate::fields::Field;
use crate::path::{descend, element_index, level_of, descend_str, nats, parse_levels, parse_tail};
use crate::separators::Separators;
use crate::text::{join, lemma_join_split, lemma_split_len, pick, select, slice, split, split_str, str_eq, views};
use crate::Hl7ParseError;
use vstd::prelude::*;

verus! {

/// The text of each field.
pub open spec fn field_sources<'a>(fields: Seq<Field<'a>>) -> Seq<Seq<char>> {
    fields.map_values(|f: Field<'a>| f.source@)
}

/// The three characters `MSH`.
pub open spec fn msh() -> Seq<char> {
    seq!['M', 'S', 'H']
}

/// The identifier of a segment: its first field.
pub open spec fn identifier_of(seg: Seq<char>, seps: Separators) -> Seq<char> {
    split(seg, seps.field)[0]
}

/// The field numbered `n` of the segment `seg`, counted the way HL7
/// counts them. In an ordinary segment the identifier is field 0, so
/// field `n` is the `n`th piece after it. In a header (`MSH`) segment
/// the field delimiter itself is field 1 and the four encoding
/// characters that follow it are field 2; field `n` from 3 on is then
/// the piece numbered `n - 1` after the identifier.
pub open spec fn field_value(seg: Seq<char>, n: int, seps: Separators) -> Seq<char> {
    let fs = split(seg, seps.field);
    if identifier_of(seg, seps) == msh() {
        if n == 1 {
            if seg.len() >= 4 {
                seg.subrange(3, 4)
            } else {
                Seq::<char>::empty()
            }
        } else if n == 2 {
            if seg.len() >= 8 {
                seg.subrange(4, 8)
            } else {
                Seq::<char>::empty()
            }
        } else if n >= 3 {
            pick(fs, n - 1)
        } else {
            Seq::<char>::empty()
        }
    } else if n >= 1 {
        pick(fs, n)
    } else {
        Seq::<char>::empty()
    }
}

/// Whether the first of the path elements `elems` names a field.
pub open spec fn starts_with_field(elems: Seq<Seq<char>>) -> bool {
    elems.len() > 0 && elems[0].len() > 0 && elems[0][0] == 'F'
}

/// What the tail elements `elems` (`F3`, `R1`, `C2`, ...) select in the
/// segment `seg`: the empty text when they are malformed.
pub open spec fn segment_select(seg: Seq<char>, elems: Seq<Seq<char>>, seps: Separators) -> Seq<
    char,
> {
    if !starts_with_field(elems) {
        Seq::<char>::empty()
    } else {
        match parse_levels(elems, 0) {
            None => Seq::<char>::empty(),
            Some(idx) => descend(field_value(seg, idx[0] as int, seps), idx.drop_first(), 1, seps),
        }
    }
}

/// A segment of a message. `fields` splits `source` on the field
/// delimiter, empty fields kept.
#[derive(Debug, Clone, PartialEq)]
pub struct Segment<'a> {
    pub source: &'a str,
    pub delims: Separators,
    pub fields: Vec<Field<'a>>,
}

impl<'a> Segment<'a> {
    /// The source text of this segment, copied.
    pub fn to_string(&self) -> (r: String)
        ensures
            r@ == self.source@,
    {
        self.source.to_owned()
    }

    pub open spec fn wf(&self) -> bool {
        &&& field_sources(self.fields@) == split(self.source@, self.delims.field)
        &&& forall|i: int|
            0 <= i < self.fields@.len() ==> (#[trigger] self.fields@[i]).wf()
                && self.fields@[i].delims == self.delims
    }

    /// Splits `input` into fields. Never fails.
    pub fn parse(input: &'a str, delims: &Separators) -> (r: Result<Segment<'a>, Hl7ParseError>)
        ensures
            r matches Ok(s) && s.wf() && s.source@ == input@ && s.delims == *delims,
    {
        let pieces = split_str(input, delims.field);
        let mut fields: Vec<Field<'a>> = Vec::new();
        let mut i: usize = 0;
        while i < pieces.len()
            invariant
                i <= pieces@.len(),
                fields@.len() == i,
                forall|j: int|
                    0 <= j < i ==> (#[trigger] fields@[j]).wf() && fields@[j].delims == *delims
                        && fields@[j].source@ == pieces@[j]@,
            decreases pieces@.len() - i,
        {
            match Field::parse(pieces[i], delims) {
                Ok(f) => fields.push(f),
                Err(e) => {
                    return Err(e);
                },
            }
            i = i + 1;
        }
        let seg = Segment { source: input, delims: *delims, fields };
        assert(field_sources(seg.fields@) =~= views(pieces@));
        Ok(seg)
    }

    /// The identifier of this segment (`PID`, `OBR`, ...): its first
    /// field.
    pub fn identifier(&self) -> (r: &'a str)
        requires
            self.wf(),
        ensures
            r@ == identifier_of(self.source@, self.delims),
    {
        proof {
            lemma_split_len(self.source@, self.delims.field);
            assert(field_sources(self.fields@)[0] == self.fields@[0].source@);
        }
        self.fields[0].source
    }

    /// The source text of this segment.
    pub fn as_str(&self) -> (r: &'a str)
        ensures
            r == self.source,
    {
        self.source
    }

    /// The piece of the field split at `fidx`, counted from 0 (0 is the
    /// identifier), or the empty text.
    pub fn field(&self, fidx: usize) -> (r: &'a str)
        requires
            self.wf(),
        ensures
            r@ == pick(split(self.source@, self.delims.field), fidx as int),
    {
        if fidx < self.fields.len() {
            assert(field_sources(self.fields@)[fidx as int] == self.fields@[fidx as int].source@);
            self.fields[fidx].source
        } else {
            proof {
                reveal_strlit("");
            }
            ""
        }
    }

    /// The repeat at `ridx` of the field piece at `fidx`, both counted
    /// from 0, or the empty text.
    pub fn repeat(&self, fidx: usize, ridx: usize) -> (r: &'a str)
        requires
            self.wf(),
        ensures
            r@ == pick(
                split(pick(split(self.source@, self.delims.field), fidx as int), self.delims.repeat),
                ridx as int,
            ),
    {
        let f = self.field(fidx);
        let repeats = split_str(f, self.delims.repeat);
        if ridx < repeats.len() {
            repeats[ridx]
        } else {
            proof {
                reveal_strlit("");
            }
            ""
        }
    }

    /// The component at `cidx` of the repeat at `ridx` of the field piece
    /// at `fidx`, all counted from 0, or the empty text.
    pub fn component(&self, fidx: usize, ridx: usize, cidx: usize) -> (r: &'a str)
        requires
            self.wf(),
        ensures
            r@ == pick(
                split(
                    pick(
                        split(
                            pick(split(self.source@, self.delims.field), fidx as int),
                            self.delims.repeat,
                        ),
                        ridx as int,
                    ),
                    self.delims.component,
                ),
                cidx as int,
            ),
    {
        let rep = self.repeat(fidx, ridx);
        let comps = split_str(rep, self.delims.component);
        if cidx < comps.len() {
            comps[cidx]
        } else {
            proof {
                reveal_strlit("");
            }
            ""
        }
    }

    /// The field numbered `n` as HL7 counts them; see [`field_value`].
    pub fn field_by_number(&self, n: usize) -> (r: &'a str)
        requires
            self.wf(),
        ensures
            r@ == field_value(self.source@, n as int, self.delims),
    {
        let id = self.identifier();
        let is_header = str_eq(id, "MSH");
        proof {
            reveal_strlit("MSH");
            reveal_strlit("");
            assert("MSH"@ =~= msh());
        }
        if is_header {
            assert(id@ == msh());
            let len = self.source.unicode_len();
            if n == 1 {
                if len >= 4 {
                    slice(self.source, 3, 4)
                } else {
                    ""
                }
            } else if n == 2 {
                if len >= 8 {
                    slice(self.source, 4, 8)
                } else {
                    ""
                }
            } else if n >= 3 {
                self.field(n - 1)
            } else {
                ""
            }
        } else {
            assert(id@ != msh());
            if n >= 1 {
                self.field(n)
            } else {
                ""
            }
        }
    }

    /// What the path elements `elems[from..]` select in this segment.
    pub fn select_elements(&self, elems: &Vec<&str>, from: usize) -> (r: &'a str)
        requires
            self.wf(),
            from <= elems@.len(),
        ensures
            r@ == segment_select(self.source@, views(elems@).skip(from as int), self.delims),
    {
        proof {
            reveal_strlit("");
        }
        let ghost tail = views(elems@).skip(from as int);
        if from >= elems.len() {
            return "";
        }
        let first = elems[from];
        assert(tail[0] == first@);
        if first.unicode_len() == 0 || first.get_char(0) != 'F' {
            return "";
        }
        match parse_tail(elems, from, 0) {
            None => "",
            Some(idx) => {
                assert(idx@.len() >= 1) by {
                    assert(tail.len() > 0);
                    let e = tail[0];
                    let l = level_of(e[0]);
                    let n = element_index(e).unwrap();
                    let rest = parse_levels(tail.drop_first(), l + 1).unwrap();
                    assert(nats(idx@) == Seq::new((l - 0) as nat, |_i: int| 1nat) + seq![n] + rest);
                    assert(nats(idx@).len() == idx@.len());
                }
                let fv = self.field_by_number(idx[0]);
                assert(nats(idx@).skip(1) =~= nats(idx@).drop_first());
                descend_str(fv, &idx, 1, 1, &self.delims)
            },
        }
    }

    /// The value that a segment tail selects: an `F` element with the
    /// field number, then optional `R`, `C` and `S` elements, separated by
    /// `.`, such as `F3.R1.C2`; indices count from 1 and a left-out `R` or
    /// `C` stands for index 1. The empty text when the tail is malformed
    /// or an index is out of range.
    pub fn query(&self, fidx: &str) -> (r: &'a str)
        requires
            self.wf(),
        ensures
            r@ == segment_select(self.source@, split(fidx@, '.'), self.delims),
    {
        let elems = split_str(fidx, '.');
        assert(views(elems@).skip(0) =~= views(elems@));
        self.select_elements(&elems, 0)
    }
}

/// Joining a segment's fields with the field delimiter gives its source.
pub proof fn lemma_segment_concatenation(s: &Segment)
    requires
        s.wf(),
    ensures
        join(field_sources(s.fields@), s.delims.field) == s.source@,
{
    lemma_join_split(s.source@, s.delims.field);
}

} // verus!
