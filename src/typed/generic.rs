//! A segment read as a plain, positional list of fields.
use crate::fields::Field;
use crate::path::{descend, descend_str, element_index, level_of, nats, parse_levels, parse_tail};
use crate::segments::{field_sources, starts_with_field};
use crate::separators::Separators;
use crate::text::{lemma_split_len, pick, split, split_str, views};
use crate::Hl7ParseError;
use vstd::prelude::*;

verus! {

/// What the tail elements `elems` select in `seg` when its fields are
/// counted by their place in the split, the identifier being field 0.
pub open spec fn positional_select(seg: Seq<char>, elems: Seq<Seq<char>>, seps: Separators) -> Seq<
    char,
> {
    if !starts_with_field(elems) {
        Seq::<char>::empty()
    } else {
        match parse_levels(elems, 0) {
            None => Seq::<char>::empty(),
            Some(idx) => descend(
                pick(split(seg, seps.field), idx[0] as int),
                idx.drop_first(),
                1,
                seps,
            ),
        }
    }
}

/// A segment as a bag of fields, numbered by their place: the identifier
/// is field 0, whatever the segment.
#[derive(Debug, Clone, PartialEq)]
pub struct GenericSegment<'a> {
    pub source: &'a str,
    pub delim: char,
    pub delims: Separators,
    pub fields: Vec<Field<'a>>,
}

impl<'a> GenericSegment<'a> {
    pub open spec fn wf(&self) -> bool {
        &&& field_sources(self.fields@) == split(self.source@, self.delims.field)
        &&& self.delim == self.delims.segment
        &&& forall|i: int|
            0 <= i < self.fields@.len() ==> (#[trigger] self.fields@[i]).wf()
                && self.fields@[i].delims == self.delims
    }

    /// Splits `input` into fields. Never fails.
    pub fn parse(input: &'a str, delims: &Separators) -> (r: Result<GenericSegment<'a>, Hl7ParseError>)
        ensures
            r matches Ok(s) && s.wf() && s.source@ == input@ && s.delims == *delims,
    {
        let pieces = split_str(input, delims.field);
        let mut fields: Vec<Field<'a>> = Vec::new();
        let mut i: usize = 0;
        while i < pieces.len()
            invariant
                i <= pieces@.len(),
                fields@.len() == i,
                forall|j: int|
                    0 <= j < i ==> (#[trigger] fields@[j]).wf() && fields@[j].delims == *delims
                        && fields@[j].source@ == pieces@[j]@,
            decreases pieces@.len() - i,
        {
            match Field::parse(pieces[i], delims) {
                Ok(f) => fields.push(f),
                Err(e) => {
                    return Err(e);
                },
            }
            i = i + 1;
        }
        let seg = GenericSegment { source: input, delim: delims.segment, delims: *delims, fields };
        assert(field_sources(seg.fields@) =~= views(pieces@));
        Ok(seg)
    }

    /// The source text of this segment.
    pub fn as_str(&self) -> (r: &'a str)
        ensures
            r == self.source,
    {
        self.source
    }

    /// The field at `fidx`, counted from 0 (the identifier), or the empty
    /// text.
    pub fn field(&self, fidx: usize) -> (r: &'a str)
        requires
            self.wf(),
        ensures
            r@ == pick(split(self.source@, self.delims.field), fidx as int),
    {
        if fidx < self.fields.len() {
            assert(field_sources(self.fields@)[fidx as int] == self.fields@[fidx as int].source@);
            self.fields[fidx].source
        } else {
            proof {
                reveal_strlit("");
            }
            ""
        }
    }

    /// The component at `cidx` of the field at `fidx`, both counted from
    /// 0, or the empty text.
    pub fn component(&self, fidx: usize, cidx: usize) -> (r: &'a str)
        requires
            self.wf(),
        ensures
            r@ == pick(
                split(pick(split(self.source@, self.delims.field), fidx as int), self.delims.component),
                cidx as int,
            ),
    {
        if fidx < self.fields.len() {
            assert(field_sources(self.fields@)[fidx as int] == self.fields@[fidx as int].source@);
            self.fields[fidx].component(cidx)
        } else {
            proof {
                reveal_strlit("");
                assert(split(Seq::<char>::empty(), self.delims.component) =~= seq![
                    Seq::<char>::empty(),
                ]);
            }
            ""
        }
    }

    /// The subcomponent at `sidx` of the component at `cidx` of the field
    /// at `fidx`, all counted from 0, or the empty text.
    pub fn subcomponent(&self, fidx: usize, cidx: usize, sidx: usize) -> (r: &'a str)
        requires
            self.wf(),
        ensures
            r@ == pick(
                split(
                    pick(
                        split(
                            pick(split(self.source@, self.delims.field), fidx as int),
                            self.delims.component,
                        ),
                        cidx as int,
                    ),
                    self.delims.subcomponent,
                ),
                sidx as int,
            ),
    {
        if fidx < self.fields.len() {
            assert(field_sources(self.fields@)[fidx as int] == self.fields@[fidx as int].source@);
            self.fields[fidx].subcomponent(cidx, sidx)
        } else {
            proof {
                reveal_strlit("");
                assert(split(Seq::<char>::empty(), self.delims.component) =~= seq![
                    Seq::<char>::empty(),
                ]);
                assert(split(Seq::<char>::empty(), self.delims.subcomponent) =~= seq![
                    Seq::<char>::empty(),
                ]);
            }
            ""
        }
    }

    /// The value that a segment tail selects (see
    /// [`crate::Segment::query`]), with fields numbered by their place in
    /// the split.
    pub fn query(&self, fidx: &str) -> (r: &'a str)
        requires
            self.wf(),
        ensures
            r@ == positional_select(self.source@, split(fidx@, '.'), self.delims),
    {
        proof {
            reveal_strlit("");
        }
        let elems = split_str(fidx, '.');
        proof {
            lemma_split_len(fidx@, '.');
        }
        let ghost tail = views(elems@);
        assert(tail.skip(0) =~= tail);
        let first = elems[0];
        assert(tail[0] == first@);
        if first.unicode_len() == 0 || first.get_char(0) != 'F' {
            return "";
        }
        match parse_tail(&elems, 0, 0) {
            None => "",
            Some(idx) => {
                assert(idx@.len() >= 1) by {
                    let e = tail[0];
                    let l = level_of(e[0]);
                    let n = element_index(e).unwrap();
                    let rest = parse_levels(tail.drop_first(), l + 1).unwrap();
                    assert(nats(idx@) == Seq::new((l - 0) as nat, |_i: int| 1nat) + seq![n] + rest);
                    assert(nats(idx@).len() == idx@.len());
                }
                let fv = self.field(idx[0]);
                assert(nats(idx@).skip(1) =~= nats(idx@).drop_first());
                descend_str(fv, &idx, 1, 1, &self.delims)
            },
        }
    }
}

} // verus!
