//! Segments told apart by kind: the header, with its fields named, and
//! any other segment as a plain list of fields.
pub mod generic;
pub mod msh;

use crate::separators::Separators;
use crate::segments::{identifier_of, msh};
use crate::text::{split_str, str_eq, lemma_split_len, views};
use crate::Hl7ParseError;
use generic::GenericSegment;
use msh::{header_parse_ok, MshSegment};
use vstd::prelude::*;

verus! {

/// A segment of either kind.
#[allow(non_camel_case_types)]
#[derive(Debug, Clone, PartialEq)]
pub enum Segment<'a> {
    MSH(MshSegment<'a>),
    Generic(GenericSegment<'a>),
}

impl<'a> Segment<'a> {
    /// Reads `input` as a header when its identifier is `MSH`, and as a
    /// plain list of fields otherwise. Only a header can fail, as
    /// [`MshSegment::parse`] says.
    pub fn parse(input: &'a str, delims: &Separators) -> (r: Result<Segment<'a>, Hl7ParseError>)
        ensures
            identifier_of(input@, *delims) == msh() ==> match r {
                Ok(Segment::MSH(m)) => header_parse_ok(input@, *delims) && m.source@ == input@,
                Ok(Segment::Generic(_)) => false,
                Err(e) => !header_parse_ok(input@, *delims) && e is MissingRequiredValue,
            },
            identifier_of(input@, *delims) != msh() ==> (r matches Ok(Segment::Generic(g)) && g.wf()
                && g.source@ == input@ && g.delims == *delims),
    {
        let pieces = split_str(input, delims.field);
        proof {
            lemma_split_len(input@, delims.field);
            reveal_strlit("MSH");
            assert("MSH"@ =~= msh());
        }
        assert(views(pieces@)[0] == pieces@[0]@);
        if str_eq(pieces[0], "MSH") {
            match MshSegment::parse(input, delims) {
                Ok(m) => Ok(Segment::MSH(m)),
                Err(e) => Err(e),
            }
        } else {
            match GenericSegment::parse(input, delims) {
                Ok(g) => Ok(Segment::Generic(g)),
                Err(e) => Err(e),
            }
        }
    }

    /// The source text of this segment.
    pub fn as_str(&self) -> (r: &'a str)
        ensures
            r == match self {
                Segment::MSH(m) => m.source,
                Segment::Generic(g) => g.source,
            },
    {
        match self {
            Segment::MSH(m) => m.as_str(),
            Segment::Generic(g) => g.as_str(),
        }
    }
}

} // verus!
