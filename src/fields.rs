//! A single field: the value between two field delimiters, with its
//! components and their subcomponents.
use crate::path::{descend, descend_str, nats, parse_levels, parse_tail};
use crate::separators::Separators;
use crate::text::{join, lemma_join_split, pick, split, split_str, views};
use crate::Hl7ParseError;
use vstd::prelude::*;

verus! {

/// A field of a segment. `components` splits `source` on the component
/// delimiter, and `subcomponents[i]` splits `components[i]` on the
/// subcomponent delimiter; empty pieces are kept. All of them are slices
/// of the message.
#[derive(Debug, Clone, PartialEq)]
pub struct Field<'a> {
    pub source: &'a str,
    pub delims: Separators,
    pub components: Vec<&'a str>,
    pub subcomponents: Vec<Vec<&'a str>>,
}

/// What the value of a field tail (`R2.C1`, `C3.S2`, ...) selects inside
/// the field `v`: the empty text when the tail is malformed.
pub open spec fn field_query(v: Seq<char>, tail: Seq<char>, seps: Separators) -> Seq<char> {
    let elems = split(tail, '.');
    match parse_levels(elems, 1) {
        None => Seq::<char>::empty(),
        Some(idx) => descend(v, idx, 1, seps),
    }
}

impl<'a> Field<'a> {
    /// The source text of this field, copied.
    pub fn to_string(&self) -> (r: String)
        ensures
            r@ == self.source@,
    {
        self.source.to_owned()
    }

    /// The components and subcomponents are the splits of the source.
    pub open spec fn wf(&self) -> bool {
        &&& views(self.components@) == split(self.source@, self.delims.component)
        &&& self.subcomponents@.len() == self.components@.len()
        &&& forall|i: int|
            0 <= i < self.components@.len() ==> views(#[trigger] self.subcomponents@[i]@)
                == split(self.components@[i]@, self.delims.subcomponent)
    }

    /// Splits `input` into components and subcomponents. Never fails.
    pub fn parse(input: &'a str, delims: &Separators) -> (r: Result<Field<'a>, Hl7ParseError>)
        ensures
            r matches Ok(f) && f.wf() && f.source@ == input@ && f.delims == *delims,
    {
        let components = split_str(input, delims.component);
        let mut subcomponents: Vec<Vec<&'a str>> = Vec::new();
        let mut i: usize = 0;
        while i < components.len()
            invariant
                i <= components@.len(),
                subcomponents@.len() == i,
                forall|j: int|
                    0 <= j < i ==> views(#[trigger] subcomponents@[j]@) == split(
                        components@[j]@,
                        delims.subcomponent,
                    ),
            decreases components@.len() - i,
        {
            let subs = split_str(components[i], delims.subcomponent);
            subcomponents.push(subs);
            i = i + 1;
        }
        let f = Field { source: input, delims: *delims, components, subcomponents };
        assert forall|i: int| 0 <= i < f.components@.len() implies views(
            #[trigger] f.subcomponents@[i]@,
        ) == split(f.components@[i]@, f.delims.subcomponent) by {
            assert(views(f.components@)[i] == f.components@[i]@);
        }
        Ok(f)
    }

    /// A field for a value that must be present: `MissingRequiredValue`
    /// when it is absent. An empty value is present.
    pub fn parse_mandatory(input: Option<&'a str>, delims: &Separators) -> (r: Result<
        Field<'a>,
        Hl7ParseError,
    >)
        ensures
            match input {
                Some(s) => r matches Ok(f) && f.wf() && f.source@ == s@ && f.delims == *delims,
                None => r matches Err(e) && e is MissingRequiredValue,
            },
    {
        match input {
            Some(value) => Field::parse(value, delims),
            None => Err(Hl7ParseError::MissingRequiredValue()),
        }
    }

    /// A field for a value that may be left out: `None` when it is absent
    /// or empty.
    pub fn parse_optional(input: Option<&'a str>, delims: &Separators) -> (r: Result<
        Option<Field<'a>>,
        Hl7ParseError,
    >)
        ensures
            match input {
                Some(s) => if s@.len() == 0 {
                    r matches Ok(None)
                } else {
                    r matches Ok(Some(f)) && f.wf() && f.source@ == s@ && f.delims == *delims
                },
                None => r matches Ok(None),
            },
    {
        match input {
            None => Ok(None),
            Some(x) => {
                if x.unicode_len() == 0 {
                    Ok(None)
                } else {
                    match Field::parse(x, delims) {
                        Ok(f) => Ok(Some(f)),
                        Err(e) => Err(e),
                    }
                }
            },
        }
    }

    /// The source text of this field.
    pub fn value(&self) -> (r: &'a str)
        ensures
            r == self.source,
    {
        self.source
    }

    /// The source text of this field.
    pub fn as_str(&self) -> (r: &'a str)
        ensures
            r == self.source,
    {
        self.source
    }

    /// The component at `idx`, counted from 0, or the empty text.
    pub fn component(&self, idx: usize) -> (r: &'a str)
        requires
            self.wf(),
        ensures
            r@ == pick(split(self.source@, self.delims.component), idx as int),
    {
        if idx < self.components.len() {
            self.components[idx]
        } else {
            proof {
                reveal_strlit("");
            }
            ""
        }
    }

    /// The subcomponent at `sub` of the component at `comp`, both counted
    /// from 0, or the empty text.
    pub fn subcomponent(&self, comp: usize, sub: usize) -> (r: &'a str)
        requires
            self.wf(),
        ensures
            r@ == pick(
                split(
                    pick(split(self.source@, self.delims.component), comp as int),
                    self.delims.subcomponent,
                ),
                sub as int,
            ),
    {
        if comp < self.components.len() && sub < self.subcomponents[comp].len() {
            assert(views(self.components@)[comp as int] == self.components@[comp as int]@);
            assert(views(self.subcomponents@[comp as int]@)[sub as int]
                == self.subcomponents@[comp as int]@[sub as int]@);
            self.subcomponents[comp][sub]
        } else {
            proof {
                reveal_strlit("");
                if comp < self.components@.len() {
                    assert(views(self.components@)[comp as int] == self.components@[comp as int]@);
                }
            }
            ""
        }
    }

    /// The value that a field tail selects: `R` (repeat), `C` (component)
    /// and `S` (subcomponent) elements with indices counted from 1, in
    /// that order and separated by `.`, such as `R2.C1`; a left-out `R` or
    /// `C` stands for index 1. The empty text when the tail is malformed
    /// or an index is out of range.
    pub fn query(&self, sidx: &str) -> (r: &'a str)
        ensures
            r@ == field_query(self.source@, sidx@, self.delims),
    {
        let elems = split_str(sidx, '.');
        match parse_tail(&elems, 0, 1) {
            None => {
                assert(views(elems@).skip(0) =~= views(elems@));
                proof {
                    reveal_strlit("");
                }
                ""
            },
            Some(idx) => {
                assert(views(elems@).skip(0) =~= views(elems@));
                assert(nats(idx@).skip(0) =~= nats(idx@));
                descend_str(self.source, &idx, 0, 1, &self.delims)
            },
        }
    }

    /// The value that a field tail selects, as [`Field::query`] does.
    pub fn query_by_string(&self, idx: String) -> (r: &'a str)
        ensures
            r@ == field_query(self.source@, idx@, self.delims),
    {
        self.query(idx.as_str())
    }
}

/// Joining a field's components with the component delimiter gives its
/// source, and joining the subcomponents of each component with the
/// subcomponent delimiter gives that component.
pub proof fn lemma_field_concatenation(f: &Field)
    requires
        f.wf(),
    ensures
        join(views(f.components@), f.delims.component) == f.source@,
        forall|i: int|
            0 <= i < f.components@.len() ==> join(
                views(#[trigger] f.subcomponents@[i]@),
                f.delims.subcomponent,
            ) == f.components@[i]@,
{
    lemma_join_split(f.source@, f.delims.component);
    assert forall|i: int| 0 <= i < f.components@.len() implies join(
        views(#[trigger] f.subcomponents@[i]@),
        f.delims.subcomponent,
    ) == f.components@[i]@ by {
        lemma_join_split(f.components@[i]@, f.delims.subcomponent);
    }
}

} // verus!
