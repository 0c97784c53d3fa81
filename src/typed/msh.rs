//! The header segment, with its first nineteen fields named.
use crate::fields::Field;
use crate::segments::{identifier_of, msh};
use crate::separators::Separators;
use crate::text::{lemma_split_len, split, split_str, str_eq, views};
use crate::typed::generic::GenericSegment;
use crate::Hl7ParseError;
use vstd::prelude::*;

verus! {

/// Whether the piece `i` of the field split `fs` is what the optional
/// field `o` holds: absent or empty gives `None`.
pub open spec fn optional_field_is<'a>(
    o: Option<Field<'a>>,
    fs: Seq<Seq<char>>,
    i: int,
    seps: Separators,
) -> bool {
    match o {
        None => i >= fs.len() || fs[i].len() == 0,
        Some(f) => i < fs.len() && fs[i].len() > 0 && f.wf() && f.source@ == fs[i] && f.delims
            == seps,
    }
}

/// Whether the mandatory field `f` holds the piece `i` of the field split
/// `fs`, which must be there (it may be empty).
pub open spec fn mandatory_field_is<'a>(f: Field<'a>, fs: Seq<Seq<char>>, i: int, seps: Separators) -> bool {
    i < fs.len() && f.wf() && f.source@ == fs[i] && f.delims == seps
}

/// Whether `s` reads as a header: its identifier is `MSH` and it reaches
/// the last mandatory field, field 12.
pub open spec fn header_parse_ok(s: Seq<char>, seps: Separators) -> bool {
    identifier_of(s, seps) == msh() && split(s, seps.field).len() >= 12
}

/// The header segment. Field 1 is the field delimiter and field 2 the
/// encoding characters; field `n` from 3 on is the piece numbered `n - 1`
/// of the field split. Fields 7 and 9 to 12 are mandatory.
#[derive(Debug, Clone, PartialEq)]
pub struct MshSegment<'a> {
    pub source: &'a str,
    pub msh_1_field_separator: char,
    pub msh_2_encoding_characters: Separators,
    pub msh_3_sending_application: Option<Field<'a>>,
    pub msh_4_sending_facility: Option<Field<'a>>,
    pub msh_5_receiving_application: Option<Field<'a>>,
    pub msh_6_receiving_facility: Option<Field<'a>>,
    pub msh_7_date_time_of_message: Field<'a>,
    pub msh_8_security: Option<Field<'a>>,
    pub msh_9_message_type: Field<'a>,
    pub msh_10_message_control_id: Field<'a>,
    pub msh_11_processing_id: Field<'a>,
    pub msh_12_version_id: Field<'a>,
    pub msh_13_sequence_number: Option<Field<'a>>,
    pub msh_14_continuation_pointer: Option<Field<'a>>,
    pub msh_15_accept_acknowledgment_type: Option<Field<'a>>,
    pub msh_16_application_acknowledgment_type: Option<Field<'a>>,
    pub msh_17_country_code: Option<Field<'a>>,
    pub msh_18_character_set: Option<Field<'a>>,
    pub msh_19_principal_language_of_message: Option<Field<'a>>,
}

/// The piece at `i`, if there is one.
fn piece<'a>(pieces: &Vec<&'a str>, i: usize) -> (r: Option<&'a str>)
    ensures
        match r {
            Some(p) => i < pieces@.len() && p == pieces@[i as int],
            None => i >= pieces@.len(),
        },
{
    if i < pieces.len() {
        Some(pieces[i])
    } else {
        None
    }
}

fn optional<'a>(pieces: &Vec<&'a str>, i: usize, delims: &Separators) -> (r: Option<Field<'a>>)
    ensures
        optional_field_is(r, views(pieces@), i as int, *delims),
{
    let p = piece(pieces, i);
    if i < pieces.len() {
        assert(views(pieces@)[i as int] == pieces@[i as int]@);
    }
    match Field::parse_optional(p, delims) {
        Ok(o) => o,
        Err(_) => None,
    }
}

fn mandatory<'a>(pieces: &Vec<&'a str>, i: usize, delims: &Separators) -> (r: Result<
    Field<'a>,
    Hl7ParseError,
>)
    ensures
        match r {
            Ok(f) => mandatory_field_is(f, views(pieces@), i as int, *delims),
            Err(e) => i >= pieces@.len() && e is MissingRequiredValue,
        },
{
    let p = piece(pieces, i);
    if i < pieces.len() {
        assert(views(pieces@)[i as int] == pieces@[i as int]@);
    }
    Field::parse_mandatory(p, delims)
}

impl<'a> MshSegment<'a> {
    /// Whether this header holds what the segment `s` with delimiters
    /// `seps` reads as.
    pub open spec fn reads(&self, s: Seq<char>, seps: Separators) -> bool {
        let fs = split(s, seps.field);
        &&& self.source@ == s
        &&& self.msh_1_field_separator == seps.field
        &&& self.msh_2_encoding_characters == seps
        &&& optional_field_is(self.msh_3_sending_application, fs, 2, seps)
        &&& optional_field_is(self.msh_4_sending_facility, fs, 3, seps)
        &&& optional_field_is(self.msh_5_receiving_application, fs, 4, seps)
        &&& optional_field_is(self.msh_6_receiving_facility, fs, 5, seps)
        &&& mandatory_field_is(self.msh_7_date_time_of_message, fs, 6, seps)
        &&& optional_field_is(self.msh_8_security, fs, 7, seps)
        &&& mandatory_field_is(self.msh_9_message_type, fs, 8, seps)
        &&& mandatory_field_is(self.msh_10_message_control_id, fs, 9, seps)
        &&& mandatory_field_is(self.msh_11_processing_id, fs, 10, seps)
        &&& mandatory_field_is(self.msh_12_version_id, fs, 11, seps)
        &&& optional_field_is(self.msh_13_sequence_number, fs, 12, seps)
        &&& optional_field_is(self.msh_14_continuation_pointer, fs, 13, seps)
        &&& optional_field_is(self.msh_15_accept_acknowledgment_type, fs, 14, seps)
        &&& optional_field_is(self.msh_16_application_acknowledgment_type, fs, 15, seps)
        &&& optional_field_is(self.msh_17_country_code, fs, 16, seps)
        &&& optional_field_is(self.msh_18_character_set, fs, 17, seps)
        &&& optional_field_is(self.msh_19_principal_language_of_message, fs, 18, seps)
    }

    /// Reads `input` as a header: `MshHeaderMalformed` when its identifier
    /// is not `MSH`, `MissingRequiredValue` when it stops before field 12.
    pub fn parse(input: &'a str, delims: &Separators) -> (r: Result<MshSegment<'a>, Hl7ParseError>)
        ensures
            match r {
                Ok(m) => header_parse_ok(input@, *delims) && m.reads(input@, *delims),
                Err(e) => !header_parse_ok(input@, *delims) && if identifier_of(input@, *delims)
                    == msh() {
                    e is MissingRequiredValue
                } else {
                    e is MshHeaderMalformed
                },
            },
    {
        let pieces = split_str(input, delims.field);
        proof {
            lemma_split_len(input@, delims.field);
            reveal_strlit("MSH");
            assert("MSH"@ =~= msh());
        }
        assert(views(pieces@)[0] == pieces@[0]@);
        if !str_eq(pieces[0], "MSH") {
            return Err(
                Hl7ParseError::MshHeaderMalformed("segment does not start with 'MSH'".to_string()),
            );
        }
        let msh_3 = optional(&pieces, 2, delims);
        let msh_4 = optional(&pieces, 3, delims);
        let msh_5 = optional(&pieces, 4, delims);
        let msh_6 = optional(&pieces, 5, delims);
        let msh_7 = match mandatory(&pieces, 6, delims) {
            Ok(f) => f,
            Err(e) => {
                return Err(e);
            },
        };
        let msh_8 = optional(&pieces, 7, delims);
        let msh_9 = match mandatory(&pieces, 8, delims) {
            Ok(f) => f,
            Err(e) => {
                return Err(e);
            },
        };
        let msh_10 = match mandatory(&pieces, 9, delims) {
            Ok(f) => f,
            Err(e) => {
                return Err(e);
            },
        };
        let msh_11 = match mandatory(&pieces, 10, delims) {
            Ok(f) => f,
            Err(e) => {
                return Err(e);
            },
        };
        let msh_12 = match mandatory(&pieces, 11, delims) {
            Ok(f) => f,
            Err(e) => {
                return Err(e);
            },
        };
        Ok(
            MshSegment {
                source: input,
                msh_1_field_separator: delims.field,
                msh_2_encoding_characters: *delims,
                msh_3_sending_application: msh_3,
                msh_4_sending_facility: msh_4,
                msh_5_receiving_application: msh_5,
                msh_6_receiving_facility: msh_6,
                msh_7_date_time_of_message: msh_7,
                msh_8_security: msh_8,
                msh_9_message_type: msh_9,
                msh_10_message_control_id: msh_10,
                msh_11_processing_id: msh_11,
                msh_12_version_id: msh_12,
                msh_13_sequence_number: optional(&pieces, 12, delims),
                msh_14_continuation_pointer: optional(&pieces, 13, delims),
                msh_15_accept_acknowledgment_type: optional(&pieces, 14, delims),
                msh_16_application_acknowledgment_type: optional(&pieces, 15, delims),
                msh_17_country_code: optional(&pieces, 16, delims),
                msh_18_character_set: optional(&pieces, 17, delims),
                msh_19_principal_language_of_message: optional(&pieces, 18, delims),
            },
        )
    }

    /// The source text of this segment.
    pub fn as_str(&self) -> (r: &'a str)
        ensures
            r == self.source,
    {
        self.source
    }

    /// This header as a plain list of fields, numbered by their place.
    pub fn as_generic(&self) -> (r: Result<GenericSegment<'a>, Hl7ParseError>)
        ensures
            r matches Ok(g) && g.wf() && g.source@ == self.source@ && g.delims
                == self.msh_2_encoding_characters,
    {
        let delims = self.msh_2_encoding_characters;
        GenericSegment::parse(self.source, &delims)
    }
}

} // verus!
