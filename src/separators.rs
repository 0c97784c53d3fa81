//! The delimiter characters of a message.
use crate::text::push_char;
use crate::Hl7ParseError;
use vstd::prelude::*;

verus! {

/// The six delimiter characters of one message. HL7 lets each message
/// declare its own, right after the `MSH` that starts it; most use the
/// defaults of [`Separators::default`].
#[derive(Debug, Clone, Copy, PartialEq, Eq, Structural)]
pub struct Separators {
    /// Ends a segment: always a carriage return.
    pub segment: char,
    /// Between fields, by default `|`.
    pub field: char,
    /// Between the repeats of a field, by default `~`.
    pub repeat: char,
    /// Between components, by default `^`.
    pub component: char,
    /// Between subcomponents, by default `&`.
    pub subcomponent: char,
    /// Around an escape sequence, by default `\`.
    pub escape_char: char,
}

/// The recommended delimiters.
pub open spec fn default_separators() -> Separators {
    Separators {
        segment: '\r',
        field: '|',
        repeat: '~',
        component: '^',
        subcomponent: '&',
        escape_char: '\\',
    }
}

/// Whether `s` starts with `MSH` and is long enough to declare all
/// delimiters.
pub open spec fn is_header(s: Seq<char>) -> bool {
    s.len() >= 8 && s[0] == 'M' && s[1] == 'S' && s[2] == 'H'
}

/// The delimiters that a header declares at its positions 3 to 7.
pub open spec fn header_separators(s: Seq<char>) -> Separators {
    Separators {
        segment: '\r',
        field: s[3],
        component: s[4],
        repeat: s[5],
        escape_char: s[6],
        subcomponent: s[7],
    }
}

impl Separators {
    /// The recommended delimiters: carriage return, `|`, `~`, `^`, `&`
    /// and `\`.
    pub fn default() -> (r: Separators)
        ensures
            r == default_separators(),
    {
        Separators {
            segment: '\r',
            field: '|',
            repeat: '~',
            component: '^',
            subcomponent: '&',
            escape_char: '\\',
        }
    }

    /// The delimiters that a message declares in its header, which must
    /// start with `MSH` followed by the field, component, repeat, escape
    /// and subcomponent characters, in that order.
    pub fn new(message: &str) -> (r: Result<Separators, Hl7ParseError>)
        ensures
            match r {
                Ok(seps) => is_header(message@) && seps == header_separators(message@),
                Err(e) => !is_header(message@) && e is MshHeaderMalformed,
            },
    {
        let n = message.unicode_len();
        if n < 8 || message.get_char(0) != 'M' || message.get_char(1) != 'S' || message.get_char(2)
            != 'H' {
            return Err(
                Hl7ParseError::MshHeaderMalformed(
                    "message does not start with 'MSH' and the delimiters".to_string(),
                ),
            );
        }
        Ok(
            Separators {
                segment: '\r',
                field: message.get_char(3),
                component: message.get_char(4),
                repeat: message.get_char(5),
                escape_char: message.get_char(6),
                subcomponent: message.get_char(7),
            },
        )
    }

    /// The encoding characters as the header writes them: component,
    /// repeat, escape and subcomponent.
    pub fn to_string(&self) -> (r: String)
        ensures
            r@ == seq![self.component, self.repeat, self.escape_char, self.subcomponent],
    {
        let mut s = String::new();
        push_char(&mut s, self.component);
        push_char(&mut s, self.repeat);
        push_char(&mut s, self.escape_char);
        push_char(&mut s, self.subcomponent);
        assert(s@ =~= seq![self.component, self.repeat, self.escape_char, self.subcomponent]);
        s
    }
}

impl std::str::FromStr for Separators {
    type Err = Hl7ParseError;

    /// Reads the delimiters from the start of a message, as
    /// [`Separators::new`] does.
    fn from_str(input: &str) -> Result<Separators, Hl7ParseError> {
        Separators::new(input)
    }
}

} // verus!
