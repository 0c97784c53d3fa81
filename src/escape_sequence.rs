//! Decoding of HL7 escape sequences under a message's own delimiters.
//!
//! An escape sequence is a payload between two escape characters. The
//! payloads `E`, `F`, `R`, `S` and `T` stand for the escape, field,
//! repeat, component and subcomponent characters. The highlighting
//! payloads `H` and `N`, custom payloads starting with `Z`, and any other
//! payload are kept as they stand, both escape characters included. An
//! escape character with no second one after it is kept too.
use crate::separators::Separators;
use crate::text::{find_char, push_char, slice};
use vstd::prelude::*;

verus! {

/// The decoder's state after some input: the text written so far, and
/// the payload read since an escape character that is still open.
pub type DecodeState = (Seq<char>, Option<Seq<char>>);

/// What the payload `p` of an escape sequence decodes to.
pub open spec fn substitution(p: Seq<char>, seps: Separators) -> Seq<char> {
    let e = seps.escape_char;
    if p == seq!['E'] {
        seq![e]
    } else if p == seq!['F'] {
        seq![seps.field]
    } else if p == seq!['R'] {
        seq![seps.repeat]
    } else if p == seq!['S'] {
        seq![seps.component]
    } else if p == seq!['T'] {
        seq![seps.subcomponent]
    } else {
        seq![e] + p + seq![e]
    }
}

/// One step of the decoder on the character `c`.
pub open spec fn step(st: DecodeState, c: char, seps: Separators) -> DecodeState {
    match st.1 {
        None => if c == seps.escape_char {
            (st.0, Some(Seq::<char>::empty()))
        } else {
            (st.0.push(c), None)
        },
        Some(p) => if c == seps.escape_char {
            (st.0 + substitution(p, seps), None)
        } else {
            (st.0, Some(p.push(c)))
        },
    }
}

/// The decoder's state after reading `s` from the state `st`.
pub open spec fn run(st: DecodeState, s: Seq<char>, seps: Separators) -> DecodeState
    decreases s.len(),
{
    if s.len() == 0 {
        st
    } else {
        step(run(st, s.drop_last(), seps), s.last(), seps)
    }
}

/// The output for a final state: an escape that is still open is written
/// out as it stood.
pub open spec fn finish(st: DecodeState, seps: Separators) -> Seq<char> {
    match st.1 {
        None => st.0,
        Some(p) => st.0 + seq![seps.escape_char] + p,
    }
}

/// The decoded text of `s`.
pub open spec fn decode_spec(s: Seq<char>, seps: Separators) -> Seq<char> {
    finish(run((Seq::<char>::empty(), None), s, seps), seps)
}

/// A decoded value: the input itself when it holds no escape character,
/// or a new string.
#[derive(Debug, Clone, PartialEq)]
pub enum Decoded<'a> {
    Borrowed(&'a str),
    Owned(String),
}

impl<'a> View for Decoded<'a> {
    type V = Seq<char>;

    open spec fn view(&self) -> Seq<char> {
        match self {
            Decoded::Borrowed(s) => s@,
            Decoded::Owned(s) => s@,
        }
    }
}

impl<'a> Decoded<'a> {
    /// The decoded text.
    pub fn as_str(&self) -> (r: &str)
        ensures
            r@ == self@,
    {
        match self {
            Decoded::Borrowed(s) => s,
            Decoded::Owned(s) => s.as_str(),
        }
    }
}

/// Decodes escape sequences for one set of delimiters.
#[derive(Debug, Clone, Copy, PartialEq, Eq, Structural)]
pub struct EscapeSequence {
    pub delims: Separators,
}

impl EscapeSequence {
    /// A decoder for the delimiters `delims`.
    pub fn new(delims: Separators) -> (r: EscapeSequence)
        ensures
            r.delims == delims,
    {
        EscapeSequence { delims }
    }

    /// Writes what the payload `p` decodes to.
    fn write_substitution(&self, out: &mut String, p: &str)
        ensures
            final(out)@ == old(out)@ + substitution(p@, self.delims),
    {
        let e = self.delims.escape_char;
        if p.unicode_len() == 1 {
            let c = p.get_char(0);
            let ghost one = seq![c];
            assert(p@ =~= one);
            if c == 'E' {
                push_char(out, e);
                return;
            } else if c == 'F' {
                push_char(out, self.delims.field);
                return;
            } else if c == 'R' {
                push_char(out, self.delims.repeat);
                return;
            } else if c == 'S' {
                push_char(out, self.delims.component);
                return;
            } else if c == 'T' {
                push_char(out, self.delims.subcomponent);
                return;
            }
        }
        let ghost before = out@;
        push_char(out, e);
        out.append(p);
        push_char(out, e);
        assert(out@ =~= before + (seq![e] + p@ + seq![e]));
    }

    /// Decodes the escape sequences of `input`. When `input` holds no
    /// escape character it comes back as it is, with nothing allocated.
    pub fn decode<'a>(&self, input: &'a str) -> (r: Decoded<'a>)
        ensures
            r@ == decode_spec(input@, self.delims),
            !input@.contains(self.delims.escape_char) ==> r == Decoded::Borrowed(input),
    {
        let e = self.delims.escape_char;
        let n = input.unicode_len();
        let first = match find_char(input, 0, e) {
            None => {
                proof {
                    lemma_decode_plain(input@, self.delims);
                }
                return Decoded::Borrowed(input);
            },
            Some(k) => k,
        };
        let head = slice(input, 0, first);
        proof {
            assert(!head@.contains(e)) by {
                if head@.contains(e) {
                    let j = choose|j: int| 0 <= j < head@.len() && head@[j] == e;
                    assert(input@[j] == e);
                }
            }
            lemma_run_plain(Seq::<char>::empty(), head@, self.delims);
            assert(Seq::<char>::empty() + head@ =~= head@);
        }
        let mut out = head.to_owned();
        let mut pending = false;
        let mut start: usize = first;
        let mut i: usize = first;
        while i < n
            invariant
                n == input@.len(),
                e == self.delims.escape_char,
                i <= n,
                start <= i,
                run((Seq::<char>::empty(), None), input@.subrange(0, i as int), self.delims) == (
                out@,
                if pending {
                    Some(input@.subrange(start as int, i as int))
                } else {
                    None
                }),
            decreases n - i,
        {
            let c = input.get_char(i);
            let ghost prefix = input@.subrange(0, i as int + 1);
            assert(prefix.drop_last() =~= input@.subrange(0, i as int));
            assert(prefix.last() == c);
            assert(run((Seq::<char>::empty(), None), prefix, self.delims) == step(
                run((Seq::<char>::empty(), None), input@.subrange(0, i as int), self.delims),
                c,
                self.delims,
            ));
            let ghost init: DecodeState = (Seq::<char>::empty(), None);
            if !pending {
                if c == e {
                    pending = true;
                    start = i + 1;
                    assert(input@.subrange(start as int, i as int + 1) =~= Seq::<char>::empty());
                    assert(run(init, prefix, self.delims) == (out@, Some(
                        Seq::<char>::empty(),
                    )));
                } else {
                    let ghost before = out@;
                    push_char(&mut out, c);
                    assert(run(init, prefix, self.delims) == (before.push(c), None::<Seq<char>>));
                }
            } else {
                if c == e {
                    let p = slice(input, start, i);
                    let ghost before = out@;
                    self.write_substitution(&mut out, p);
                    pending = false;
                    assert(run(init, prefix, self.delims) == (before + substitution(
                        p@,
                        self.delims,
                    ), None::<Seq<char>>));
                } else {
                    assert(input@.subrange(start as int, i as int + 1) =~= input@.subrange(
                        start as int,
                        i as int,
                    ).push(c));
                }
            }
            i = i + 1;
        }
        assert(input@.subrange(0, n as int) =~= input@);
        if pending {
            push_char(&mut out, e);
            let rest = slice(input, start, n);
            out.append(rest);
        }
        Decoded::Owned(out)
    }
}

/// Reading text without the escape character, outside an escape sequence,
/// writes it out.
pub proof fn lemma_run_plain(out: Seq<char>, a: Seq<char>, seps: Separators)
    requires
        !a.contains(seps.escape_char),
    ensures
        run((out, None), a, seps) == (out + a, None::<Seq<char>>),
    decreases a.len(),
{
    if a.len() == 0 {
        assert(out + a =~= out);
    } else {
        assert(!a.drop_last().contains(seps.escape_char)) by {
            if a.drop_last().contains(seps.escape_char) {
                let j = choose|j: int|
                    0 <= j < a.drop_last().len() && a.drop_last()[j] == seps.escape_char;
                assert(a[j] == seps.escape_char);
            }
        }
        assert(a.last() != seps.escape_char) by {
            assert(a[a.len() - 1] == a.last());
        }
        lemma_run_plain(out, a.drop_last(), seps);
        assert((out + a.drop_last()).push(a.last()) =~= out + a);
    }
}

/// Reading text without the escape character inside an escape sequence
/// adds it to the payload.
pub proof fn lemma_run_pending(out: Seq<char>, q: Seq<char>, p: Seq<char>, seps: Separators)
    requires
        !p.contains(seps.escape_char),
    ensures
        run((out, Some(q)), p, seps) == (out, Some(q + p)),
    decreases p.len(),
{
    if p.len() == 0 {
        assert(q + p =~= q);
    } else {
        assert(!p.drop_last().contains(seps.escape_char)) by {
            if p.drop_last().contains(seps.escape_char) {
                let j = choose|j: int|
                    0 <= j < p.drop_last().len() && p.drop_last()[j] == seps.escape_char;
                assert(p[j] == seps.escape_char);
            }
        }
        assert(p.last() != seps.escape_char) by {
            assert(p[p.len() - 1] == p.last());
        }
        lemma_run_pending(out, q, p.drop_last(), seps);
        assert((q + p.drop_last()).push(p.last()) =~= q + p);
    }
}

/// Reading `x` then `y` is reading `x + y`.
pub proof fn lemma_run_concat(st: DecodeState, x: Seq<char>, y: Seq<char>, seps: Separators)
    ensures
        run(st, x + y, seps) == run(run(st, x, seps), y, seps),
    decreases y.len(),
{
    if y.len() == 0 {
        assert(x + y =~= x);
    } else {
        lemma_run_concat(st, x, y.drop_last(), seps);
        assert((x + y).drop_last() =~= x + y.drop_last());
        assert((x + y).last() == y.last());
    }
}

/// What was written before does not change what is written after.
pub proof fn lemma_run_prefix(out: Seq<char>, pending: Option<Seq<char>>, s: Seq<char>, seps: Separators)
    ensures
        run((out, pending), s, seps) == (
            out + run((Seq::<char>::empty(), pending), s, seps).0,
            run((Seq::<char>::empty(), pending), s, seps).1,
        ),
    decreases s.len(),
{
    if s.len() == 0 {
        assert(out + Seq::<char>::empty() =~= out);
    } else {
        lemma_run_prefix(out, pending, s.drop_last(), seps);
        let inner = run((Seq::<char>::empty(), pending), s.drop_last(), seps);
        let c = s.last();
        match inner.1 {
            None => {
                assert((out + inner.0).push(c) =~= out + inner.0.push(c));
            },
            Some(p) => {
                assert((out + inner.0) + substitution(p, seps) =~= out + (inner.0 + substitution(
                    p,
                    seps,
                )));
            },
        }
    }
}

/// A value without the escape character decodes to itself.
pub proof fn lemma_decode_plain(s: Seq<char>, seps: Separators)
    requires
        !s.contains(seps.escape_char),
    ensures
        decode_spec(s, seps) == s,
{
    lemma_run_plain(Seq::<char>::empty(), s, seps);
    assert(Seq::<char>::empty() + s =~= s);
}

/// A value with a single escape character, which therefore opens no
/// sequence, decodes to itself.
pub proof fn lemma_decode_single_escape(a: Seq<char>, b: Seq<char>, seps: Separators)
    requires
        !a.contains(seps.escape_char),
        !b.contains(seps.escape_char),
    ensures
        decode_spec(a + seq![seps.escape_char] + b, seps) == a + seq![seps.escape_char] + b,
{
    let e = seps.escape_char;
    let init: DecodeState = (Seq::<char>::empty(), None);
    lemma_run_concat(init, a + seq![e], b, seps);
    lemma_run_concat(init, a, seq![e], seps);
    lemma_run_plain(Seq::<char>::empty(), a, seps);
    assert(Seq::<char>::empty() + a =~= a);
    assert(seq![e].drop_last() =~= Seq::<char>::empty());
    assert(seq![e].last() == e);
    assert(run((a, None), Seq::<char>::empty(), seps) == (a, None::<Seq<char>>));
    assert(run((a, None), seq![e], seps) == (a, Some(Seq::<char>::empty())));
    lemma_run_pending(a, Seq::<char>::empty(), b, seps);
    assert(Seq::<char>::empty() + b =~= b);
}

/// An escape sequence with the payload `p` decodes to the substitution
/// of `p`, and decoding goes on after it: a value `a`, the sequence,
/// then `b` decodes to `a`, the substitution, then `b` decoded.
pub proof fn lemma_decode_sequence(a: Seq<char>, p: Seq<char>, b: Seq<char>, seps: Separators)
    requires
        !a.contains(seps.escape_char),
        !p.contains(seps.escape_char),
    ensures
        decode_spec(a + seq![seps.escape_char] + p + seq![seps.escape_char] + b, seps) == a
            + substitution(p, seps) + decode_spec(b, seps),
{
    let e = seps.escape_char;
    let init: DecodeState = (Seq::<char>::empty(), None);
    let x1 = a + seq![e];
    let x2 = x1 + p;
    let x3 = x2 + seq![e];
    assert(a + seq![e] + p + seq![e] + b == x3 + b);
    lemma_run_concat(init, x3, b, seps);
    lemma_run_concat(init, x2, seq![e], seps);
    lemma_run_concat(init, x1, p, seps);
    lemma_run_concat(init, a, seq![e], seps);
    lemma_run_plain(Seq::<char>::empty(), a, seps);
    assert(Seq::<char>::empty() + a =~= a);
    assert(seq![e].drop_last() =~= Seq::<char>::empty());
    assert(seq![e].last() == e);
    assert(run((a, None), Seq::<char>::empty(), seps) == (a, None::<Seq<char>>));
    assert(run((a, None), seq![e], seps) == (a, Some(Seq::<char>::empty())));
    lemma_run_pending(a, Seq::<char>::empty(), p, seps);
    assert(Seq::<char>::empty() + p =~= p);
    assert(run((a, Some(p)), Seq::<char>::empty(), seps) == (a, Some(p)));
    assert(run((a, Some(p)), seq![e], seps) == (a + substitution(p, seps), None::<Seq<char>>));
    lemma_run_prefix(a + substitution(p, seps), None, b, seps);
    let tail = run(init, b, seps);
    match tail.1 {
        None => {},
        Some(q) => {
            assert(a + substitution(p, seps) + tail.0 + seq![e] + q =~= a + substitution(p, seps)
                + (tail.0 + seq![e] + q));
        },
    }
}

/// Highlighting sequences (`H`, `N`) and custom sequences (payload
/// starting with `Z`) are kept as they stand.
pub proof fn lemma_decode_keeps_markers(a: Seq<char>, p: Seq<char>, b: Seq<char>, seps: Separators)
    requires
        !a.contains(seps.escape_char),
        !p.contains(seps.escape_char),
        p == seq!['H'] || p == seq!['N'] || (p.len() > 0 && p[0] == 'Z'),
    ensures
        decode_spec(a + seq![seps.escape_char] + p + seq![seps.escape_char] + b, seps) == a
            + seq![seps.escape_char] + p + seq![seps.escape_char] + decode_spec(b, seps),
{
    lemma_decode_sequence(a, p, b, seps);
    if p.len() > 0 && p[0] == 'Z' {
        assert(p != seq!['E'] && p != seq!['F'] && p != seq!['R'] && p != seq!['S'] && p != seq![
            'T',
        ]) by {
            assert(seq!['E'][0] == 'E');
            assert(seq!['F'][0] == 'F');
            assert(seq!['R'][0] == 'R');
            assert(seq!['S'][0] == 'S');
            assert(seq!['T'][0] == 'T');
        }
    } else {
        assert(p != seq!['E'] && p != seq!['F'] && p != seq!['R'] && p != seq!['S'] && p != seq![
            'T',
        ]) by {
            assert(seq!['H'][0] == 'H');
            assert(seq!['N'][0] == 'N');
            assert(seq!['E'][0] == 'E');
            assert(seq!['F'][0] == 'F');
            assert(seq!['R'][0] == 'R');
            assert(seq!['S'][0] == 'S');
            assert(seq!['T'][0] == 'T');
        }
    }
    assert(a + (seq![seps.escape_char] + p + seq![seps.escape_char]) =~= a + seq![seps.escape_char]
        + p + seq![seps.escape_char]);
}

} // verus!
