//! A whole message: its delimiters and its segments, and the path query
//! that reads any value in it.
use crate::path::{descend, descend_str, element_index, level_of, nats, parse_levels, parse_tail};
use crate::segments::{identifier_of, msh, segment_select, starts_with_field, Segment};
use crate::separators::{header_separators, is_header, Separators};
use crate::text::{lemma_split_len, pick, slice, split, split_str, str_eq, views};
use crate::Hl7ParseError;
use vstd::prelude::*;

verus! {

/// The text of each segment.
pub open spec fn segment_sources<'a>(segments: Seq<Segment<'a>>) -> Seq<Seq<char>> {
    segments.map_values(|s: Segment<'a>| s.source@)
}

/// The position of the first of `segs[i..]` whose identifier is `name`,
/// or -1 when there is none.
pub open spec fn find_segment(segs: Seq<Seq<char>>, name: Seq<char>, seps: Separators, i: int) -> int
    decreases segs.len() - i,
{
    if i < 0 || i >= segs.len() {
        -1
    } else if identifier_of(segs[i], seps) == name {
        i
    } else {
        find_segment(segs, name, seps, i + 1)
    }
}

/// What the tail elements select in the segment `seg` named `name` of the
/// message `src`. In the header (`MSH`), field 1 is the field delimiter
/// and field 2 the four encoding characters, both read at their places
/// in the message.
pub open spec fn message_select(
    src: Seq<char>,
    seg: Seq<char>,
    name: Seq<char>,
    tail: Seq<Seq<char>>,
    seps: Separators,
) -> Seq<char> {
    if name == msh() && starts_with_field(tail) {
        match parse_levels(tail, 0) {
            Some(idx) => if idx[0] == 1 {
                descend(src.subrange(3, 4), idx.drop_first(), 1, seps)
            } else if idx[0] == 2 {
                descend(src.subrange(4, 8), idx.drop_first(), 1, seps)
            } else {
                segment_select(seg, tail, seps)
            },
            None => Seq::<char>::empty(),
        }
    } else {
        segment_select(seg, tail, seps)
    }
}

/// What the path `path` reads in the message `src` with delimiters
/// `seps`. The path's first element names a segment, and the first
/// segment with that identifier is read; with no further element, the
/// whole segment. The empty text when no segment has that identifier,
/// when the tail is malformed or an index is out of range.
pub open spec fn message_query(src: Seq<char>, seps: Separators, path: Seq<char>) -> Seq<char> {
    let elems = split(path, '.');
    let segs = split(src, seps.segment);
    let i = find_segment(segs, elems[0], seps, 0);
    if i < 0 {
        Seq::<char>::empty()
    } else if elems.len() == 1 {
        segs[i]
    } else {
        message_select(src, segs[i], elems[0], elems.drop_first(), seps)
    }
}

/// A parsed message: its source, its delimiters as its header declares
/// them, and its segments, which split the source on the segment
/// delimiter (a trailing delimiter gives a last, empty segment).
#[derive(Debug, Clone, PartialEq)]
pub struct Message<'a> {
    pub source: &'a str,
    pub segments: Vec<Segment<'a>>,
    pub separators: Separators,
}

impl<'a> Message<'a> {
    /// The source text of this message, copied.
    pub fn to_string(&self) -> (r: String)
        ensures
            r@ == self.source@,
    {
        self.source.to_owned()
    }

    pub open spec fn wf(&self) -> bool {
        &&& is_header(self.source@)
        &&& self.separators == header_separators(self.source@)
        &&& segment_sources(self.segments@) == split(self.source@, self.separators.segment)
        &&& forall|i: int|
            0 <= i < self.segments@.len() ==> (#[trigger] self.segments@[i]).wf()
                && self.segments@[i].delims == self.separators
    }

    /// Parses `source`, which must start with a header that declares the
    /// delimiters: `MshHeaderMalformed` otherwise.
    pub fn parse(source: &'a str) -> (r: Result<Message<'a>, Hl7ParseError>)
        ensures
            match r {
                Ok(m) => is_header(source@) && m.wf() && m.source == source,
                Err(e) => !is_header(source@) && e is MshHeaderMalformed,
            },
    {
        let separators = match Separators::new(source) {
            Ok(s) => s,
            Err(e) => {
                return Err(e);
            },
        };
        let lines = split_str(source, separators.segment);
        let mut segments: Vec<Segment<'a>> = Vec::new();
        let mut i: usize = 0;
        while i < lines.len()
            invariant
                i <= lines@.len(),
                segments@.len() == i,
                forall|j: int|
                    0 <= j < i ==> (#[trigger] segments@[j]).wf() && segments@[j].delims
                        == separators && segments@[j].source@ == lines@[j]@,
            decreases lines@.len() - i,
        {
            match Segment::parse(lines[i], &separators) {
                Ok(s) => segments.push(s),
                Err(e) => {
                    return Err(e);
                },
            }
            i = i + 1;
        }
        let m = Message { source, segments, separators };
        assert(segment_sources(m.segments@) =~= views(lines@));
        Ok(m)
    }

    /// Parses `source`, which must start with a header that declares the
    /// delimiters.
    pub fn new(source: &'a str) -> (r: Message<'a>)
        requires
            is_header(source@),
        ensures
            r.wf(),
            r.source == source,
    {
        match Message::parse(source) {
            Ok(m) => m,
            Err(_) => {
                assert(false);
                Message { source, segments: Vec::new(), separators: Separators::default() }
            },
        }
    }

    /// The segments whose identifier is `name`, in order.
    pub fn segments_by_identifier(&self, name: &str) -> (r: Result<Vec<&Segment<'a>>, Hl7ParseError>)
        requires
            self.wf(),
        ensures
            r matches Ok(v) && v@.map_values(|s: &Segment<'a>| *s) == self.segments@.filter(
                |s: Segment<'a>| identifier_of(s.source@, s.delims) == name@,
            ),
    {
        let ghost pred = |s: Segment<'a>| identifier_of(s.source@, s.delims) == name@;
        let mut found: Vec<&Segment<'a>> = Vec::new();
        let mut i: usize = 0;
        proof {
            reveal(Seq::filter);
            assert(found@.map_values(|s: &Segment<'a>| *s) =~= self.segments@.subrange(0, 0));
        }
        while i < self.segments.len()
            invariant
                self.wf(),
                i <= self.segments@.len(),
                pred == (|s: Segment<'a>| identifier_of(s.source@, s.delims) == name@),
                found@.map_values(|s: &Segment<'a>| *s) == self.segments@.subrange(
                    0,
                    i as int,
                ).filter(pred),
            decreases self.segments@.len() - i,
        {
            let seg = &self.segments[i];
            let id = seg.identifier();
            let ghost before = found@.map_values(|s: &Segment<'a>| *s);
            let ghost prefix = self.segments@.subrange(0, i as int + 1);
            assert(prefix.drop_last() =~= self.segments@.subrange(0, i as int));
            assert(prefix.last() == *seg);
            assert(pred(*seg) == (id@ == name@));
            reveal(Seq::filter);
            assert(prefix.filter(pred) == if pred(prefix.last()) {
                prefix.drop_last().filter(pred).push(prefix.last())
            } else {
                prefix.drop_last().filter(pred)
            });
            if str_eq(id, name) {
                found.push(seg);
                assert(found@.map_values(|s: &Segment<'a>| *s) =~= before.push(*seg));
            }
            i = i + 1;
        }
        assert(self.segments@.subrange(0, self.segments@.len() as int) =~= self.segments@);
        Ok(found)
    }

    /// The text of each field of each of `segments`.
    pub fn segments_to_str_vecs(segments: Vec<&'a Segment<'a>>) -> (r: Result<
        Vec<Vec<&'a str>>,
        Hl7ParseError,
    >)
        ensures
            r matches Ok(v) && v@.len() == segments@.len() && forall|i: int|
                0 <= i < v@.len() ==> views(#[trigger] v@[i]@) == segments@[i].fields@.map_values(
                    |f: crate::fields::Field<'a>| f.source@,
                ),
    {
        let mut out: Vec<Vec<&'a str>> = Vec::new();
        let mut i: usize = 0;
        while i < segments.len()
            invariant
                i <= segments@.len(),
                out@.len() == i,
                forall|j: int|
                    0 <= j < i ==> views(#[trigger] out@[j]@) == segments@[j].fields@.map_values(
                        |f: crate::fields::Field<'a>| f.source@,
                    ),
            decreases segments@.len() - i,
        {
            let seg = segments[i];
            let mut texts: Vec<&'a str> = Vec::new();
            let mut k: usize = 0;
            while k < seg.fields.len()
                invariant
                    k <= seg.fields@.len(),
                    texts@.len() == k,
                    forall|j: int| 0 <= j < k ==> #[trigger] texts@[j]@ == seg.fields@[j].source@,
                decreases seg.fields@.len() - k,
            {
                texts.push(seg.fields[k].source);
                k = k + 1;
            }
            assert(views(texts@) =~= seg.fields@.map_values(
                |f: crate::fields::Field<'a>| f.source@,
            ));
            out.push(texts);
            i = i + 1;
        }
        Ok(out)
    }

    /// The source text of this message.
    pub fn as_str(&self) -> (r: &'a str)
        ensures
            r == self.source,
    {
        self.source
    }

    /// The delimiters of this message.
    pub fn get_separators(&self) -> (r: Separators)
        ensures
            r == self.separators,
    {
        self.separators
    }

    /// The source of the segment at `idx`, counted from 0, or the empty
    /// text.
    pub fn segment(&self, idx: usize) -> (r: &'a str)
        requires
            self.wf(),
        ensures
            r@ == pick(split(self.source@, self.separators.segment), idx as int),
    {
        if idx < self.segments.len() {
            assert(segment_sources(self.segments@)[idx as int] == self.segments@[idx as int].source@);
            self.segments[idx].source
        } else {
            proof {
                reveal_strlit("");
            }
            ""
        }
    }

    /// The position of the first segment whose identifier is `name`.
    fn find(&self, name: &str) -> (r: Option<usize>)
        requires
            self.wf(),
        ensures
            match r {
                Some(i) => i < self.segments@.len() && find_segment(
                    split(self.source@, self.separators.segment),
                    name@,
                    self.separators,
                    0,
                ) == i,
                None => find_segment(
                    split(self.source@, self.separators.segment),
                    name@,
                    self.separators,
                    0,
                ) < 0,
            },
    {
        let ghost segs = split(self.source@, self.separators.segment);
        let mut i: usize = 0;
        while i < self.segments.len()
            invariant
                self.wf(),
                segs == split(self.source@, self.separators.segment),
                i <= self.segments@.len(),
                find_segment(segs, name@, self.separators, 0) == find_segment(
                    segs,
                    name@,
                    self.separators,
                    i as int,
                ),
            decreases self.segments@.len() - i,
        {
            assert(segment_sources(self.segments@)[i as int] == self.segments@[i as int].source@);
            let id = self.segments[i].identifier();
            if str_eq(id, name) {
                return Some(i);
            }
            i = i + 1;
        }
        None
    }

    /// The value that `path` reads, such as `PID.F3` or `OBR.F16.R1.C2`:
    /// a segment identifier, then the elements of a segment tail (see
    /// [`Segment::query`]). The first segment with that identifier is
    /// read; a path of the identifier alone reads the whole segment. In
    /// the header, `MSH.F1` is the field delimiter and `MSH.F2` the four
    /// encoding characters. The empty text when no segment has that
    /// identifier, when the path is malformed or an index is out of range.
    pub fn query(&self, path: &str) -> (r: &'a str)
        requires
            self.wf(),
        ensures
            r@ == message_query(self.source@, self.separators, path@),
    {
        proof {
            reveal_strlit("");
            reveal_strlit("MSH");
            assert("MSH"@ =~= msh());
        }
        let elems = split_str(path, '.');
        proof {
            lemma_split_len(path@, '.');
        }
        let name = elems[0];
        let found = self.find(name);
        let ghost segs = split(self.source@, self.separators.segment);
        let ghost tail = views(elems@).skip(1);
        match found {
            None => "",
            Some(i) => {
                assert(segment_sources(self.segments@)[i as int] == self.segments@[i as int].source@);
                let seg = &self.segments[i];
                if elems.len() == 1 {
                    return seg.source;
                }
                assert(tail =~= views(elems@).drop_first());
                let header = str_eq(name, "MSH");
                if header && elems[1].unicode_len() > 0 && elems[1].get_char(0) == 'F' {
                    match parse_tail(&elems, 1, 0) {
                        None => "",
                        Some(idx) => {
                            assert(idx@.len() >= 1) by {
                                let e = tail[0];
                                let l = level_of(e[0]);
                                let n = element_index(e).unwrap();
                                let rest = parse_levels(tail.drop_first(), l + 1).unwrap();
                                assert(nats(idx@) == Seq::new((l - 0) as nat, |_i: int| 1nat)
                                    + seq![n] + rest);
                                assert(nats(idx@).len() == idx@.len());
                            }
                            assert(nats(idx@).skip(1) =~= nats(idx@).drop_first());
                            if idx[0] == 1 {
                                let fv = slice(self.source, 3, 4);
                                descend_str(fv, &idx, 1, 1, &self.separators)
                            } else if idx[0] == 2 {
                                let fv = slice(self.source, 4, 8);
                                descend_str(fv, &idx, 1, 1, &self.separators)
                            } else {
                                seg.select_elements(&elems, 1)
                            }
                        },
                    }
                } else {
                    seg.select_elements(&elems, 1)
                }
            },
        }
    }
}

} // verus!
