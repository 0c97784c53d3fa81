//! Properties that hold of every parsed message and of the path query.
use crate::fields::{lemma_field_concatenation, Field};
use crate::message::{find_segment, message_query, segment_sources, Message};
use crate::path::{delimiter_at, descend, digits_value, element_index, level_of, parse_levels};
use crate::segments::{
    field_sources, field_value, identifier_of, lemma_segment_concatenation, msh,
};
use crate::separators::{default_separators, Separators};
use crate::text::{
    join, lemma_join_split, lemma_split_concat, lemma_split_first_prefix, lemma_split_free, select, split, views,
};
use vstd::prelude::*;

verus! {

/// Joining the components of `f` gives its source, and joining the
/// subcomponents of each component gives that component.
pub open spec fn field_joins(f: Field) -> bool {
    &&& join(views(f.components@), f.delims.component) == f.source@
    &&& forall|k: int|
        0 <= k < f.components@.len() ==> join(
            views(#[trigger] f.subcomponents@[k]@),
            f.delims.subcomponent,
        ) == f.components@[k]@
}

/// The delimiters of a parsed message are the characters at positions 3
/// to 7 of its header, in the order field, component, repeat, escape,
/// subcomponent; the segment delimiter is a carriage return.
pub proof fn lemma_separators_round_trip(m: &Message)
    requires
        m.wf(),
    ensures
        m.separators.segment == '\r',
        m.separators.field == m.source@[3],
        m.separators.component == m.source@[4],
        m.separators.repeat == m.source@[5],
        m.separators.escape_char == m.source@[6],
        m.separators.subcomponent == m.source@[7],
{
}

/// A parsed message joins back from its segments, every segment from its
/// fields, every field from its components, and every component from its
/// subcomponents.
pub proof fn lemma_message_fields_concatenate(m: &Message)
    requires
        m.wf(),
    ensures
        join(segment_sources(m.segments@), m.separators.segment) == m.source@,
        forall|i: int|
            0 <= i < m.segments@.len() ==> join(
                field_sources((#[trigger] m.segments@[i]).fields@),
                m.separators.field,
            ) == m.segments@[i].source@,
        forall|i: int, j: int|
            0 <= i < m.segments@.len() && 0 <= j < m.segments@[i].fields@.len() ==> field_joins(
                #[trigger] m.segments@[i].fields@[j],
            ),
{
    lemma_join_split(m.source@, m.separators.segment);
    assert forall|i: int| 0 <= i < m.segments@.len() implies join(
        field_sources((#[trigger] m.segments@[i]).fields@),
        m.separators.field,
    ) == m.segments@[i].source@ by {
        lemma_segment_concatenation(&m.segments@[i]);
    }
    assert forall|i: int, j: int|
        0 <= i < m.segments@.len() && 0 <= j < m.segments@[i].fields@.len() implies field_joins(
        #[trigger] m.segments@[i].fields@[j],
    ) by {
        let s = m.segments@[i];
        assert(s.wf());
        lemma_field_concatenation(&s.fields@[j]);
    }
}

/// Two delimiters in a row leave an empty piece between them: `a`, two
/// delimiters, then `b` splits into exactly `a`, the empty text and `b`.
pub proof fn lemma_empty_preserved(a: Seq<char>, b: Seq<char>, d: char)
    requires
        !a.contains(d),
        !b.contains(d),
    ensures
        split(a + seq![d, d] + b, d) == seq![a, Seq::<char>::empty(), b],
{
    let e = Seq::<char>::empty();
    let rest = e + seq![d] + b;
    assert(a + seq![d, d] + b =~= a + seq![d] + rest);
    lemma_split_concat(a, rest, d);
    lemma_split_concat(e, b, d);
    lemma_split_free(a, d);
    lemma_split_free(b, d);
    assert(!e.contains(d));
    lemma_split_free(e, d);
    assert(seq![a] + (seq![e] + seq![b]) =~= seq![a, e, b]);
}

proof fn lemma_parse_field_element(f: Seq<char>)
    requires
        f.len() > 0,
        f[0] == 'F',
        element_index(f) is Some,
    ensures
        parse_levels(seq![f], 0) == Some(seq![element_index(f).unwrap()]),
{
    let n = element_index(f).unwrap();
    assert(seq![f].drop_first() =~= Seq::<Seq<char>>::empty());
    assert(seq![f][0] == f);
    assert(level_of(f[0]) == 0);
    assert(parse_levels(Seq::<Seq<char>>::empty(), 1) == Some(Seq::<nat>::empty()));
    assert(Seq::new(0, |_i: int| 1nat) + seq![n] + Seq::<nat>::empty() =~= seq![n]);
}

proof fn lemma_one_is_index(c: char)
    requires
        level_of(c) >= 1,
    ensures
        element_index(seq![c, '1']) == Some(1nat),
{
    let e = seq![c, '1'];
    assert(e.drop_first() =~= seq!['1']);
    assert(seq!['1'].drop_last() =~= Seq::<char>::empty());
    lemma_digit_values();
}

proof fn lemma_digit_values()
    ensures
        digits_value(seq!['1']) == 1,
        digits_value(seq!['2']) == 2,
{
    assert(seq!['1'].drop_last() =~= Seq::<char>::empty());
    assert(seq!['2'].drop_last() =~= Seq::<char>::empty());
    assert(digits_value(Seq::<char>::empty()) == 0);
    assert(('1' as nat) - ('0' as nat) == 1);
    assert(('2' as nat) - ('0' as nat) == 2);
}

/// The header fields of a message with the recommended delimiters:
/// `MSH.F1` reads `|` and `MSH.F2` reads `^~\&`.
pub proof fn lemma_header_special_case(m: &Message)
    requires
        m.wf(),
        m.separators == default_separators(),
    ensures
        message_query(m.source@, m.separators, seq!['M', 'S', 'H', '.', 'F', '1']) == seq!['|'],
        message_query(m.source@, m.separators, seq!['M', 'S', 'H', '.', 'F', '2']) == seq![
            '^',
            '~',
            '\\',
            '&',
        ],
{
    let src = m.source@;
    let seps = m.separators;
    let segs = split(src, seps.segment);
    assert(!src.subrange(0, 8).contains('\r')) by {
        if src.subrange(0, 8).contains('\r') {
            let j = choose|j: int| 0 <= j < 8 && src.subrange(0, 8)[j] == '\r';
            assert(src[j] == '\r');
        }
    }
    lemma_split_first_prefix(src, '\r', 8);
    let seg0 = segs[0];
    assert(seg0.subrange(0, 8) == src.subrange(0, 8));
    assert(seg0[0] == 'M' && seg0[1] == 'S' && seg0[2] == 'H' && seg0[3] == '|') by {
        assert(seg0[0] == seg0.subrange(0, 8)[0]);
        assert(seg0[1] == seg0.subrange(0, 8)[1]);
        assert(seg0[2] == seg0.subrange(0, 8)[2]);
        assert(seg0[3] == seg0.subrange(0, 8)[3]);
    }
    assert(seg0 =~= msh() + seq!['|'] + seg0.subrange(4, seg0.len() as int));
    lemma_split_concat(msh(), seg0.subrange(4, seg0.len() as int), '|');
    assert(!msh().contains('|')) by {
        if msh().contains('|') {
            let j = choose|j: int| 0 <= j < 3 && msh()[j] == '|';
        }
    }
    lemma_split_free(msh(), '|');
    assert(identifier_of(seg0, seps) == msh());
    crate::text::lemma_split_len(src, '\r');
    assert(find_segment(segs, msh(), seps, 0) == 0);
    let f1 = seq!['F', '1'];
    let f2 = seq!['F', '2'];
    assert(!msh().contains('.')) by {
        if msh().contains('.') {
            let j = choose|j: int| 0 <= j < 3 && msh()[j] == '.';
        }
    }
    assert(!f1.contains('.')) by {
        if f1.contains('.') {
            let j = choose|j: int| 0 <= j < 2 && f1[j] == '.';
        }
    }
    assert(!f2.contains('.')) by {
        if f2.contains('.') {
            let j = choose|j: int| 0 <= j < 2 && f2[j] == '.';
        }
    }
    assert(seq!['M', 'S', 'H', '.', 'F', '1'] =~= msh() + seq!['.'] + f1);
    assert(seq!['M', 'S', 'H', '.', 'F', '2'] =~= msh() + seq!['.'] + f2);
    lemma_split_concat(msh(), f1, '.');
    lemma_split_concat(msh(), f2, '.');
    lemma_split_free(msh(), '.');
    lemma_split_free(f1, '.');
    lemma_split_free(f2, '.');
    assert(split(msh() + seq!['.'] + f1, '.') =~= seq![msh(), f1]);
    assert(split(msh() + seq!['.'] + f2, '.') =~= seq![msh(), f2]);
    assert(seq![msh(), f1].drop_first() =~= seq![f1]);
    assert(seq![msh(), f2].drop_first() =~= seq![f2]);
    assert(f1.drop_first() =~= seq!['1']);
    assert(f2.drop_first() =~= seq!['2']);
    assert(seq!['1'].drop_last() =~= Seq::<char>::empty());
    assert(seq!['2'].drop_last() =~= Seq::<char>::empty());
    lemma_digit_values();
    assert(element_index(f1) == Some(1nat));
    assert(element_index(f2) == Some(2nat));
    lemma_parse_field_element(f1);
    lemma_parse_field_element(f2);
    assert(src.subrange(3, 4) =~= seq!['|']);
    assert(src.subrange(4, 8) =~= seq!['^', '~', '\\', '&']);
}

proof fn lemma_not_dot(c: char, x: char)
    requires
        c != '.',
        x != '.',
    ensures
        !seq![c, x].contains('.'),
{
    if seq![c, x].contains('.') {
        let j = choose|j: int| 0 <= j < 2 && seq![c, x][j] == '.';
    }
}

proof fn lemma_descend_default(x: Seq<char>, lvl: int, seps: Separators)
    requires
        !x.contains(delimiter_at(seps, lvl)),
    ensures
        descend(x, Seq::<nat>::empty(), lvl, seps) == x,
        descend(x, seq![1nat], lvl, seps) == x,
{
    lemma_split_free(x, delimiter_at(seps, lvl));
    assert(seq![1nat].drop_first() =~= Seq::<nat>::empty());
    assert(select(seq![x], 1) == x);
    assert(descend(x, seq![1nat].drop_first(), lvl + 1, seps) == x);
}

/// The elements of a path made of the segment name `name` and the tail
/// elements `elems`, none of which holds a `.`.
proof fn lemma_split_path(name: Seq<char>, elems: Seq<Seq<char>>)
    requires
        !name.contains('.'),
        forall|i: int| 0 <= i < elems.len() ==> !(#[trigger] elems[i]).contains('.'),
    ensures
        split(dotted(name, elems), '.') == seq![name] + elems,
    decreases elems.len(),
{
    if elems.len() == 0 {
        lemma_split_free(name, '.');
        assert(seq![name] + elems =~= seq![name]);
    } else {
        let init = elems.drop_last();
        lemma_split_path(name, init);
        lemma_split_concat(dotted(name, init), elems.last(), '.');
        lemma_split_free(elems.last(), '.');
        assert(seq![name] + init + seq![elems.last()] =~= seq![name] + elems);
    }
}

/// A path: a segment name, then each element after a `.`.
pub open spec fn dotted(name: Seq<char>, elems: Seq<Seq<char>>) -> Seq<char>
    decreases elems.len(),
{
    if elems.len() == 0 {
        name
    } else {
        dotted(name, elems.drop_last()) + seq!['.'] + elems.last()
    }
}

proof fn lemma_parse_levels_one(x: Seq<char>, lvl: int)
    requires
        x.len() == 2,
        x[1] == '1',
        level_of(x[0]) == lvl,
        lvl >= 1,
    ensures
        parse_levels(seq![x], lvl) == Some(seq![1nat]),
{
    lemma_one_is_index(x[0]);
    assert(x =~= seq![x[0], '1']);
    assert(seq![x].drop_first() =~= Seq::<Seq<char>>::empty());
    assert(seq![x][0] == x);
    assert(parse_levels(Seq::<Seq<char>>::empty(), lvl + 1) == Some(Seq::<nat>::empty()));
    assert(Seq::new(0, |_i: int| 1nat) + seq![1nat] + Seq::<nat>::empty() =~= seq![1nat]);
}

/// A path that reads a whole field, such as `PID.F3`, reads the same as
/// that path followed by `.R1` whenever the field holds no repeat
/// delimiter.
pub proof fn lemma_default_repeat(
    src: Seq<char>,
    seps: Separators,
    name: Seq<char>,
    f: Seq<char>,
)
    requires
        !name.contains('.'),
        !f.contains('.'),
        f.len() > 0,
        f[0] == 'F',
        element_index(f) is Some,
        !message_query(src, seps, dotted(name, seq![f])).contains(seps.repeat),
    ensures
        message_query(src, seps, dotted(name, seq![f, seq!['R', '1']])) == message_query(
            src,
            seps,
            dotted(name, seq![f]),
        ),
{
    let r1 = seq!['R', '1'];
    let t1 = seq![f];
    let t2 = seq![f, r1];
    lemma_not_dot('R', '1');
    lemma_split_path(name, t1);
    lemma_split_path(name, t2);
    assert((seq![name] + t1).drop_first() =~= t1);
    assert((seq![name] + t2).drop_first() =~= t2);
    assert((seq![name] + t1)[0] == name);
    assert((seq![name] + t2)[0] == name);
    lemma_parse_field_element(f);
    let n = element_index(f).unwrap();
    assert(t2.drop_first() =~= seq![r1]);
    assert(t2[0] == f);
    lemma_parse_levels_one(r1, 1);
    assert(parse_levels(t2, 0) == Some(seq![n, 1nat])) by {
        assert(Seq::new(0, |_i: int| 1nat) + seq![n] + seq![1nat] =~= seq![n, 1nat]);
    }
    assert(seq![n, 1nat].drop_first() =~= seq![1nat]);
    assert(seq![n].drop_first() =~= Seq::<nat>::empty());
    let segs = split(src, seps.segment);
    let i = find_segment(segs, name, seps, 0);
    if i >= 0 {
        let v = message_query(src, seps, dotted(name, t1));
        lemma_descend_default(v, 1, seps);
        let x = if name == msh() && n == 1 {
            src.subrange(3, 4)
        } else if name == msh() && n == 2 {
            src.subrange(4, 8)
        } else {
            field_value(segs[i], n as int, seps)
        };
        assert(descend(x, Seq::<nat>::empty(), 1, seps) == x);
        assert(v == x);
    }
}

/// A path that reads a whole repeat, such as `PID.F3.R2`, reads the same
/// as that path followed by `.C1` whenever the repeat holds no component
/// delimiter.
pub proof fn lemma_default_component(
    src: Seq<char>,
    seps: Separators,
    name: Seq<char>,
    f: Seq<char>,
    r: Seq<char>,
)
    requires
        !name.contains('.'),
        !f.contains('.'),
        !r.contains('.'),
        f.len() > 0,
        f[0] == 'F',
        element_index(f) is Some,
        r.len() > 0,
        r[0] == 'R',
        element_index(r) is Some,
        !message_query(src, seps, dotted(name, seq![f, r])).contains(seps.component),
    ensures
        message_query(src, seps, dotted(name, seq![f, r, seq!['C', '1']])) == message_query(
            src,
            seps,
            dotted(name, seq![f, r]),
        ),
{
    let c1 = seq!['C', '1'];
    let t2 = seq![f, r];
    let t3 = seq![f, r, c1];
    lemma_not_dot('C', '1');
    lemma_split_path(name, t2);
    lemma_split_path(name, t3);
    assert((seq![name] + t2).drop_first() =~= t2);
    assert((seq![name] + t3).drop_first() =~= t3);
    assert((seq![name] + t2)[0] == name);
    assert((seq![name] + t3)[0] == name);
    let n = element_index(f).unwrap();
    let m = element_index(r).unwrap();
    lemma_parse_levels_one(c1, 2);
    assert(seq![r].drop_first() =~= Seq::<Seq<char>>::empty());
    assert(seq![r][0] == r);
    assert(level_of(r[0]) == 1);
    assert(parse_levels(Seq::<Seq<char>>::empty(), 2) == Some(Seq::<nat>::empty()));
    assert(parse_levels(seq![r], 1) == Some(seq![m])) by {
        assert(Seq::new(0, |_i: int| 1nat) + seq![m] + Seq::<nat>::empty() =~= seq![m]);
    }
    assert(seq![r, c1].drop_first() =~= seq![c1]);
    assert(seq![r, c1][0] == r);
    assert(parse_levels(seq![r, c1], 1) == Some(seq![m, 1nat])) by {
        assert(Seq::new(0, |_i: int| 1nat) + seq![m] + seq![1nat] =~= seq![m, 1nat]);
    }
    assert(t2.drop_first() =~= seq![r]);
    assert(t3.drop_first() =~= seq![r, c1]);
    assert(t2[0] == f);
    assert(t3[0] == f);
    assert(level_of(f[0]) == 0);
    assert(parse_levels(t2, 0) == Some(seq![n, m])) by {
        assert(Seq::new(0, |_i: int| 1nat) + seq![n] + seq![m] =~= seq![n, m]);
    }
    assert(parse_levels(t3, 0) == Some(seq![n, m, 1nat])) by {
        assert(Seq::new(0, |_i: int| 1nat) + seq![n] + seq![m, 1nat] =~= seq![n, m, 1nat]);
    }
    assert(seq![n, m].drop_first() =~= seq![m]);
    assert(seq![n, m, 1nat].drop_first() =~= seq![m, 1nat]);
    assert(seq![m].drop_first() =~= Seq::<nat>::empty());
    assert(seq![m, 1nat].drop_first() =~= seq![1nat]);
    let segs = split(src, seps.segment);
    let i = find_segment(segs, name, seps, 0);
    if i >= 0 {
        let x = if name == msh() && n == 1 {
            src.subrange(3, 4)
        } else if name == msh() && n == 2 {
            src.subrange(4, 8)
        } else {
            field_value(segs[i], n as int, seps)
        };
        let y = select(split(x, seps.repeat), m as int);
        assert(descend(x, seq![m], 1, seps) == descend(y, Seq::<nat>::empty(), 2, seps));
        assert(descend(x, seq![m, 1nat], 1, seps) == descend(y, seq![1nat], 2, seps));
        assert(descend(y, Seq::<nat>::empty(), 2, seps) == y);
        let v = message_query(src, seps, dotted(name, t2));
        assert(v == y);
        lemma_descend_default(y, 2, seps);
    }
}

} // verus!
