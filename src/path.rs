//! Dotted paths such as `PID.F11.R1.C5`: their grammar, and how a path
//! tail descends from a field into its repeats, components and
//! subcomponents.
//!
//! A tail is a list of elements separated by `.`, each a letter followed
//! by decimal digits: `F` (field), `R` (repeat), `C` (component) and `S`
//! (subcomponent), in that order. Indices count from 1. An `R` or `C`
//! that is left out while a lower element is given stands for index 1.
use crate::separators::Separators;
use crate::text::{select, split, split_str, views};
use vstd::prelude::*;

verus! {

/// The level that an element's letter names: field 0, repeat 1,
/// component 2, subcomponent 3; -1 for any other character.
pub open spec fn level_of(c: char) -> int {
    if c == 'F' {
        0
    } else if c == 'R' {
        1
    } else if c == 'C' {
        2
    } else if c == 'S' {
        3
    } else {
        -1
    }
}

pub open spec fn is_digit(c: char) -> bool {
    '0' <= c && c <= '9'
}

/// The number that a string of decimal digits writes.
pub open spec fn digits_value(s: Seq<char>) -> nat
    decreases s.len(),
{
    if s.len() == 0 {
        0
    } else {
        digits_value(s.drop_last()) * 10 + ((s.last() as nat) - ('0' as nat)) as nat
    }
}

/// The index that an element carries after its letter: one or more
/// decimal digits. An index too large for a `usize` can address nothing
/// and counts as no index.
pub open spec fn element_index(e: Seq<char>) -> Option<nat> {
    if e.len() >= 2 && (forall|i: int| 1 <= i < e.len() ==> is_digit(#[trigger] e[i]))
        && digits_value(e.drop_first()) <= usize::MAX {
        Some(digits_value(e.drop_first()))
    } else {
        None
    }
}

/// The indices that the elements `elems` give, from level `lvl` down to
/// the lowest level named, with 1 for each level left out; `None` when an
/// element is malformed or out of order.
pub open spec fn parse_levels(elems: Seq<Seq<char>>, lvl: int) -> Option<Seq<nat>>
    decreases elems.len(),
{
    if elems.len() == 0 {
        Some(Seq::<nat>::empty())
    } else {
        let e = elems[0];
        let l = if e.len() > 0 {
            level_of(e[0])
        } else {
            -1
        };
        match element_index(e) {
            None => None,
            Some(n) => if l < lvl {
                None
            } else {
                match parse_levels(elems.drop_first(), l + 1) {
                    None => None,
                    Some(rest) => Some(Seq::new((l - lvl) as nat, |_i: int| 1nat) + seq![n] + rest),
                }
            },
        }
    }
}

/// The delimiter that splits a value of level `lvl - 1` into the pieces
/// of level `lvl`.
pub open spec fn delimiter_at(seps: Separators, lvl: int) -> char {
    if lvl == 1 {
        seps.repeat
    } else if lvl == 2 {
        seps.component
    } else {
        seps.subcomponent
    }
}

/// The value that the indices `idx` select inside `v`, whose pieces are
/// of level `lvl`.
pub open spec fn descend(v: Seq<char>, idx: Seq<nat>, lvl: int, seps: Separators) -> Seq<char>
    decreases idx.len(),
{
    if idx.len() == 0 {
        v
    } else {
        descend(
            select(split(v, delimiter_at(seps, lvl)), idx[0] as int),
            idx.drop_first(),
            lvl + 1,
            seps,
        )
    }
}

pub open spec fn nats(v: Seq<usize>) -> Seq<nat> {
    v.map_values(|x: usize| x as nat)
}

proof fn lemma_digits_grow(s: Seq<char>, k: int)
    requires
        0 <= k <= s.len(),
    ensures
        digits_value(s) >= digits_value(s.subrange(0, k)),
    decreases s.len() - k,
{
    if k < s.len() {
        lemma_digits_grow(s, k + 1);
        let p = s.subrange(0, k + 1);
        assert(p.drop_last() =~= s.subrange(0, k));
    } else {
        assert(s.subrange(0, k) =~= s);
    }
}

fn level_char(c: char) -> (r: i8)
    ensures
        r as int == level_of(c),
{
    if c == 'F' {
        0
    } else if c == 'R' {
        1
    } else if c == 'C' {
        2
    } else if c == 'S' {
        3
    } else {
        -1
    }
}

/// The index that an element carries after its letter.
pub fn parse_element_index(e: &str) -> (r: Option<usize>)
    ensures
        match r {
            Some(n) => element_index(e@) == Some(n as nat),
            None => element_index(e@) is None,
        },
{
    let len = e.unicode_len();
    if len < 2 {
        return None;
    }
    let ghost ds = e@.drop_first();
    let mut acc: usize = 0;
    let mut i: usize = 1;
    while i < len
        invariant
            len == e@.len(),
            ds == e@.drop_first(),
            1 <= i <= len,
            forall|j: int| 1 <= j < i ==> is_digit(#[trigger] e@[j]),
            acc as nat == digits_value(ds.subrange(0, i - 1)),
        decreases len - i,
    {
        let c = e.get_char(i);
        if c < '0' || c > '9' {
            assert(!is_digit(e@[i as int]));
            return None;
        }
        let d = (c as u32 - '0' as u32) as usize;
        let ghost p = ds.subrange(0, i as int);
        assert(p.drop_last() =~= ds.subrange(0, i - 1));
        assert(p.last() == c);
        if acc > (usize::MAX - d) / 10 {
            proof {
                assert(acc * 10 + d > usize::MAX) by (nonlinear_arith)
                    requires
                        acc > (usize::MAX - d) / 10,
                        d <= 9,
                ;
                lemma_digits_grow(ds, i as int);
            }
            return None;
        }
        assert(acc * 10 + d <= usize::MAX) by (nonlinear_arith)
            requires
                acc <= (usize::MAX - d) / 10,
                d <= 9,
        ;
        acc = acc * 10 + d;
        i = i + 1;
    }
    assert(ds.subrange(0, len - 1) =~= ds);
    Some(acc)
}

/// The indices that the elements `elems[from..]` give, starting at level
/// `lvl`, as [`parse_levels`] states them.
pub fn parse_tail(elems: &Vec<&str>, from: usize, lvl: i8) -> (r: Option<Vec<usize>>)
    requires
        from <= elems@.len(),
        0 <= lvl <= 4,
    ensures
        match r {
            Some(v) => parse_levels(views(elems@).skip(from as int), lvl as int) == Some(
                nats(v@),
            ) && v@.len() <= 4,
            None => parse_levels(views(elems@).skip(from as int), lvl as int) is None,
        },
{
    let mut acc: Vec<usize> = Vec::new();
    let mut k: usize = from;
    let mut cur: i8 = lvl;
    let ghost all = views(elems@);
    while k < elems.len()
        invariant
            from <= k <= elems@.len(),
            all == views(elems@),
            lvl <= cur <= 4,
            acc@.len() <= cur,
            parse_levels(all.skip(from as int), lvl as int) == match parse_levels(
                all.skip(k as int),
                cur as int,
            ) {
                None => None,
                Some(rest) => Some(nats(acc@) + rest),
            },
        decreases elems@.len() - k,
    {
        let e = elems[k];
        let ghost rest_elems = all.skip(k as int);
        assert(rest_elems[0] == e@);
        assert(rest_elems.drop_first() =~= all.skip(k as int + 1));
        let idx = parse_element_index(e);
        let l: i8 = if e.unicode_len() > 0 {
            level_char(e.get_char(0))
        } else {
            -1
        };
        match idx {
            None => {
                return None;
            },
            Some(n) => {
                if l < cur {
                    return None;
                }
                let ghost before = nats(acc@);
                let mut j: i8 = cur;
                while j < l
                    invariant
                        cur <= j <= l,
                        l <= 3,
                        acc@.len() <= j,
                        nats(acc@) == before + Seq::new((j - cur) as nat, |_i: int| 1nat),
                    decreases l - j,
                {
                    let ghost prev_acc = nats(acc@);
                    acc.push(1);
                    assert(nats(acc@) =~= prev_acc.push(1nat));
                    assert(nats(acc@) =~= before + Seq::new(
                        (j + 1 - cur) as nat,
                        |_i: int| 1nat,
                    ));
                    j = j + 1;
                }
                let ghost prev_acc = nats(acc@);
                acc.push(n);
                assert(nats(acc@) =~= prev_acc.push(n as nat));
                assert(nats(acc@) =~= before + Seq::new((l - cur) as nat, |_i: int| 1nat) + seq![
                    n as nat,
                ]);
                proof {
                    let fill = Seq::new((l - cur) as nat, |_i: int| 1nat);
                    match parse_levels(all.skip(k as int + 1), l as int + 1) {
                        None => {},
                        Some(rest) => {
                            assert(before + (fill + seq![n as nat] + rest) =~= nats(acc@)
                                + rest);
                        },
                    }
                }
                cur = l + 1;
            },
        }
        k = k + 1;
    }
    assert(all.skip(k as int) =~= Seq::<Seq<char>>::empty());
    assert(nats(acc@) + Seq::<nat>::empty() =~= nats(acc@));
    Some(acc)
}

fn delimiter(seps: &Separators, lvl: usize) -> (r: char)
    ensures
        r == delimiter_at(*seps, lvl as int),
{
    if lvl == 1 {
        seps.repeat
    } else if lvl == 2 {
        seps.component
    } else {
        seps.subcomponent
    }
}

/// The `n`th of `pieces`, counted from 1, or the empty text.
pub fn select_piece<'a>(pieces: &Vec<&'a str>, n: usize) -> (r: &'a str)
    ensures
        r@ == select(views(pieces@), n as int),
{
    if 1 <= n && n <= pieces.len() {
        pieces[n - 1]
    } else {
        proof {
            reveal_strlit("");
        }
        ""
    }
}

/// The value that `idx[from..]` selects inside `v`, whose pieces are of
/// level `lvl`.
pub fn descend_str<'a>(v: &'a str, idx: &Vec<usize>, from: usize, lvl: usize, seps: &Separators) -> (r:
    &'a str)
    requires
        from <= idx@.len() <= 4,
        lvl <= 4,
    ensures
        r@ == descend(v@, nats(idx@).skip(from as int), lvl as int, *seps),
{
    let mut cur: &'a str = v;
    let mut k: usize = from;
    let mut l: usize = lvl;
    while k < idx.len()
        invariant
            from <= k <= idx@.len(),
            idx@.len() <= 4,
            l == lvl + (k - from),
            l <= lvl + k,
            lvl <= 4,
            descend(v@, nats(idx@).skip(from as int), lvl as int, *seps) == descend(
                cur@,
                nats(idx@).skip(k as int),
                l as int,
                *seps,
            ),
        decreases idx@.len() - k,
    {
        let pieces = split_str(cur, delimiter(seps, l));
        let ghost rest = nats(idx@).skip(k as int);
        assert(rest.drop_first() =~= nats(idx@).skip(k as int + 1));
        assert(rest[0] == idx@[k as int] as nat);
        cur = select_piece(&pieces, idx[k]);
        k = k + 1;
        l = l + 1;
    }
    assert(nats(idx@).skip(k as int) =~= Seq::<nat>::empty());
    cur
}

} // verus!
