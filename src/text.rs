//! Text helpers: splitting on a delimiter and joining back, comparing,
//! searching and building strings character by character.
use vstd::prelude::*;

verus! {

/// The pieces of `s` between occurrences of `d`, empty pieces kept: there
/// is always at least one piece, and `k` delimiters give `k + 1` pieces.
pub open spec fn split(s: Seq<char>, d: char) -> Seq<Seq<char>>
    decreases s.len(),
{
    if s.len() == 0 {
        seq![Seq::<char>::empty()]
    } else {
        let prev = split(s.drop_last(), d);
        if s.last() == d {
            prev.push(Seq::<char>::empty())
        } else {
            prev.update(prev.len() - 1, prev.last().push(s.last()))
        }
    }
}

/// The pieces of `ps` with `d` between each two neighbours.
pub open spec fn join(ps: Seq<Seq<char>>, d: char) -> Seq<char>
    decreases ps.len(),
{
    if ps.len() == 0 {
        Seq::<char>::empty()
    } else if ps.len() == 1 {
        ps[0]
    } else {
        join(ps.drop_last(), d).push(d) + ps.last()
    }
}

/// The `n`th piece counted from 1, or the empty text when there is none.
pub open spec fn select(ps: Seq<Seq<char>>, n: int) -> Seq<char> {
    if 1 <= n <= ps.len() {
        ps[n - 1]
    } else {
        Seq::<char>::empty()
    }
}

/// The `i`th piece counted from 0, or the empty text when there is none.
pub open spec fn pick(ps: Seq<Seq<char>>, i: int) -> Seq<char> {
    if 0 <= i < ps.len() {
        ps[i]
    } else {
        Seq::<char>::empty()
    }
}

/// What a sequence of string slices reads as.
pub open spec fn views(v: Seq<&str>) -> Seq<Seq<char>> {
    v.map_values(|p: &str| p@)
}

pub proof fn lemma_split_len(s: Seq<char>, d: char)
    ensures
        split(s, d).len() >= 1,
    decreases s.len(),
{
    if s.len() > 0 {
        lemma_split_len(s.drop_last(), d);
    }
}

/// Joining the pieces of a split gives back the text.
pub proof fn lemma_join_split(s: Seq<char>, d: char)
    ensures
        join(split(s, d), d) == s,
    decreases s.len(),
{
    if s.len() > 0 {
        let prev = split(s.drop_last(), d);
        lemma_split_len(s.drop_last(), d);
        lemma_join_split(s.drop_last(), d);
        let cur = split(s, d);
        if s.last() == d {
            assert(cur.drop_last() =~= prev);
            assert(s =~= s.drop_last().push(d) + Seq::<char>::empty());
        } else {
            if prev.len() == 1 {
                assert(s =~= prev[0].push(s.last()));
            } else {
                assert(cur.drop_last() =~= prev.drop_last());
                assert(join(prev, d) == join(prev.drop_last(), d).push(d) + prev.last());
                assert(join(cur, d) == join(cur.drop_last(), d).push(d) + cur.last());
                assert(s =~= s.drop_last().push(s.last()));
                assert(s =~= join(prev.drop_last(), d).push(d) + prev.last().push(s.last()));
            }
        }
    }
}

/// A text without the delimiter is a single piece.
pub proof fn lemma_split_free(s: Seq<char>, d: char)
    requires
        !s.contains(d),
    ensures
        split(s, d) == seq![s],
    decreases s.len(),
{
    if s.len() == 0 {
        assert(s =~= Seq::<char>::empty());
        assert(split(s, d) =~= seq![s]);
    } else {
        assert(!s.drop_last().contains(d)) by {
            if s.drop_last().contains(d) {
                let j = choose|j: int| 0 <= j < s.drop_last().len() && s.drop_last()[j] == d;
                assert(s[j] == d);
            }
        }
        lemma_split_free(s.drop_last(), d);
        assert(s.last() != d) by {
            assert(s[s.len() - 1] == s.last());
        }
        assert(s.drop_last().push(s.last()) =~= s);
        assert(split(s, d) =~= seq![s]);
    }
}

/// Splitting at a delimiter splits the text on each side of it.
pub proof fn lemma_split_concat(x: Seq<char>, y: Seq<char>, d: char)
    ensures
        split(x + seq![d] + y, d) == split(x, d) + split(y, d),
    decreases y.len(),
{
    let xd = x + seq![d];
    if y.len() == 0 {
        assert(xd + y =~= xd);
        assert(xd.drop_last() =~= x);
        assert(split(xd, d) == split(x, d).push(Seq::<char>::empty()));
        assert(split(y, d) =~= seq![Seq::<char>::empty()]);
        assert(split(x, d).push(Seq::<char>::empty()) =~= split(x, d) + split(y, d));
    } else {
        lemma_split_concat(x, y.drop_last(), d);
        lemma_split_len(y.drop_last(), d);
        lemma_split_len(x, d);
        let s = xd + y;
        assert(s.drop_last() =~= xd + y.drop_last());
        assert(s.last() == y.last());
        let prev = split(xd + y.drop_last(), d);
        let py = split(y.drop_last(), d);
        assert(prev == split(x, d) + py);
        if y.last() == d {
            assert(split(x, d) + py.push(Seq::<char>::empty()) =~= prev.push(Seq::<char>::empty()));
        } else {
            assert(prev.last() == py.last());
            assert(split(x, d) + py.update(py.len() - 1, py.last().push(y.last())) =~= prev.update(
                prev.len() - 1,
                prev.last().push(y.last()),
            ));
        }
    }
}

/// The first piece of a split starts with any prefix that holds no
/// delimiter.
pub proof fn lemma_split_first_prefix(s: Seq<char>, d: char, i: int)
    requires
        0 <= i <= s.len(),
        !s.subrange(0, i).contains(d),
    ensures
        split(s, d)[0].len() >= i,
        split(s, d)[0].subrange(0, i) == s.subrange(0, i),
    decreases s.len(),
{
    lemma_split_len(s, d);
    if s.len() == i {
        assert(s.subrange(0, i) =~= s);
        lemma_split_free(s, d);
    } else {
        let t = s.drop_last();
        assert(t.subrange(0, i) =~= s.subrange(0, i));
        lemma_split_first_prefix(t, d, i);
        lemma_split_len(t, d);
        let prev = split(t, d);
        if s.last() != d && prev.len() == 1 {
            assert(prev[0].push(s.last()).subrange(0, i) =~= prev[0].subrange(0, i));
        }
    }
}

/// Relies on `String::push`: appends one character.
#[verifier::external_body]
pub fn push_char(s: &mut String, c: char)
    ensures
        final(s)@ == old(s)@.push(c),
{
    s.push(c)
}

/// The characters of `s` from `from` (inclusive) to `to` (exclusive).
pub fn slice<'a>(s: &'a str, from: usize, to: usize) -> (r: &'a str)
    requires
        from <= to <= s@.len(),
    ensures
        r@ == s@.subrange(from as int, to as int),
{
    s.substring_char(from, to)
}

/// Splits `s` on `d`, keeping empty pieces; the pieces are slices of `s`.
pub fn split_str<'a>(s: &'a str, d: char) -> (r: Vec<&'a str>)
    ensures
        views(r@) == split(s@, d),
{
    let n = s.unicode_len();
    let mut pieces: Vec<&'a str> = Vec::new();
    let mut start: usize = 0;
    let mut i: usize = 0;
    assert(views(pieces@) =~= Seq::<Seq<char>>::empty());
    assert(s@.subrange(0, 0) =~= Seq::<char>::empty());
    assert(split(Seq::<char>::empty(), d) =~= seq![Seq::<char>::empty()]);
    while i < n
        invariant
            n == s@.len(),
            start <= i <= n,
            views(pieces@).push(s@.subrange(start as int, i as int)) == split(
                s@.subrange(0, i as int),
                d,
            ),
        decreases n - i,
    {
        let c = s.get_char(i);
        let ghost before = s@.subrange(0, i as int);
        let ghost after = s@.subrange(0, i as int + 1);
        assert(after.drop_last() =~= before);
        assert(after.last() == c);
        let ghost prev = split(before, d);
        assert(prev.len() == views(pieces@).len() + 1);
        assert(prev.last() == s@.subrange(start as int, i as int));
        if c == d {
            let p = slice(s, start, i);
            let ghost old_views = views(pieces@);
            pieces.push(p);
            start = i + 1;
            assert(views(pieces@) =~= old_views.push(p@));
            assert(split(after, d) == prev.push(Seq::<char>::empty()));
            assert(s@.subrange(start as int, i as int + 1) =~= Seq::<char>::empty());
            assert(views(pieces@).push(s@.subrange(start as int, i as int + 1)) =~= split(
                after,
                d,
            ));
        } else {
            assert(s@.subrange(start as int, i as int + 1) =~= s@.subrange(
                start as int,
                i as int,
            ).push(c));
            assert(split(after, d) == prev.update(prev.len() - 1, prev.last().push(c)));
            assert(prev.last().push(c) == s@.subrange(start as int, i as int + 1));
            assert(prev.update(prev.len() - 1, s@.subrange(start as int, i as int + 1))
                =~= views(pieces@).push(s@.subrange(start as int, i as int + 1)));
            assert(views(pieces@).push(s@.subrange(start as int, i as int + 1)) =~= split(
                after,
                d,
            ));
        }
        i = i + 1;
    }
    let last = slice(s, start, n);
    pieces.push(last);
    assert(s@.subrange(0, n as int) =~= s@);
    assert(views(pieces@) =~= views(pieces@).drop_last().push(last@));
    pieces
}

/// Whether two texts are the same, character by character.
pub fn str_eq(a: &str, b: &str) -> (r: bool)
    ensures
        r == (a@ == b@),
{
    let n = a.unicode_len();
    let m = b.unicode_len();
    if n != m {
        return false;
    }
    let mut i: usize = 0;
    while i < n
        invariant
            n == a@.len(),
            m == b@.len(),
            n == m,
            i <= n,
            forall|j: int| 0 <= j < i ==> a@[j] == b@[j],
        decreases n - i,
    {
        if a.get_char(i) != b.get_char(i) {
            return false;
        }
        i = i + 1;
    }
    assert(a@ =~= b@);
    true
}

/// The first position at or after `from` where `s` holds `c`, if any.
pub fn find_char(s: &str, from: usize, c: char) -> (r: Option<usize>)
    requires
        from <= s@.len(),
    ensures
        match r {
            Some(k) => from <= k < s@.len() && s@[k as int] == c && forall|j: int|
                from <= j < k ==> s@[j] != c,
            None => forall|j: int| from <= j < s@.len() ==> s@[j] != c,
        },
{
    let n = s.unicode_len();
    let mut i: usize = from;
    while i < n
        invariant
            n == s@.len(),
            from <= i <= n,
            forall|j: int| from <= j < i ==> s@[j] != c,
        decreases n - i,
    {
        if s.get_char(i) == c {
            return Some(i);
        }
        i = i + 1;
    }
    None
}

/// The pieces of `s` split on `d`, or none at all when `s` is empty.
pub open spec fn split_nonempty(s: Seq<char>, d: char) -> Seq<Seq<char>> {
    if s.len() == 0 {
        Seq::<Seq<char>>::empty()
    } else {
        split(s, d)
    }
}

/// Splits `s` on `d`, keeping empty pieces, but gives no piece at all for
/// an empty `s`.
pub fn split_str_nonempty<'a>(s: &'a str, d: char) -> (r: Vec<&'a str>)
    ensures
        views(r@) == split_nonempty(s@, d),
{
    if s.unicode_len() == 0 {
        let v: Vec<&'a str> = Vec::new();
        assert(views(v@) =~= Seq::<Seq<char>>::empty());
        v
    } else {
        split_str(s, d)
    }
}

/// What a sequence of strings reads as.
pub open spec fn string_views(v: Seq<String>) -> Seq<Seq<char>> {
    v.map_values(|p: String| p@)
}

/// Joins `parts` with `d` between each two neighbours.
pub fn join_strs(parts: &Vec<&str>, d: char) -> (r: String)
    ensures
        r@ == join(views(parts@), d),
{
    let mut out = String::new();
    let mut i: usize = 0;
    assert(views(parts@).subrange(0, 0) =~= Seq::<Seq<char>>::empty());
    while i < parts.len()
        invariant
            i <= parts@.len(),
            out@ == join(views(parts@).subrange(0, i as int), d),
        decreases parts@.len() - i,
    {
        let ghost ps = views(parts@).subrange(0, i as int + 1);
        assert(ps.drop_last() =~= views(parts@).subrange(0, i as int));
        assert(ps.last() == parts@[i as int]@);
        if i == 0 {
            out.append(parts[i]);
            assert(ps =~= seq![parts@[0]@]);
            assert(out@ =~= parts@[0]@);
        } else {
            push_char(&mut out, d);
            out.append(parts[i]);
        }
        i = i + 1;
    }
    assert(views(parts@).subrange(0, parts@.len() as int) =~= views(parts@));
    out
}

/// Joins `parts` with `d` between each two neighbours.
pub fn join_strings(parts: &Vec<String>, d: char) -> (r: String)
    ensures
        r@ == join(string_views(parts@), d),
{
    let mut out = String::new();
    let mut i: usize = 0;
    assert(string_views(parts@).subrange(0, 0) =~= Seq::<Seq<char>>::empty());
    while i < parts.len()
        invariant
            i <= parts@.len(),
            out@ == join(string_views(parts@).subrange(0, i as int), d),
        decreases parts@.len() - i,
    {
        let ghost ps = string_views(parts@).subrange(0, i as int + 1);
        assert(ps.drop_last() =~= string_views(parts@).subrange(0, i as int));
        assert(ps.last() == parts@[i as int]@);
        if i == 0 {
            out.append(parts[i].as_str());
            assert(ps =~= seq![parts@[0]@]);
            assert(out@ =~= parts@[0]@);
        } else {
            push_char(&mut out, d);
            out.append(parts[i].as_str());
        }
        i = i + 1;
    }
    assert(string_views(parts@).subrange(0, parts@.len() as int) =~= string_views(parts@));
    out
}

/// The lines of `lines` before the first empty one.
pub open spec fn lines_until_blank(lines: Seq<Seq<char>>) -> Seq<Seq<char>>
    decreases lines.len(),
{
    if lines.len() == 0 || lines[0].len() == 0 {
        Seq::<Seq<char>>::empty()
    } else {
        seq![lines[0]] + lines_until_blank(lines.drop_first())
    }
}

/// The lines of `s` (split on `d`) before the first empty one.
pub fn lines_before_blank<'a>(s: &'a str, d: char) -> (r: Vec<&'a str>)
    ensures
        views(r@) == lines_until_blank(split(s@, d)),
{
    let lines = split_str(s, d);
    let ghost all = views(lines@);
    let mut out: Vec<&'a str> = Vec::new();
    let mut i: usize = 0;
    assert(all.skip(0) =~= all);
    while i < lines.len()
        invariant
            i <= lines@.len(),
            all == views(lines@),
            all == split(s@, d),
            lines_until_blank(all) == views(out@) + lines_until_blank(all.skip(i as int)),
        decreases lines@.len() - i,
    {
        let line = lines[i];
        let ghost rest = all.skip(i as int);
        assert(rest[0] == line@);
        if line.unicode_len() == 0 {
            assert(lines_until_blank(rest) =~= Seq::<Seq<char>>::empty());
            assert(views(out@) + Seq::<Seq<char>>::empty() =~= views(out@));
            return out;
        }
        let ghost before = views(out@);
        out.push(line);
        assert(rest.drop_first() =~= all.skip(i as int + 1));
        assert(views(out@) =~= before.push(line@));
        assert(before + (seq![line@] + lines_until_blank(all.skip(i as int + 1))) =~= views(out@)
            + lines_until_blank(all.skip(i as int + 1)));
        i = i + 1;
    }
    assert(all.skip(i as int) =~= Seq::<Seq<char>>::empty());
    assert(views(out@) + Seq::<Seq<char>>::empty() =~= views(out@));
    out
}

/// Whether `c` has the Unicode `White_Space` property.
pub uninterp spec fn whitespace(c: char) -> bool;

/// Relies on `char::is_whitespace`: whether `c` has the Unicode
/// `White_Space` property, which depends on `c` alone.
#[verifier::external_body]
fn is_whitespace(c: char) -> (r: bool)
    ensures
        r == whitespace(c),
{
    c.is_whitespace()
}

/// `s` without its leading whitespace.
pub open spec fn trim_start(s: Seq<char>) -> Seq<char>
    decreases s.len(),
{
    if s.len() > 0 && whitespace(s[0]) {
        trim_start(s.drop_first())
    } else {
        s
    }
}

/// `s` without its trailing whitespace.
pub open spec fn trim_end(s: Seq<char>) -> Seq<char>
    decreases s.len(),
{
    if s.len() > 0 && whitespace(s.last()) {
        trim_end(s.drop_last())
    } else {
        s
    }
}

/// `s` without its leading and trailing whitespace.
pub open spec fn trimmed(s: Seq<char>) -> Seq<char> {
    trim_end(trim_start(s))
}

/// `s` without its leading and trailing whitespace, as a slice of `s`.
pub fn trim(s: &str) -> (r: &str)
    ensures
        r@ == trimmed(s@),
{
    let n = s.unicode_len();
    let mut i: usize = 0;
    assert(s@.subrange(0, n as int) =~= s@);
    while i < n && is_whitespace(s.get_char(i))
        invariant
            n == s@.len(),
            i <= n,
            trim_start(s@) == trim_start(s@.subrange(i as int, n as int)),
        decreases n - i,
    {
        let ghost t = s@.subrange(i as int, n as int);
        assert(t[0] == s@[i as int]);
        assert(t.drop_first() =~= s@.subrange(i as int + 1, n as int));
        i = i + 1;
    }
    let ghost front = s@.subrange(i as int, n as int);
    assert(trim_start(front) == front) by {
        if front.len() > 0 {
            assert(front[0] == s@[i as int]);
        }
    }
    let mut j: usize = n;
    while j > i && is_whitespace(s.get_char(j - 1))
        invariant
            n == s@.len(),
            i <= j <= n,
            front == s@.subrange(i as int, n as int),
            trim_end(front) == trim_end(s@.subrange(i as int, j as int)),
        decreases j,
    {
        let ghost t = s@.subrange(i as int, j as int);
        assert(t.last() == s@[j - 1]);
        assert(t.drop_last() =~= s@.subrange(i as int, j - 1));
        j = j - 1;
    }
    let ghost back = s@.subrange(i as int, j as int);
    assert(trim_end(back) == back) by {
        if back.len() > 0 {
            assert(back.last() == s@[j - 1]);
        }
    }
    slice(s, i, j)
}

} // verus!
