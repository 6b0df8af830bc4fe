//! Sequences of characters: white space, trimming, and cutting at a separator.

use vstd::prelude::*;
use vstd::slice::slice_subrange;

verus! {

/// The characters that count as white space: the code points to which Unicode
/// gives the property `White_Space`.
pub open spec fn white_space(c: char) -> bool {
    let u = c as u32;
    ||| 0x09 <= u <= 0x0D
    ||| u == 0x20
    ||| u == 0x85
    ||| u == 0xA0
    ||| u == 0x1680
    ||| 0x2000 <= u <= 0x200A
    ||| u == 0x2028
    ||| u == 0x2029
    ||| u == 0x202F
    ||| u == 0x205F
    ||| u == 0x3000
}

/// `s` without the white space at its start.
pub open spec fn trimmed_start(s: Seq<char>) -> Seq<char>
    decreases s.len(),
{
    if s.len() > 0 && white_space(s.first()) {
        trimmed_start(s.drop_first())
    } else {
        s
    }
}

/// `s` without the white space at its end.
pub open spec fn trimmed_end(s: Seq<char>) -> Seq<char>
    decreases s.len(),
{
    if s.len() > 0 && white_space(s.last()) {
        trimmed_end(s.drop_last())
    } else {
        s
    }
}

/// `s` without the white space at either end.
pub open spec fn trimmed(s: Seq<char>) -> Seq<char> {
    trimmed_end(trimmed_start(s))
}

/// The pieces into which the occurrences of `sep` cut `s`, in order. There is
/// always one piece more than there are separators, and a piece may be empty.
///
/// Read from left to right: a separator closes the current piece and opens an
/// empty one, any other character lengthens the current piece.
pub open spec fn pieces(s: Seq<char>, sep: char) -> Seq<Seq<char>>
    decreases s.len(),
{
    if s.len() == 0 {
        seq![Seq::<char>::empty()]
    } else {
        let before = pieces(s.drop_last(), sep);
        if s.last() == sep {
            before.push(Seq::<char>::empty())
        } else {
            before.drop_last().push(before.last().push(s.last()))
        }
    }
}

/// How often `c` occurs in `s`.
pub open spec fn occurrences(s: Seq<char>, c: char) -> nat
    decreases s.len(),
{
    if s.len() == 0 {
        0
    } else {
        occurrences(s.drop_last(), c) + if s.last() == c {
            1nat
        } else {
            0nat
        }
    }
}

/// `c` does not occur in `s`.
pub open spec fn free_of(s: Seq<char>, c: char) -> bool {
    forall|i: int| 0 <= i < s.len() ==> #[trigger] s[i] != c
}

/// The parts put together again, with `sep` between one part and the next.
pub open spec fn joined(parts: Seq<Seq<char>>, sep: char) -> Seq<char>
    decreases parts.len(),
{
    if parts.len() == 0 {
        Seq::<char>::empty()
    } else if parts.len() == 1 {
        parts[0]
    } else {
        joined(parts.drop_last(), sep).push(sep) + parts.last()
    }
}

/// There is one piece more than there are separators.
pub proof fn lemma_pieces_count(s: Seq<char>, sep: char)
    ensures
        pieces(s, sep).len() == occurrences(s, sep) + 1,
    decreases s.len(),
{
    if s.len() > 0 {
        lemma_pieces_count(s.drop_last(), sep);
    }
}

/// No piece holds the separator, and the pieces joined by the separator are
/// the sequence that was cut.
pub proof fn lemma_pieces_join(s: Seq<char>, sep: char)
    ensures
        forall|i: int| 0 <= i < pieces(s, sep).len() ==> free_of(#[trigger] pieces(s, sep)[i], sep),
        joined(pieces(s, sep), sep) == s,
    decreases s.len(),
{
    let parts = pieces(s, sep);
    if s.len() == 0 {
        assert(joined(parts, sep) =~= s);
    } else {
        let before = pieces(s.drop_last(), sep);
        lemma_pieces_join(s.drop_last(), sep);
        lemma_pieces_count(s.drop_last(), sep);
        if s.last() == sep {
            assert(parts.drop_last() =~= before);
            assert(joined(parts, sep) =~= s);
        } else {
            let open = before.last().push(s.last());
            assert(parts.last() == open);
            assert(free_of(before.last(), sep));
            assert(free_of(open, sep));
            assert(parts.drop_last() =~= before.drop_last());
            assert(s.drop_last().push(s.last()) =~= s);
            if before.len() == 1 {
                assert(joined(before, sep) == before[0]);
                assert(parts.len() == 1);
                assert(joined(parts, sep) == parts[0]);
                assert(joined(parts, sep) =~= s);
            } else {
                assert(joined(before, sep) == joined(before.drop_last(), sep).push(sep)
                    + before.last());
                assert(joined(parts, sep) =~= s);
            }
        }
        assert forall|i: int| 0 <= i < parts.len() implies free_of(#[trigger] parts[i], sep) by {
            if i < parts.len() - 1 {
                assert(parts[i] == before[i]);
            }
        }
    }
}

/// Characters without a separator, put at the end, lengthen the last piece.
pub proof fn lemma_pieces_append(s: Seq<char>, more: Seq<char>, sep: char)
    requires
        free_of(more, sep),
    ensures
        pieces(s + more, sep) == pieces(s, sep).drop_last().push(pieces(s, sep).last() + more),
    decreases more.len(),
{
    let parts = pieces(s, sep);
    lemma_pieces_count(s, sep);
    if more.len() == 0 {
        assert(s + more =~= s);
        assert(parts.drop_last().push(parts.last() + more) =~~= parts);
    } else {
        lemma_pieces_append(s, more.drop_last(), sep);
        assert((s + more).drop_last() =~= s + more.drop_last());
        assert((s + more).last() == more.last());
        assert((parts.last() + more.drop_last()).push(more.last()) =~= parts.last() + more);
        assert(pieces(s + more, sep) =~~= parts.drop_last().push(parts.last() + more));
    }
}

/// Parts that hold no separator, joined by the separator, are cut into the
/// same parts again: so the pieces of a sequence are the only parts without a
/// separator that join to it.
pub proof fn lemma_pieces_of_joined(parts: Seq<Seq<char>>, sep: char)
    requires
        parts.len() > 0,
        forall|i: int| 0 <= i < parts.len() ==> free_of(#[trigger] parts[i], sep),
    ensures
        pieces(joined(parts, sep), sep) == parts,
    decreases parts.len(),
{
    let none = Seq::<char>::empty();
    if parts.len() == 1 {
        lemma_pieces_append(none, parts[0], sep);
        assert(none + parts[0] =~= parts[0]);
        assert(pieces(joined(parts, sep), sep) =~~= parts);
    } else {
        let front = parts.drop_last();
        let closed = joined(front, sep).push(sep);
        lemma_pieces_of_joined(front, sep);
        assert(closed.drop_last() =~= joined(front, sep));
        assert(pieces(closed, sep) == front.push(none));
        lemma_pieces_append(closed, parts.last(), sep);
        assert(none + parts.last() =~= parts.last());
        assert(pieces(joined(parts, sep), sep) =~~= parts);
    }
}

/// What is trimmed from the start is white space, and what is left does not
/// start with white space.
pub proof fn lemma_trimmed_start(s: Seq<char>)
    ensures
        exists|a: int|
            {
                &&& 0 <= a <= s.len()
                &&& trimmed_start(s) == #[trigger] s.skip(a)
                &&& forall|i: int| 0 <= i < a ==> white_space(#[trigger] s[i])
                &&& a < s.len() ==> !white_space(s[a])
            },
    decreases s.len(),
{
    if s.len() > 0 && white_space(s.first()) {
        let rest = s.drop_first();
        lemma_trimmed_start(rest);
        let a = choose|a: int|
            {
                &&& 0 <= a <= rest.len()
                &&& trimmed_start(rest) == #[trigger] rest.skip(a)
                &&& forall|i: int| 0 <= i < a ==> white_space(#[trigger] rest[i])
                &&& a < rest.len() ==> !white_space(rest[a])
            };
        assert(rest.skip(a) =~= s.skip(a + 1));
        assert forall|i: int| 0 <= i < a + 1 implies white_space(#[trigger] s[i]) by {
            if i > 0 {
                assert(s[i] == rest[i - 1]);
            }
        }
        assert(a + 1 < s.len() ==> s[a + 1] == rest[a]);
    } else {
        assert(s.skip(0) =~= s);
    }
}

/// What is trimmed from the end is white space, and what is left does not
/// end with white space.
pub proof fn lemma_trimmed_end(s: Seq<char>)
    ensures
        exists|b: int|
            {
                &&& 0 <= b <= s.len()
                &&& trimmed_end(s) == #[trigger] s.take(b)
                &&& forall|i: int| b <= i < s.len() ==> white_space(#[trigger] s[i])
                &&& b > 0 ==> !white_space(s[b - 1])
            },
    decreases s.len(),
{
    if s.len() > 0 && white_space(s.last()) {
        let rest = s.drop_last();
        lemma_trimmed_end(rest);
        let b = choose|b: int|
            {
                &&& 0 <= b <= rest.len()
                &&& trimmed_end(rest) == #[trigger] rest.take(b)
                &&& forall|i: int| b <= i < rest.len() ==> white_space(#[trigger] rest[i])
                &&& b > 0 ==> !white_space(rest[b - 1])
            };
        assert(rest.take(b) =~= s.take(b));
        assert forall|i: int| b <= i < s.len() implies white_space(#[trigger] s[i]) by {
            if i < rest.len() {
                assert(s[i] == rest[i]);
            }
        }
        assert(b > 0 ==> s[b - 1] == rest[b - 1]);
    } else {
        assert(s.take(s.len() as int) =~= s);
    }
}

/// Trimming takes white space away and nothing else, and as much of it as
/// there is at the two ends: what is left is a part of the sequence with
/// nothing but white space before and after it, and it neither starts nor
/// ends with white space.
pub proof fn lemma_trimmed_is_inner(s: Seq<char>)
    ensures
        exists|a: int, b: int|
            {
                &&& 0 <= a <= b <= s.len()
                &&& trimmed(s) == #[trigger] s.subrange(a, b)
                &&& forall|i: int| 0 <= i < a || b <= i < s.len() ==> white_space(#[trigger] s[i])
            },
        trimmed(s).len() > 0 ==> !white_space(trimmed(s).first()) && !white_space(
            trimmed(s).last(),
        ),
{
    lemma_trimmed_start(s);
    let a = choose|a: int|
        {
            &&& 0 <= a <= s.len()
            &&& trimmed_start(s) == #[trigger] s.skip(a)
            &&& forall|i: int| 0 <= i < a ==> white_space(#[trigger] s[i])
            &&& a < s.len() ==> !white_space(s[a])
        };
    let t = s.skip(a);
    lemma_trimmed_end(t);
    let n = choose|n: int|
        {
            &&& 0 <= n <= t.len()
            &&& trimmed_end(t) == #[trigger] t.take(n)
            &&& forall|i: int| n <= i < t.len() ==> white_space(#[trigger] t[i])
            &&& n > 0 ==> !white_space(t[n - 1])
        };
    let b = a + n;
    assert(t.take(n) =~= s.subrange(a, b));
    assert forall|i: int| 0 <= i < a || b <= i < s.len() implies white_space(#[trigger] s[i]) by {
        if i >= b {
            assert(s[i] == t[i - a]);
        }
    }
    if trimmed(s).len() > 0 {
        assert(trimmed(s).first() == s[a]);
        assert(trimmed(s).last() == t[n - 1]);
    }
}

/// Trimming leaves alone what neither starts nor ends with white space.
pub proof fn lemma_trimmed_keeps(s: Seq<char>)
    requires
        s.len() > 0 ==> !white_space(s.first()) && !white_space(s.last()),
    ensures
        trimmed(s) == s,
{
}

/// What each of the slices in `parts` holds.
pub open spec fn views(parts: Seq<&[char]>) -> Seq<Seq<char>> {
    parts.map_values(|p: &[char]| p@)
}

/// The characters of `s`, one by one.
pub fn chars_of(s: &str) -> (out: Vec<char>)
    ensures
        out@ == s@,
{
    let mut out: Vec<char> = Vec::new();
    for c in it: s.chars()
        invariant
            out@ == it.seq().take(it.index()),
    {
        out.push(c);
    }
    out
}

/// Tells whether `c` is white space.
pub fn is_whitespace(c: char) -> (b: bool)
    ensures
        b == white_space(c),
{
    let u: u32 = c as u32;
    (0x09 <= u && u <= 0x0D) || u == 0x20 || u == 0x85 || u == 0xA0 || u == 0x1680 || (0x2000 <= u
        && u <= 0x200A) || u == 0x2028 || u == 0x2029 || u == 0x202F || u == 0x205F || u == 0x3000
}

/// The part of `s` that is left when the white space at both ends is taken away.
pub fn trim(s: &[char]) -> (out: &[char])
    ensures
        out@ == trimmed(s@),
{
    let n = s.len();
    let mut a: usize = 0;
    assert(s@.subrange(0, n as int) =~= s@);
    while a < n && is_whitespace(s[a])
        invariant
            a <= n == s@.len(),
            trimmed_start(s@) == trimmed_start(s@.subrange(a as int, n as int)),
        decreases n - a,
    {
        assert(s@.subrange(a as int, n as int).drop_first() =~= s@.subrange(a + 1, n as int));
        a += 1;
    }
    let mut b: usize = n;
    while b > a && is_whitespace(s[b - 1])
        invariant
            a <= b <= n == s@.len(),
            trimmed(s@) == trimmed_end(s@.subrange(a as int, b as int)),
        decreases b,
    {
        assert(s@.subrange(a as int, b as int).drop_last() =~= s@.subrange(a as int, b - 1));
        b -= 1;
    }
    slice_subrange(s, a, b)
}

/// Cuts `s` at every occurrence of `sep`.
pub fn split<'a>(s: &'a [char], sep: char) -> (parts: Vec<&'a [char]>)
    ensures
        views(parts@) == pieces(s@, sep),
{
    let mut parts: Vec<&'a [char]> = Vec::new();
    let mut start: usize = 0;
    let mut i: usize = 0;
    assert(views(parts@).push(s@.subrange(0, 0)) =~~= pieces(s@.take(0), sep));
    while i < s.len()
        invariant
            start <= i <= s@.len(),
            views(parts@).push(s@.subrange(start as int, i as int)) == pieces(
                s@.take(i as int),
                sep,
            ),
        decreases s@.len() - i,
    {
        let ghost before = views(parts@).push(s@.subrange(start as int, i as int));
        assert(s@.take(i + 1).drop_last() =~= s@.take(i as int));
        if s[i] == sep {
            parts.push(slice_subrange(s, start, i));
            start = i + 1;
            assert(views(parts@).push(s@.subrange(start as int, i + 1)) =~~= before.push(
                Seq::<char>::empty(),
            ));
        } else {
            assert(views(parts@).push(s@.subrange(start as int, i + 1)) =~~= before.drop_last().push(
                before.last().push(s@[i as int]),
            ));
        }
        i += 1;
    }
    assert(s@.take(i as int) =~= s@);
    parts.push(slice_subrange(s, start, i));
    assert(views(parts@) =~~= pieces(s@, sep));
    parts
}

} // verus!
