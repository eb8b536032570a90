//! Characters of a field value and its division at a separator.

use vstd::prelude::*;

verus! {

/// The pieces into which the separator `sep` divides `s`, in order.
///
/// There is one piece more than `s` has separators: an empty text is one
/// empty piece, and a separator at either end leaves an empty piece there.
pub open spec fn split_on(s: Seq<char>, sep: char) -> Seq<Seq<char>>
    decreases s.len(),
{
    if s.len() == 0 {
        seq![Seq::<char>::empty()]
    } else {
        let before = split_on(s.drop_last(), sep);
        if s.last() == sep {
            before.push(Seq::<char>::empty())
        } else {
            before.drop_last().push(before.last().push(s.last()))
        }
    }
}

/// The pieces `pieces` put together again, with `sep` between each two.
pub open spec fn join_with(pieces: Seq<Seq<char>>, sep: char) -> Seq<char>
    decreases pieces.len(),
{
    if pieces.len() == 0 {
        Seq::<char>::empty()
    } else if pieces.len() == 1 {
        pieces[0]
    } else {
        join_with(pieces.drop_last(), sep).push(sep) + pieces.last()
    }
}

/// The part of `s` between the two ends of `cut`.
pub open spec fn cut_of(s: Seq<char>, cut: (usize, usize)) -> Seq<char> {
    s.subrange(cut.0 as int, cut.1 as int)
}

/// `cuts` marks, piece by piece, where `pieces` lie in `s`.
pub open spec fn cuts_mark(s: Seq<char>, cuts: Seq<(usize, usize)>, pieces: Seq<Seq<char>>) -> bool {
    &&& cuts.len() == pieces.len()
    &&& forall|k: int|
        0 <= k < cuts.len() ==> {
            &&& (#[trigger] cuts[k]).0 <= cuts[k].1 <= s.len()
            &&& cut_of(s, cuts[k]) == pieces[k]
        }
}

/// One of `pieces` is empty.
pub open spec fn has_empty(pieces: Seq<Seq<char>>) -> bool {
    exists|k: int| 0 <= k < pieces.len() && (#[trigger] pieces[k]).len() == 0
}

/// Two separators `sep` stand side by side in `s`.
pub open spec fn has_adjacent(s: Seq<char>, sep: char) -> bool {
    exists|i: int| 0 <= i && i + 1 < s.len() && #[trigger] s[i] == sep && s[i + 1] == sep
}

/// A text that is empty, or has a separator `sep` at its start, at its end
/// or next to another one.
pub open spec fn has_stray_separator(s: Seq<char>, sep: char) -> bool {
    s.len() == 0 || s[0] == sep || s.last() == sep || has_adjacent(s, sep)
}

/// The characters of `s`, in order.
pub fn to_chars(s: &str) -> (chars: Vec<char>)
    ensures
        chars@ == s@,
{
    let mut chars: Vec<char> = Vec::new();
    for c in it: s.chars()
        invariant
            it.seq() == s@,
            chars@ == s@.take(it.index() as int),
    {
        chars.push(c);
    }
    chars
}

/// Divides `chars` at each `sep` and returns where the pieces lie.
pub fn split_ranges(chars: &[char], sep: char) -> (cuts: Vec<(usize, usize)>)
    ensures
        cuts_mark(chars@, cuts@, split_on(chars@, sep)),
        cuts@.len() >= 1,
{
    let n = chars.len();
    let mut cuts: Vec<(usize, usize)> = Vec::new();
    let mut start: usize = 0;
    let mut i: usize = 0;
    while i < n
        invariant
            start <= i <= n,
            n == chars@.len(),
            split_on(chars@.take(i as int), sep).len() == cuts@.len() + 1,
            cuts_mark(chars@, cuts@, split_on(chars@.take(i as int), sep).drop_last()),
            split_on(chars@.take(i as int), sep).last() == chars@.subrange(start as int, i as int),
        decreases n - i,
    {
        assert(chars@.take(i + 1).drop_last() =~= chars@.take(i as int));
        if chars[i] == sep {
            cuts.push((start, i));
            start = i + 1;
        }
        i += 1;
    }
    assert(chars@.take(n as int) =~= chars@);
    cuts.push((start, n));
    cuts
}

/// Whether the character `c` occurs in `s`.
pub fn contains_char(s: &str, c: char) -> (b: bool)
    ensures
        b == s@.contains(c),
{
    let chars = to_chars(s);
    let mut i: usize = 0;
    while i < chars.len()
        invariant
            i <= chars@.len(),
            chars@ == s@,
            forall|k: int| 0 <= k < i ==> chars@[k] != c,
        decreases chars@.len() - i,
    {
        if chars[i] == c {
            return true;
        }
        i += 1;
    }
    false
}

/// `split_on` never returns an empty sequence.
pub proof fn lemma_split_on_len(s: Seq<char>, sep: char)
    ensures
        split_on(s, sep).len() >= 1,
    decreases s.len(),
{
    if s.len() > 0 {
        lemma_split_on_len(s.drop_last(), sep);
    }
}

/// No piece of a division holds the separator.
pub proof fn lemma_split_pieces_hold_no_separator(s: Seq<char>, sep: char)
    ensures
        forall|k: int, j: int|
            0 <= k < split_on(s, sep).len() && 0 <= j < split_on(s, sep)[k].len()
                ==> #[trigger] split_on(s, sep)[k][j] != sep,
    decreases s.len(),
{
    if s.len() > 0 {
        lemma_split_pieces_hold_no_separator(s.drop_last(), sep);
        lemma_split_on_len(s.drop_last(), sep);
    }
}

/// Putting the pieces of a division together again, with the separator
/// between them, gives the text that was divided.
pub proof fn lemma_split_join(s: Seq<char>, sep: char)
    ensures
        join_with(split_on(s, sep), sep) == s,
    decreases s.len(),
{
    if s.len() > 0 {
        let t = s.drop_last();
        let before = split_on(t, sep);
        let after = split_on(s, sep);
        lemma_split_join(t, sep);
        lemma_split_on_len(t, sep);
        if s.last() == sep {
            assert(after.drop_last() =~= before);
        } else if before.len() > 1 {
            assert(after.drop_last() =~= before.drop_last());
            assert(join_with(after, sep) =~= join_with(before, sep).push(s.last()));
        }
    }
}

/// The division is the only way to cut a text at its separators: pieces
/// that hold no separator and give `s` when they are put together again are
/// the pieces of `s`.
pub proof fn lemma_split_unique(pieces: Seq<Seq<char>>, s: Seq<char>, sep: char)
    requires
        pieces.len() >= 1,
        forall|k: int, j: int|
            0 <= k < pieces.len() && 0 <= j < pieces[k].len() ==> #[trigger] pieces[k][j] != sep,
        join_with(pieces, sep) == s,
    ensures
        pieces == split_on(s, sep),
    decreases s.len(),
{
    let last = pieces.last();
    let front = pieces.drop_last();
    if last.len() == 0 {
        assert(last =~= Seq::<char>::empty());
        if pieces.len() > 1 {
            assert(s.drop_last() =~= join_with(front, sep));
            assert forall|k: int, j: int|
                0 <= k < front.len() && 0 <= j < front[k].len() implies #[trigger] front[k][j]
                != sep by {
                assert(pieces[k][j] != sep);
            }
            lemma_split_unique(front, s.drop_last(), sep);
        }
    } else {
        let shorter = front.push(last.drop_last());
        assert(shorter.drop_last() =~= front);
        if pieces.len() > 1 {
            assert(join_with(shorter, sep) =~= s.drop_last());
        }
        assert forall|k: int, j: int|
            0 <= k < shorter.len() && 0 <= j < shorter[k].len() implies #[trigger] shorter[k][j]
            != sep by {
            assert(pieces[k][j] != sep);
        }
        lemma_split_unique(shorter, s.drop_last(), sep);
        assert(last.drop_last().push(last.last()) =~= last);
    }
}

/// All pieces but the last of the division of a beginning of `s` are
/// pieces of the division of `s`, at the same places.
pub proof fn lemma_split_of_beginning(s: Seq<char>, sep: char, k: int)
    requires
        0 <= k <= s.len(),
    ensures
        split_on(s.take(k), sep).len() <= split_on(s, sep).len(),
        forall|i: int|
            0 <= i < split_on(s.take(k), sep).len() - 1 ==> #[trigger] split_on(s, sep)[i]
                == split_on(s.take(k), sep)[i],
    decreases s.len(),
{
    if k == s.len() {
        assert(s.take(k) =~= s);
    } else {
        assert(s.drop_last().take(k) =~= s.take(k));
        lemma_split_of_beginning(s.drop_last(), sep, k);
        lemma_split_on_len(s.drop_last(), sep);
    }
}

/// A piece before the last is empty only where a separator stands at the
/// start of the text or next to another one.
proof fn lemma_empty_inner_piece(s: Seq<char>, sep: char, k: int)
    requires
        0 <= k < split_on(s, sep).len() - 1,
        split_on(s, sep)[k].len() == 0,
    ensures
        s.len() > 0,
        s[0] == sep || has_adjacent(s, sep),
    decreases s.len(),
{
    if s.len() > 0 {
        let t = s.drop_last();
        let before = split_on(t, sep);
        lemma_split_on_len(t, sep);
        if k < before.len() - 1 {
            lemma_empty_inner_piece(t, sep, k);
            if has_adjacent(t, sep) {
                let i = choose|i: int|
                    0 <= i && i + 1 < t.len() && #[trigger] t[i] == sep && t[i + 1] == sep;
                assert(s[i] == sep && s[i + 1] == sep);
            }
        }
    }
}

/// A division has an empty piece exactly where the text is empty or has a
/// separator at its start, at its end or next to another one.
pub proof fn lemma_separator_leaves_empty_piece(s: Seq<char>, sep: char)
    ensures
        has_empty(split_on(s, sep)) <==> has_stray_separator(s, sep),
{
    let pieces = split_on(s, sep);
    lemma_split_on_len(s, sep);
    if has_empty(pieces) {
        let k = choose|k: int| 0 <= k < pieces.len() && (#[trigger] pieces[k]).len() == 0;
        if k < pieces.len() - 1 {
            lemma_empty_inner_piece(s, sep, k);
        }
    }
    if s.len() == 0 {
        assert(pieces[0].len() == 0);
    } else if s.last() == sep {
        assert(pieces[pieces.len() - 1].len() == 0);
    } else if s[0] == sep {
        let first = split_on(s.take(1), sep);
        assert(s.take(1).drop_last() =~= Seq::<char>::empty());
        assert(split_on(Seq::<char>::empty(), sep) =~= seq![Seq::<char>::empty()]);
        lemma_split_of_beginning(s, sep, 1);
        assert(pieces[0] == first[0]);
    } else if has_adjacent(s, sep) {
        let i = choose|i: int| 0 <= i && i + 1 < s.len() && #[trigger] s[i] == sep && s[i + 1] == sep;
        let upto = split_on(s.take(i + 2), sep);
        assert(s.take(i + 2).drop_last() =~= s.take(i + 1));
        lemma_split_on_len(s.take(i + 1), sep);
        lemma_split_of_beginning(s, sep, i + 2);
        assert(pieces[upto.len() - 2] == upto[upto.len() - 2]);
    }
}

} // verus!
