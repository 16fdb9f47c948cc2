//! Facts about occurrences, splitting, joining and trimming.

use crate::text::{
    after_first, before_first, ends_at, first_index, free_of, is_first_match, is_whitespace, join,
    matches_at, occurs, split_on, trim, trim_end, trim_start,
};
use vstd::prelude::*;

verus! {

/// A first occurrence is the one that `first_index` names.
pub proof fn lemma_first_index(s: Seq<char>, pat: Seq<char>, i: int)
    requires
        is_first_match(s, pat, i),
    ensures
        first_index(s, pat) == i,
{
    let j = first_index(s, pat);
    assert(is_first_match(s, pat, j));
    if j < i {
        assert(!matches_at(s, pat, j));
    }
    if i < j {
        assert(!matches_at(s, pat, i));
    }
}

/// Where `pat` does not occur, `first_index` names no occurrence.
pub proof fn lemma_first_index_absent(s: Seq<char>, pat: Seq<char>)
    requires
        !occurs(s, pat),
    ensures
        !matches_at(s, pat, first_index(s, pat)),
{
}

/// Where `pat` occurs, it has a first occurrence, and `first_index` names it.
pub proof fn lemma_first_index_present(s: Seq<char>, pat: Seq<char>)
    requires
        occurs(s, pat),
    ensures
        is_first_match(s, pat, first_index(s, pat)),
{
    let i = choose|i: int| matches_at(s, pat, i);
    lemma_least_match(s, pat, i);
}

/// An occurrence at `i` gives a first occurrence at or before `i`.
proof fn lemma_least_match(s: Seq<char>, pat: Seq<char>, i: int)
    requires
        matches_at(s, pat, i),
    ensures
        exists|j: int| is_first_match(s, pat, j),
    decreases i,
{
    if exists|j: int| 0 <= j < i && matches_at(s, pat, j) {
        let j = choose|j: int| 0 <= j < i && matches_at(s, pat, j);
        lemma_least_match(s, pat, j);
    } else {
        assert(is_first_match(s, pat, i));
    }
}

/// A split yields at least one piece.
pub proof fn lemma_split_on_nonempty(s: Seq<char>, pat: Seq<char>)
    ensures
        split_on(s, pat).len() >= 1,
{
}

/// An occurrence in a part of a text is an occurrence in the text.
pub proof fn lemma_match_in_part(s: Seq<char>, pat: Seq<char>, from: int, to: int, i: int)
    requires
        0 <= from <= to <= s.len(),
        matches_at(s.subrange(from, to), pat, i),
    ensures
        matches_at(s, pat, from + i),
{
    assert(s.subrange(from + i, from + i + pat.len()) =~= s.subrange(from, to).subrange(
        i,
        i + pat.len(),
    ));
}

/// A nonempty pattern splits a text in two or more pieces exactly where it
/// occurs in the text.
pub proof fn lemma_split_on_count(s: Seq<char>, pat: Seq<char>)
    requires
        pat.len() > 0,
    ensures
        split_on(s, pat).len() >= 2 <==> occurs(s, pat),
{
    if occurs(s, pat) {
        lemma_first_index_present(s, pat);
        lemma_split_on_nonempty(after_first(s, pat), pat);
    }
}

/// Splitting loses nothing: the pieces, joined by the pattern, are the text.
pub proof fn lemma_join_split(s: Seq<char>, pat: Seq<char>)
    ensures
        join(split_on(s, pat), pat) == s,
    decreases s.len(),
{
    if pat.len() > 0 && matches_at(s, pat, first_index(s, pat)) {
        let i = first_index(s, pat);
        let rest = split_on(after_first(s, pat), pat);
        lemma_join_split(after_first(s, pat), pat);
        lemma_split_on_nonempty(after_first(s, pat), pat);
        assert(split_on(s, pat).drop_first() =~= rest);
        assert(before_first(s, pat) + pat + after_first(s, pat) =~= s) by {
            assert(s.subrange(i, i + pat.len()) == pat);
        }
    }
}

/// A piece that ends at the pattern that follows it is what stands before
/// the first occurrence of the pattern, and all that follows the pattern is
/// what stands after it.
pub proof fn lemma_first_after_piece(piece: Seq<char>, pat: Seq<char>, rest: Seq<char>)
    requires
        ends_at(piece, pat),
    ensures
        is_first_match(piece + pat + rest, pat, piece.len() as int),
        first_index(piece + pat + rest, pat) == piece.len(),
        before_first(piece + pat + rest, pat) == piece,
        after_first(piece + pat + rest, pat) == rest,
{
    let s = piece + pat + rest;
    let n = piece.len() as int;
    assert(s.subrange(n, n + pat.len()) =~= pat);
    assert forall|j: int| 0 <= j < n implies !matches_at(s, pat, j) by {
        assert(s.subrange(j, j + pat.len()) =~= (piece + pat).subrange(j, j + pat.len()));
        assert(!matches_at(piece + pat, pat, j));
    }
    lemma_first_index(s, pat, n);
    assert(before_first(s, pat) =~= piece);
    assert(after_first(s, pat) =~= rest);
}

/// Splitting undoes joining, where each piece but the last ends at the
/// pattern that follows it and the pattern does not occur in the last.
pub proof fn lemma_split_join(pieces: Seq<Seq<char>>, pat: Seq<char>)
    requires
        pat.len() > 0,
        pieces.len() >= 1,
        forall|k: int| 0 <= k < pieces.len() - 1 ==> ends_at(#[trigger] pieces[k], pat),
        !occurs(pieces.last(), pat),
    ensures
        split_on(join(pieces, pat), pat) == pieces,
    decreases pieces.len(),
{
    let s = join(pieces, pat);
    if pieces.len() == 1 {
        assert(split_on(s, pat) =~= pieces);
    } else {
        let tail = pieces.drop_first();
        assert forall|k: int| 0 <= k < tail.len() - 1 implies ends_at(#[trigger] tail[k], pat) by {
            assert(tail[k] == pieces[k + 1]);
        }
        assert(tail.last() == pieces.last());
        lemma_split_join(tail, pat);
        assert(ends_at(pieces[0], pat));
        lemma_first_after_piece(pieces[0], pat, join(tail, pat));
        assert(split_on(s, pat) =~= pieces);
    }
}

/// A piece ends at a separator of one character twice, where the separator
/// does not occur in the piece and the piece does not end with the character.
pub proof fn lemma_ends_at_doubled(piece: Seq<char>, c: char)
    requires
        !occurs(piece, seq![c, c]),
        piece.len() == 0 || piece.last() != c,
    ensures
        ends_at(piece, seq![c, c]),
{
    let pat = seq![c, c];
    assert forall|j: int| 0 <= j < piece.len() implies !matches_at(piece + pat, pat, j) by {
        if matches_at(piece + pat, pat, j) {
            let found = (piece + pat).subrange(j, j + 2);
            assert(found[0] == c && found[1] == c);
            if j + 1 < piece.len() {
                assert(piece.subrange(j, j + 2) =~= pat);
                assert(matches_at(piece, pat, j));
            } else {
                assert(piece.last() == (piece + pat)[j]);
            }
        }
    }
}

/// Pieces that are each followed by a separator of one character twice, and
/// a last piece after them, come back from a split of their join: where the
/// separator occurs in none of them and none of the pieces before the last
/// ends with the character.
pub proof fn lemma_split_join_doubled(pieces: Seq<Seq<char>>, last: Seq<char>, c: char)
    requires
        forall|k: int| 0 <= k < pieces.len() ==> !occurs(#[trigger] pieces[k], seq![c, c]),
        forall|k: int|
            0 <= k < pieces.len() ==> (#[trigger] pieces[k]).len() == 0 || pieces[k].last() != c,
        !occurs(last, seq![c, c]),
    ensures
        split_on(join(pieces.push(last), seq![c, c]), seq![c, c]) == pieces.push(last),
{
    let all = pieces.push(last);
    assert forall|k: int| 0 <= k < all.len() - 1 implies ends_at(#[trigger] all[k], seq![c, c]) by {
        assert(all[k] == pieces[k]);
        lemma_ends_at_doubled(pieces[k], c);
    }
    lemma_split_join(all, seq![c, c]);
}

/// Lines that hold no newline come back from a split of their join: with a
/// one-character separator that stands in no piece, splitting undoes joining.
pub proof fn lemma_split_join_char(pieces: Seq<Seq<char>>, c: char)
    requires
        pieces.len() >= 1,
        forall|k: int| 0 <= k < pieces.len() ==> free_of(#[trigger] pieces[k], c),
    ensures
        split_on(join(pieces, seq![c]), seq![c]) == pieces,
{
    let pat = seq![c];
    assert forall|k: int| 0 <= k < pieces.len() implies ends_at(#[trigger] pieces[k], pat)
        && !occurs(pieces[k], pat) by {
        let piece = pieces[k];
        assert(free_of(piece, c));
        assert forall|j: int| 0 <= j < piece.len() implies !matches_at(piece + pat, pat, j) by {
            if matches_at(piece + pat, pat, j) {
                assert((piece + pat).subrange(j, j + 1)[0] == c);
                assert((piece + pat)[j] == piece[j]);
            }
        }
        assert forall|j: int| !matches_at(piece, pat, j) by {
            if matches_at(piece, pat, j) {
                assert(piece.subrange(j, j + 1)[0] == c);
            }
        }
    }
    lemma_split_join(pieces, pat);
}

/// A text without white space at either end is its own trimmed form.
pub proof fn lemma_trim_unchanged(s: Seq<char>)
    requires
        s.len() == 0 || (!is_whitespace(s.first()) && !is_whitespace(s.last())),
    ensures
        trim(s) == s,
{
}

/// A trimmed text has no white space at either end and is a part of the
/// text it was trimmed from, with nothing but white space around it there.
pub proof fn lemma_trim_bounds(s: Seq<char>) -> (bounds: (int, int))
    ensures
        0 <= bounds.0 <= bounds.1 <= s.len(),
        trim(s) == s.subrange(bounds.0, bounds.1),
        forall|i: int| 0 <= i < bounds.0 ==> is_whitespace(s[i]),
        forall|i: int| bounds.1 <= i < s.len() ==> is_whitespace(s[i]),
        trim(s).len() > 0 ==> !is_whitespace(trim(s).first()) && !is_whitespace(trim(s).last()),
{
    let lo = lemma_trim_start_bound(s);
    let t = trim_start(s);
    let len = lemma_trim_end_bound(t);
    assert(t.subrange(0, len) =~= s.subrange(lo, lo + len));
    assert forall|i: int| lo + len <= i < s.len() implies is_whitespace(s[i]) by {
        assert(s[i] == t[i - lo]);
    }
    if trim(s).len() > 0 {
        assert(trim(s).first() == t.first());
    }
    (lo, lo + len)
}

/// Where the leading white space of `s` ends.
proof fn lemma_trim_start_bound(s: Seq<char>) -> (lo: int)
    ensures
        0 <= lo <= s.len(),
        trim_start(s) == s.subrange(lo, s.len() as int),
        forall|i: int| 0 <= i < lo ==> is_whitespace(s[i]),
        lo < s.len() ==> !is_whitespace(s[lo]),
    decreases s.len(),
{
    if s.len() > 0 && is_whitespace(s.first()) {
        let rest = s.drop_first();
        let lo = lemma_trim_start_bound(rest);
        assert(rest.subrange(lo, rest.len() as int) =~= s.subrange(lo + 1, s.len() as int));
        assert forall|i: int| 0 <= i < lo + 1 implies is_whitespace(s[i]) by {
            if i > 0 {
                assert(s[i] == rest[i - 1]);
            }
        }
        if lo < rest.len() {
            assert(rest[lo] == s[lo + 1]);
        }
        lo + 1
    } else {
        assert(s.subrange(0, s.len() as int) =~= s);
        0
    }
}

/// Where the trailing white space of `s` begins.
proof fn lemma_trim_end_bound(s: Seq<char>) -> (hi: int)
    ensures
        0 <= hi <= s.len(),
        trim_end(s) == s.subrange(0, hi),
        forall|i: int| hi <= i < s.len() ==> is_whitespace(s[i]),
        hi > 0 ==> !is_whitespace(s[hi - 1]),
    decreases s.len(),
{
    if s.len() > 0 && is_whitespace(s.last()) {
        let rest = s.drop_last();
        let hi = lemma_trim_end_bound(rest);
        assert(rest.subrange(0, hi) =~= s.subrange(0, hi));
        assert forall|i: int| hi <= i < s.len() implies is_whitespace(s[i]) by {
            if i < s.len() - 1 {
                assert(s[i] == rest[i]);
            }
        }
        if hi > 0 {
            assert(rest[hi - 1] == s[hi - 1]);
        }
        hi
    } else {
        assert(s.subrange(0, s.len() as int) =~= s);
        s.len() as int
    }
}

} // verus!
