//! Text as a sequence of characters: what it means that a pattern occurs in
//! a text, that a text is split on a pattern or joined by one, and that it is
//! trimmed of white space.

use vstd::prelude::*;

verus! {

/// `pat` stands in `s` at index `i`.
pub open spec fn matches_at(s: Seq<char>, pat: Seq<char>, i: int) -> bool {
    &&& 0 <= i
    &&& i + pat.len() <= s.len()
    &&& s.subrange(i, i + pat.len()) == pat
}

/// `pat` stands somewhere in `s`.
pub open spec fn occurs(s: Seq<char>, pat: Seq<char>) -> bool {
    exists|i: int| matches_at(s, pat, i)
}

/// `pat` stands in `s` at index `i` and at no smaller index.
pub open spec fn is_first_match(s: Seq<char>, pat: Seq<char>, i: int) -> bool {
    &&& matches_at(s, pat, i)
    &&& forall|j: int| 0 <= j < i ==> !matches_at(s, pat, j)
}

/// The smallest index at which `pat` stands in `s`. Where `pat` does not occur
/// the value is arbitrary, and `pat` does not stand there.
pub open spec fn first_index(s: Seq<char>, pat: Seq<char>) -> int {
    choose|i: int| is_first_match(s, pat, i)
}

/// The part of `s` before the first occurrence of `pat`.
pub open spec fn before_first(s: Seq<char>, pat: Seq<char>) -> Seq<char> {
    s.subrange(0, first_index(s, pat))
}

/// The part of `s` after the first occurrence of `pat`.
pub open spec fn after_first(s: Seq<char>, pat: Seq<char>) -> Seq<char> {
    s.subrange(first_index(s, pat) + pat.len(), s.len() as int)
}

/// The pieces of `s` between the occurrences of `pat`, found from the left and
/// without overlap. There is always at least one piece; a text in which a
/// nonempty `pat` does not occur is its own single piece.
pub open spec fn split_on(s: Seq<char>, pat: Seq<char>) -> Seq<Seq<char>>
    decreases s.len(),
{
    if pat.len() > 0 && matches_at(s, pat, first_index(s, pat)) {
        seq![before_first(s, pat)] + split_on(after_first(s, pat), pat)
    } else {
        seq![s]
    }
}

/// The pieces put together again, with `sep` between each two neighbours.
pub open spec fn join(pieces: Seq<Seq<char>>, sep: Seq<char>) -> Seq<char>
    decreases pieces.len(),
{
    if pieces.len() == 0 {
        Seq::empty()
    } else if pieces.len() == 1 {
        pieces[0]
    } else {
        pieces[0] + sep + join(pieces.drop_first(), sep)
    }
}

/// Joined to what follows by `pat`, `piece` ends where `pat` first occurs:
/// `pat` does not begin inside `piece`, not even to run on into the `pat`
/// that follows.
pub open spec fn ends_at(piece: Seq<char>, pat: Seq<char>) -> bool {
    forall|j: int| 0 <= j < piece.len() ==> !matches_at(piece + pat, pat, j)
}

/// The character `c` does not stand in `s`.
pub open spec fn free_of(s: Seq<char>, c: char) -> bool {
    forall|i: int| 0 <= i < s.len() ==> s[i] != c
}

/// The characters that carry the Unicode property `White_Space`.
pub open spec fn is_whitespace(c: char) -> bool {
    let n = c as u32;
    ||| 0x09 <= n <= 0x0D
    ||| n == 0x20
    ||| n == 0x85
    ||| n == 0xA0
    ||| n == 0x1680
    ||| 0x2000 <= n <= 0x200A
    ||| n == 0x2028
    ||| n == 0x2029
    ||| n == 0x202F
    ||| n == 0x205F
    ||| n == 0x3000
}

/// `s` without its leading white space.
pub open spec fn trim_start(s: Seq<char>) -> Seq<char>
    decreases s.len(),
{
    if s.len() > 0 && is_whitespace(s.first()) {
        trim_start(s.drop_first())
    } else {
        s
    }
}

/// `s` without its trailing white space.
pub open spec fn trim_end(s: Seq<char>) -> Seq<char>
    decreases s.len(),
{
    if s.len() > 0 && is_whitespace(s.last()) {
        trim_end(s.drop_last())
    } else {
        s
    }
}

/// `s` without its leading and trailing white space.
pub open spec fn trim(s: Seq<char>) -> Seq<char> {
    trim_end(trim_start(s))
}

/// The parts of `s` that the index pairs in `bounds` delimit, in order.
pub open spec fn cut(s: Seq<char>, bounds: Seq<(usize, usize)>) -> Seq<Seq<char>> {
    Seq::new(bounds.len(), |k: int| s.subrange(bounds[k].0 as int, bounds[k].1 as int))
}

/// The pairs in `bounds` lie one after the other in a text of length `len`:
/// the first begins where the text begins, the last ends where it ends, and
/// `gap` characters lie between each two neighbours.
pub open spec fn tiles(bounds: Seq<(usize, usize)>, len: nat, gap: nat) -> bool {
    &&& bounds.len() >= 1
    &&& bounds.first().0 == 0
    &&& bounds.last().1 == len
    &&& forall|k: int|
        0 <= k < bounds.len() - 1 ==> (#[trigger] bounds[k + 1]).0 == bounds[k].1 + gap
}

/// Every pair in `bounds` delimits a part of a text of length `len`.
pub open spec fn within(bounds: Seq<(usize, usize)>, len: nat) -> bool {
    forall|k: int| 0 <= k < bounds.len() ==> (#[trigger] bounds[k]).0 <= bounds[k].1 <= len
}

} // verus!
