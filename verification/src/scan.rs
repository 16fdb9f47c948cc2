//! Reading a text: its characters, where a pattern stands in it, and the
//! bounds of its pieces and of its trimmed form.

use crate::text::{
    after_first, before_first, cut, is_first_match, is_whitespace, matches_at, occurs, split_on,
    tiles, trim, trim_end, trim_start, within,
};
use crate::text_lemmas::{lemma_first_index, lemma_first_index_absent};
use vstd::prelude::*;
use vstd::slice::slice_subrange;
use vstd::std_specs::iter::IteratorSpec;

verus! {

/// The characters of `s`, in order.
pub fn to_chars(s: &str) -> (chars: Vec<char>)
    ensures
        chars@ == s@,
{
    let mut chars: Vec<char> = Vec::new();
    let mut rest = s.chars();
    loop
        invariant
            chars@ + rest.remaining() == s@,
            rest.decrease() is Some,
        ensures
            chars@ == s@,
        decreases rest.decrease()->0,
    {
        match rest.next() {
            Some(c) => {
                chars.push(c);
            },
            None => {
                break;
            },
        }
    }
    chars
}

/// Whether `pat` stands in `text` at index `i`.
pub fn stands_at(text: &[char], pat: &[char], i: usize) -> (found: bool)
    ensures
        found == matches_at(text@, pat@, i as int),
{
    if pat.len() > text.len() || i > text.len() - pat.len() {
        return false;
    }
    let mut k: usize = 0;
    while k < pat.len()
        invariant
            k <= pat.len(),
            i + pat.len() <= text.len(),
            forall|j: int| 0 <= j < k ==> text@[i + j] == pat@[j],
        decreases pat.len() - k,
    {
        if text[i + k] != pat[k] {
            proof {
                assert(text@.subrange(i as int, i + pat.len())[k as int] == text@[i + k]);
            }
            return false;
        }
        k += 1;
    }
    proof {
        assert(text@.subrange(i as int, i + pat.len()) =~= pat@);
    }
    true
}

/// The index of the first occurrence of `pat` in `text`, if there is one.
pub fn find(text: &[char], pat: &[char]) -> (found: Option<usize>)
    ensures
        match found {
            Some(i) => is_first_match(text@, pat@, i as int),
            None => !occurs(text@, pat@),
        },
{
    if pat.len() > text.len() {
        return None;
    }
    let last: usize = text.len() - pat.len();
    let mut i: usize = 0;
    loop
        invariant
            last == text.len() - pat.len(),
            i <= last,
            forall|j: int| 0 <= j < i ==> !matches_at(text@, pat@, j),
        decreases last - i,
    {
        if stands_at(text, pat, i) {
            return Some(i);
        }
        if i == last {
            return None;
        }
        i += 1;
    }
}

/// The bounds in `text` of the pieces between the occurrences of `pat`, in
/// the order of the text.
pub fn split_bounds(text: &[char], pat: &[char]) -> (pieces: Vec<(usize, usize)>)
    ensures
        within(pieces@, text@.len()),
        tiles(pieces@, text@.len(), pat@.len()),
        cut(text@, pieces@) == split_on(text@, pat@),
{
    let len: usize = text.len();
    let mut pieces: Vec<(usize, usize)> = Vec::new();
    if pat.len() == 0 {
        pieces.push((0, len));
        proof {
            assert(text@.subrange(0, len as int) =~= text@);
            assert(cut(text@, pieces@) =~= seq![text@]);
        }
        return pieces;
    }
    let mut pos: usize = 0;
    proof {
        assert(text@.subrange(0, len as int) =~= text@);
        assert(cut(text@, pieces@) + split_on(text@, pat@) =~= split_on(text@, pat@));
    }
    loop
        invariant_except_break
            cut(text@, pieces@) + split_on(text@.subrange(pos as int, len as int), pat@)
                == split_on(text@, pat@),
            pieces@.len() == 0 ==> pos == 0,
            pieces@.len() > 0 ==> pos == pieces@.last().1 + pat@.len(),
        invariant
            len == text@.len(),
            pat@.len() > 0,
            pos <= len,
            within(pieces@, text@.len()),
            pieces@.len() > 0 ==> pieces@.first().0 == 0,
            forall|k: int|
                0 <= k < pieces@.len() - 1 ==> (#[trigger] pieces@[k + 1]).0 == pieces@[k].1
                    + pat@.len(),
        ensures
            tiles(pieces@, text@.len(), pat@.len()),
            cut(text@, pieces@) == split_on(text@, pat@),
        decreases len - pos,
    {
        let ghost rest = text@.subrange(pos as int, len as int);
        let ghost done = cut(text@, pieces@);
        match find(slice_subrange(text, pos, len), pat) {
            Some(i) => {
                proof {
                    lemma_first_index(rest, pat@, i as int);
                    assert(before_first(rest, pat@) =~= text@.subrange(pos as int, pos + i));
                    assert(after_first(rest, pat@) =~= text@.subrange(
                        pos + i + pat@.len(),
                        len as int,
                    ));
                }
                pieces.push((pos, pos + i));
                proof {
                    assert(cut(text@, pieces@) =~= done + seq![before_first(rest, pat@)]);
                    assert(cut(text@, pieces@) + split_on(after_first(rest, pat@), pat@) =~= done
                        + split_on(rest, pat@));
                }
                pos = pos + i + pat.len();
            },
            None => {
                proof {
                    lemma_first_index_absent(rest, pat@);
                }
                pieces.push((pos, len));
                proof {
                    assert(cut(text@, pieces@) =~= done + seq![rest]);
                }
                break;
            },
        }
    }
    pieces
}

/// Whether `c` is white space.
pub fn is_whitespace_char(c: char) -> (white: bool)
    ensures
        white == is_whitespace(c),
{
    let n: u32 = c as u32;
    (0x09 <= n && n <= 0x0D) || n == 0x20 || n == 0x85 || n == 0xA0 || n == 0x1680 || (0x2000 <= n
        && n <= 0x200A) || n == 0x2028 || n == 0x2029 || n == 0x202F || n == 0x205F || n == 0x3000
}

/// The bounds in `text` of what is left of it without its leading and
/// trailing white space. Where nothing is left, the bounds are at its end.
pub fn trim_bounds(text: &[char]) -> (bounds: (usize, usize))
    ensures
        bounds.0 <= bounds.1 <= text@.len(),
        text@.subrange(bounds.0 as int, bounds.1 as int) == trim(text@),
        forall|i: int| 0 <= i < bounds.0 ==> is_whitespace(text@[i]),
        forall|i: int| bounds.1 <= i < text@.len() ==> is_whitespace(text@[i]),
        bounds.0 == bounds.1 ==> bounds.0 == text@.len(),
{
    let len: usize = text.len();
    let mut lo: usize = 0;
    proof {
        assert(text@.subrange(0, len as int) =~= text@);
    }
    while lo < len && is_whitespace_char(text[lo])
        invariant
            len == text@.len(),
            lo <= len,
            trim_start(text@.subrange(lo as int, len as int)) == trim_start(text@),
            forall|i: int| 0 <= i < lo ==> is_whitespace(text@[i]),
        decreases len - lo,
    {
        proof {
            assert(text@.subrange(lo as int, len as int).drop_first() =~= text@.subrange(
                lo + 1,
                len as int,
            ));
        }
        lo += 1;
    }
    let mut hi: usize = len;
    while hi > lo && is_whitespace_char(text[hi - 1])
        invariant
            len == text@.len(),
            lo <= hi <= len,
            lo < len ==> !is_whitespace(text@[lo as int]),
            trim_end(text@.subrange(lo as int, hi as int)) == trim(text@),
            forall|i: int| 0 <= i < lo ==> is_whitespace(text@[i]),
            forall|i: int| hi <= i < len ==> is_whitespace(text@[i]),
        decreases hi - lo,
    {
        proof {
            assert(text@.subrange(lo as int, hi as int).drop_last() =~= text@.subrange(
                lo as int,
                hi - 1,
            ));
        }
        hi -= 1;
    }
    (lo, hi)
}

} // verus!
