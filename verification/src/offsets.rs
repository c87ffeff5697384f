//! Byte offsets in texts: where the bytes of the UTF-8 encoding fall between
//! characters, and the edits of a text at such an offset.

use vstd::prelude::*;
use vstd::utf8::{encode_scalar, encode_utf8};
use crate::strings::{byte_len, from_chars, push_range, to_chars};

verus! {

/// The number of bytes in the UTF-8 encoding of `c`, one to four.
pub open spec fn char_width(c: char) -> nat {
    encode_scalar(c as u32).len()
}

/// The offset `p` falls between two characters of `s`, or at its start or
/// end: some number of leading characters of `s` takes up exactly `p` bytes.
pub open spec fn is_boundary(s: Seq<char>, p: nat) -> bool {
    exists|k: int| 0 <= k <= s.len() && byte_len(#[trigger] s.take(k)) == p
}

/// The number of characters of `s` that take up its first `p` bytes, where
/// `p` is a boundary of `s`.
pub open spec fn chars_before(s: Seq<char>, p: nat) -> int {
    choose|k: int| 0 <= k <= s.len() && byte_len(#[trigger] s.take(k)) == p
}

/// `s` with `ins` put in at the boundary `p`.
pub open spec fn inserted(s: Seq<char>, p: nat, ins: Seq<char>) -> Seq<char> {
    s.take(chars_before(s, p)) + ins + s.skip(chars_before(s, p))
}

/// `s` without the character that begins at the boundary `p`.
pub open spec fn removed(s: Seq<char>, p: nat) -> Seq<char> {
    s.take(chars_before(s, p)) + s.skip(chars_before(s, p) + 1)
}

/// The bytes of two texts joined are the bytes of the one and the bytes of
/// the other.
pub proof fn lemma_byte_len_concat(a: Seq<char>, b: Seq<char>)
    ensures
        byte_len(a + b) == byte_len(a) + byte_len(b),
    decreases a.len(),
{
    if a.len() == 0 {
        assert(a + b =~= b);
    } else {
        assert((a + b).drop_first() =~= a.drop_first() + b);
        lemma_byte_len_concat(a.drop_first(), b);
    }
}

/// A character takes up one to four bytes.
pub proof fn lemma_char_width_bound(c: char)
    ensures
        1 <= char_width(c) <= 4,
{
}

/// A text of one character takes up the bytes of that character.
pub proof fn lemma_byte_len_single(c: char)
    ensures
        byte_len(seq![c]) == char_width(c),
{
    let s = seq![c];
    assert(s.drop_first() =~= Seq::<char>::empty());
    assert(encode_utf8(s.drop_first()) =~= Seq::<u8>::empty());
    assert(encode_utf8(s) =~= encode_scalar(c as u32));
}

/// Only the empty text takes up no bytes.
pub proof fn lemma_byte_len_zero(s: Seq<char>)
    ensures
        byte_len(s) == 0 <==> s.len() == 0,
{
    if s.len() > 0 {
        lemma_char_width_bound(s[0]);
    }
}

/// More leading characters take up more bytes.
pub proof fn lemma_prefix_bytes_increase(s: Seq<char>, a: int, b: int)
    requires
        0 <= a < b <= s.len(),
    ensures
        byte_len(s.take(a)) < byte_len(s.take(b)),
    decreases b - a,
{
    assert(s.take(b) =~= s.take(b - 1) + seq![s[b - 1]]);
    lemma_byte_len_concat(s.take(b - 1), seq![s[b - 1]]);
    lemma_byte_len_single(s[b - 1]);
    lemma_char_width_bound(s[b - 1]);
    if a < b - 1 {
        lemma_prefix_bytes_increase(s, a, b - 1);
    }
}

/// The leading characters that take up a given number of bytes are
/// determined by that number.
pub proof fn lemma_chars_before_is(s: Seq<char>, k: int)
    requires
        0 <= k <= s.len(),
    ensures
        is_boundary(s, byte_len(s.take(k))),
        chars_before(s, byte_len(s.take(k))) == k,
{
    let p = byte_len(s.take(k));
    let found = chars_before(s, p);
    if found < k {
        lemma_prefix_bytes_increase(s, found, k);
    } else if k < found {
        lemma_prefix_bytes_increase(s, k, found);
    }
}

/// The number of bytes in the UTF-8 encoding of `c`.
pub fn width_of(c: char) -> (w: usize)
    ensures
        w == char_width(c),
        1 <= w <= 4,
{
    let u: u32 = c as u32;
    if u < 0x80 {
        1
    } else if u < 0x800 {
        2
    } else if u < 0x10000 {
        3
    } else {
        4
    }
}

/// The number of characters of `chars` that take up its first `p` bytes, if
/// `p` is a boundary.
pub fn char_index(chars: &Vec<char>, p: usize) -> (r: Option<usize>)
    ensures
        match r {
            Some(k) => is_boundary(chars@, p as nat) && k == chars_before(chars@, p as nat) && k
                <= chars.len() && byte_len(chars@.take(k as int)) == p,
            None => !is_boundary(chars@, p as nat),
        },
{
    let mut k: usize = 0;
    let mut total: usize = 0;
    assert(chars@.take(0) =~= Seq::<char>::empty());
    while total < p
        invariant
            k <= chars.len(),
            total <= p,
            total == byte_len(chars@.take(k as int)),
        decreases chars.len() - k,
    {
        if k == chars.len() {
            proof {
                assert forall|j: int| 0 <= j <= chars@.len() implies byte_len(
                    #[trigger] chars@.take(j),
                ) != p by {
                    if j < k {
                        lemma_prefix_bytes_increase(chars@, j, k as int);
                    }
                }
            }
            return None;
        }
        let w = width_of(chars[k]);
        proof {
            assert(chars@.take(k + 1) =~= chars@.take(k as int) + seq![chars@[k as int]]);
            lemma_byte_len_concat(chars@.take(k as int), seq![chars@[k as int]]);
            lemma_byte_len_single(chars@[k as int]);
        }
        if w > p - total {
            proof {
                assert forall|j: int| 0 <= j <= chars@.len() implies byte_len(
                    #[trigger] chars@.take(j),
                ) != p by {
                    if j < k {
                        lemma_prefix_bytes_increase(chars@, j, k as int);
                    } else if j == k {
                    } else if j > k + 1 {
                        lemma_prefix_bytes_increase(chars@, k + 1, j);
                    }
                }
            }
            return None;
        }
        total = total + w;
        k += 1;
    }
    proof {
        lemma_chars_before_is(chars@, k as int);
    }
    Some(k)
}

/// The two parts of `text` before and after the byte offset `p`, if `p` is
/// a boundary of `text`.
pub fn split_text(text: &str, p: usize) -> (r: Option<(String, String)>)
    ensures
        match r {
            Some((before, after)) => is_boundary(text@, p as nat) && before@ == text@.take(
                chars_before(text@, p as nat),
            ) && after@ == text@.skip(chars_before(text@, p as nat)) && byte_len(before@) == p,
            None => !is_boundary(text@, p as nat),
        },
{
    let chars = to_chars(text);
    match char_index(&chars, p) {
        Some(k) => {
            let before = from_chars(&chars, 0, k);
            let after = from_chars(&chars, k, chars.len());
            assert(before@ =~= text@.take(k as int));
            assert(after@ =~= text@.skip(k as int));
            Some((before, after))
        },
        None => None,
    }
}

/// `text` with `ins` put in at the byte offset `p`, if `p` is a boundary of
/// `text`.
pub fn insert_text(text: &str, p: usize, ins: &str) -> (r: Option<String>)
    ensures
        match r {
            Some(edited) => is_boundary(text@, p as nat) && edited@ == inserted(
                text@,
                p as nat,
                ins@,
            ),
            None => !is_boundary(text@, p as nat),
        },
{
    let chars = to_chars(text);
    match char_index(&chars, p) {
        Some(k) => {
            let mut edited = from_chars(&chars, 0, k);
            let added = to_chars(ins);
            push_range(&mut edited, &added, 0, added.len());
            push_range(&mut edited, &chars, k, chars.len());
            assert(added@.subrange(0, added.len() as int) =~= ins@);
            assert(edited@ =~= inserted(text@, p as nat, ins@));
            Some(edited)
        },
        None => None,
    }
}

/// `text` without the character that begins at the byte offset `p`, if a
/// character begins there.
pub fn remove_char(text: &str, p: usize) -> (r: Option<String>)
    ensures
        match r {
            Some(edited) => is_boundary(text@, p as nat) && p < byte_len(text@) && edited@
                == removed(text@, p as nat),
            None => !(is_boundary(text@, p as nat) && p < byte_len(text@)),
        },
{
    let chars = to_chars(text);
    assert(chars@.take(chars.len() as int) =~= chars@);
    match char_index(&chars, p) {
        Some(k) => {
            if k < chars.len() {
                proof {
                    lemma_prefix_bytes_increase(chars@, k as int, chars.len() as int);
                }
                let mut edited = from_chars(&chars, 0, k);
                push_range(&mut edited, &chars, k + 1, chars.len());
                assert(edited@ =~= removed(text@, p as nat));
                Some(edited)
            } else {
                None
            }
        },
        None => None,
    }
}

} // verus!
