//! Character sequences: the mathematical vocabulary shared by the tokenizer
//! and the document model, with executable counterparts over `Vec<char>`.

use vstd::prelude::*;
use vstd::utf8::encode_utf8;

verus! {

/// `String::push` appends exactly the given character.
pub assume_specification[ String::push ](s: &mut String, ch: char)
    ensures
        final(s)@ == old(s)@.push(ch),
;

/// The Unicode characters with the `White_Space` property.
pub open spec fn is_whitespace(c: char) -> bool {
    let u = c as u32;
    ||| 0x09 <= u <= 0x0D
    ||| u == 0x20
    ||| u == 0x85
    ||| u == 0xA0
    ||| u == 0x1680
    ||| 0x2000 <= u <= 0x200A
    ||| u == 0x2028
    ||| u == 0x2029
    ||| u == 0x202F
    ||| u == 0x205F
    ||| u == 0x3000
}

/// A text is blank when every character in it is white space.
pub open spec fn is_blank(s: Seq<char>) -> bool {
    forall|i: int| 0 <= i < s.len() ==> is_whitespace(#[trigger] s[i])
}

/// The number of bytes in the UTF-8 encoding of `s`.
pub open spec fn byte_len(s: Seq<char>) -> nat {
    encode_utf8(s).len()
}

/// The number of bytes of `text`.
pub fn text_len(text: &str) -> (n: usize)
    ensures
        n == byte_len(text@),
{
    text.as_bytes().len()
}

/// Whether `c` is white space.
pub fn char_is_whitespace(c: char) -> (b: bool)
    ensures
        b == is_whitespace(c),
{
    let u: u32 = c as u32;
    (0x09 <= u && u <= 0x0D) || u == 0x20 || u == 0x85 || u == 0xA0 || u == 0x1680 || (0x2000 <= u
        && u <= 0x200A) || u == 0x2028 || u == 0x2029 || u == 0x202F || u == 0x205F || u == 0x3000
}

/// The characters of a string, in order.
pub fn to_chars(s: &str) -> (v: Vec<char>)
    ensures
        v@ == s@,
{
    let mut v: Vec<char> = Vec::new();
    for c in it: s.chars()
        invariant
            v@ == it.seq().take(it.index() as int),
            it.seq() == s@,
    {
        v.push(c);
    }
    v
}

/// The string made of `v[from..to]`.
pub fn from_chars(v: &Vec<char>, from: usize, to: usize) -> (s: String)
    requires
        from <= to <= v.len(),
    ensures
        s@ == v@.subrange(from as int, to as int),
{
    let mut s = String::new();
    let mut i: usize = from;
    while i < to
        invariant
            from <= i <= to <= v.len(),
            s@ == v@.subrange(from as int, i as int),
        decreases to - i,
    {
        s.push(v[i]);
        i += 1;
    }
    s
}

/// Whether `v[from..to]` is blank.
pub fn range_is_blank(v: &Vec<char>, from: usize, to: usize) -> (b: bool)
    requires
        from <= to <= v.len(),
    ensures
        b == is_blank(v@.subrange(from as int, to as int)),
{
    let mut i: usize = from;
    while i < to
        invariant
            from <= i <= to <= v.len(),
            is_blank(v@.subrange(from as int, i as int)),
        decreases to - i,
    {
        if !char_is_whitespace(v[i]) {
            assert(v@.subrange(from as int, to as int)[i - from] == v@[i as int]);
            return false;
        }
        assert forall|k: int| 0 <= k < i + 1 - from implies is_whitespace(
            #[trigger] v@.subrange(from as int, i + 1)[k],
        ) by {
            if k < i - from {
                assert(v@.subrange(from as int, i as int)[k] == v@[from + k]);
            }
        }
        i += 1;
    }
    true
}

/// `s` begins with the characters of `p`.
pub open spec fn has_prefix(s: Seq<char>, p: Seq<char>) -> bool {
    p.len() <= s.len() && forall|i: int| 0 <= i < p.len() ==> s[i] == #[trigger] p[i]
}

/// `s` with every occurrence of `pat` replaced by `rep`, occurrences being
/// taken from left to right and never overlapping. An empty pattern occurs
/// nowhere.
pub open spec fn replace_all(s: Seq<char>, pat: Seq<char>, rep: Seq<char>) -> Seq<char>
    decreases s.len(),
{
    if s.len() == 0 || pat.len() == 0 {
        s
    } else if has_prefix(s, pat) {
        rep + replace_all(s.skip(pat.len() as int), pat, rep)
    } else {
        seq![s[0]] + replace_all(s.skip(1), pat, rep)
    }
}

/// Whether `a` stands directly before `b` somewhere in `s`.
pub open spec fn has_pair(s: Seq<char>, a: char, b: char) -> bool {
    exists|i: int| 0 <= i && i + 1 < s.len() && #[trigger] s[i] == a && s[i + 1] == b
}

/// A text in which the pattern occurs nowhere is left as it is.
pub proof fn lemma_replace_nothing(s: Seq<char>, pat: Seq<char>, rep: Seq<char>)
    requires
        forall|i: int| 0 <= i < s.len() ==> !has_prefix(#[trigger] s.skip(i), pat),
    ensures
        replace_all(s, pat, rep) == s,
    decreases s.len(),
{
    if s.len() > 0 && pat.len() > 0 {
        assert(s.skip(0) =~= s);
        assert forall|i: int| 0 <= i < s.skip(1).len() implies !has_prefix(
            #[trigger] s.skip(1).skip(i),
            pat,
        ) by {
            assert(s.skip(1).skip(i) =~= s.skip(i + 1));
        }
        lemma_replace_nothing(s.skip(1), pat, rep);
        assert(seq![s[0]] + s.skip(1) =~= s);
    }
}

/// A text without the character `c` is left as it is where `c` is replaced.
pub proof fn lemma_replace_absent_char(s: Seq<char>, c: char, rep: Seq<char>)
    requires
        !s.contains(c),
    ensures
        replace_all(s, seq![c], rep) == s,
{
    assert forall|i: int| 0 <= i < s.len() implies !has_prefix(#[trigger] s.skip(i), seq![c]) by {
        if has_prefix(s.skip(i), seq![c]) {
            assert(s.skip(i)[0] == seq![c][0]);
            assert(s[i] == c);
        }
    }
    lemma_replace_nothing(s, seq![c], rep);
}

/// A text in which `a` never stands directly before `b`, or never stands at
/// all, is left as it is where `a` followed by `b` is replaced.
pub proof fn lemma_replace_absent_pair(s: Seq<char>, a: char, b: char, rep: Seq<char>)
    requires
        !has_pair(s, a, b) || !s.contains(a),
    ensures
        replace_all(s, seq![a, b], rep) == s,
{
    assert forall|i: int| 0 <= i < s.len() implies !has_prefix(
        #[trigger] s.skip(i),
        seq![a, b],
    ) by {
        if has_prefix(s.skip(i), seq![a, b]) {
            assert(s.skip(i)[0] == seq![a, b][0]);
            assert(s.skip(i)[1] == seq![a, b][1]);
            assert(s[i] == a && s[i + 1] == b);
        }
    }
    lemma_replace_nothing(s, seq![a, b], rep);
}

/// What a replacement begins with: the replacing text where the text begins
/// with the pattern, and the first character of the text otherwise.
proof fn lemma_replace_first(s: Seq<char>, pat: Seq<char>, rep: Seq<char>)
    requires
        pat.len() > 0,
        rep.len() > 0,
        s.len() > 0,
    ensures
        replace_all(s, pat, rep).len() > 0,
        replace_all(s, pat, rep)[0] == if has_prefix(s, pat) {
            rep[0]
        } else {
            s[0]
        },
{
}

/// A replacement holds the character `c` nowhere, if the replacing text
/// does not hold it and the text holds it nowhere but in the pattern `c`.
pub proof fn lemma_replace_without_char(s: Seq<char>, pat: Seq<char>, rep: Seq<char>, c: char)
    requires
        pat.len() > 0,
        !rep.contains(c),
        !s.contains(c) || pat == seq![c],
    ensures
        !replace_all(s, pat, rep).contains(c),
    decreases s.len(),
{
    let out = replace_all(s, pat, rep);
    if s.len() > 0 {
        let (head, rest) = if has_prefix(s, pat) {
            (rep, s.skip(pat.len() as int))
        } else {
            (seq![s[0]], s.skip(1))
        };
        if s.contains(c) {
        } else {
            assert forall|i: int| 0 <= i < rest.len() implies rest[i] != c by {
                assert(s.contains(rest[i]));
            }
        }
        lemma_replace_without_char(rest, pat, rep, c);
        let tail = replace_all(rest, pat, rep);
        assert(out == head + tail);
        if !has_prefix(s, pat) && s[0] == c {
            assert(s.contains(c));
            assert(pat == seq![c]);
            assert(has_prefix(s, pat));
        }
        assert forall|i: int| 0 <= i < out.len() implies out[i] != c by {
            if i < head.len() {
                assert(out[i] == head[i]);
                if has_prefix(s, pat) {
                    assert(rep.contains(rep[i]));
                }
            } else {
                assert(out[i] == tail[i - head.len()]);
                assert(tail.contains(tail[i - head.len()]));
            }
        }
    }
}

/// In a replacement `a` stands nowhere directly before `b`, if it does not
/// in the replacing text, which neither begins with `b` nor ends with `a`,
/// and if in the text it does so nowhere but in the pattern `a`, `b`.
pub proof fn lemma_replace_without_pair(
    s: Seq<char>,
    pat: Seq<char>,
    rep: Seq<char>,
    a: char,
    b: char,
)
    requires
        pat.len() > 0,
        rep.len() > 0,
        !has_pair(rep, a, b),
        rep[0] != b,
        rep.last() != a,
        !has_pair(s, a, b) || pat == seq![a, b],
    ensures
        !has_pair(replace_all(s, pat, rep), a, b),
    decreases s.len(),
{
    let out = replace_all(s, pat, rep);
    if s.len() > 0 {
        let matched = has_prefix(s, pat);
        let (head, rest) = if matched {
            (rep, s.skip(pat.len() as int))
        } else {
            (seq![s[0]], s.skip(1))
        };
        if !has_pair(s, a, b) {
            assert forall|i: int| 0 <= i && i + 1 < rest.len() implies !(#[trigger] rest[i] == a
                && rest[i + 1] == b) by {
                let k = s.len() - rest.len();
                assert(rest[i] == s[i + k] && rest[i + 1] == s[i + k + 1]);
            }
        }
        lemma_replace_without_pair(rest, pat, rep, a, b);
        let tail = replace_all(rest, pat, rep);
        assert(out == head + tail);
        if rest.len() > 0 {
            lemma_replace_first(rest, pat, rep);
        }
        assert forall|i: int| 0 <= i && i + 1 < out.len() implies !(#[trigger] out[i] == a
            && out[i + 1] == b) by {
            if i + 1 < head.len() {
                assert(out[i] == head[i] && out[i + 1] == head[i + 1]);
            } else if i >= head.len() {
                assert(out[i] == tail[i - head.len()] && out[i + 1] == tail[i + 1 - head.len()]);
            } else {
                assert(out[i] == head.last());
                assert(out[i + 1] == tail[0]);
                if !matched {
                    if tail[0] != rep[0] || !has_prefix(rest, pat) {
                        assert(tail[0] == rest[0]);
                        assert(rest[0] == s[1]);
                        if s[0] == a && s[1] == b {
                            if pat == seq![a, b] {
                                assert(has_prefix(s, pat));
                            }
                        }
                    }
                }
            }
        }
    }
}

/// The number of characters before the first `sep` in `s`, or the length of
/// `s` when it holds none.
pub open spec fn span_before(s: Seq<char>, sep: char) -> nat
    decreases s.len(),
{
    if s.len() == 0 || s[0] == sep {
        0
    } else {
        1 + span_before(s.skip(1), sep)
    }
}

/// The fields of `s`: the pieces between occurrences of `sep`. A text
/// without `sep` is one field, and so is the empty text.
pub open spec fn fields(s: Seq<char>, sep: char) -> Seq<Seq<char>>
    decreases s.len(),
{
    let n = span_before(s, sep);
    if n >= s.len() {
        seq![s]
    } else {
        seq![s.take(n as int)] + fields(s.skip(n as int + 1), sep)
    }
}

/// The text before the first `sep` of `s` and the text after it, if `s`
/// holds `sep`.
pub open spec fn cut(s: Seq<char>, sep: char) -> Option<(Seq<char>, Seq<char>)> {
    let n = span_before(s, sep);
    if n < s.len() {
        Some((s.take(n as int), s.skip(n as int + 1)))
    } else {
        None
    }
}

/// The lines of `s`: the pieces between line feeds. A line feed ends a line,
/// so what follows the last line feed is a line only when it is not empty.
pub open spec fn lines(s: Seq<char>) -> Seq<Seq<char>>
    decreases s.len(),
{
    let n = span_before(s, '\n');
    if s.len() == 0 {
        Seq::empty()
    } else if n >= s.len() {
        seq![s]
    } else {
        seq![s.take(n as int)] + lines(s.skip(n as int + 1))
    }
}

/// The number of white-space characters at the start of `s`.
pub open spec fn leading_whitespace(s: Seq<char>) -> nat
    decreases s.len(),
{
    if s.len() > 0 && is_whitespace(s[0]) {
        1 + leading_whitespace(s.skip(1))
    } else {
        0
    }
}

/// The number of white-space characters at the end of `s`.
pub open spec fn trailing_whitespace(s: Seq<char>) -> nat
    decreases s.len(),
{
    if s.len() > 0 && is_whitespace(s.last()) {
        1 + trailing_whitespace(s.drop_last())
    } else {
        0
    }
}

/// `s` without the white space at its start and at its end.
pub open spec fn trimmed(s: Seq<char>) -> Seq<char> {
    let a = leading_whitespace(s);
    let b = trailing_whitespace(s);
    if a + b >= s.len() {
        Seq::empty()
    } else {
        s.subrange(a as int, s.len() - b)
    }
}

/// The number of times `c` stands at the start of `s`.
pub open spec fn leading_count(s: Seq<char>, c: char) -> nat
    decreases s.len(),
{
    if s.len() > 0 && s[0] == c {
        1 + leading_count(s.skip(1), c)
    } else {
        0
    }
}

/// The span before `sep` ends at the first `sep` or at the end of the text.
pub proof fn lemma_span_before_bound(s: Seq<char>, sep: char)
    ensures
        span_before(s, sep) <= s.len(),
        forall|i: int| 0 <= i < span_before(s, sep) ==> s[i] != sep,
        span_before(s, sep) < s.len() ==> s[span_before(s, sep) as int] == sep,
    decreases s.len(),
{
    if s.len() == 0 || s[0] == sep {
    } else {
        lemma_span_before_bound(s.skip(1), sep);
        assert forall|i: int| 0 <= i < span_before(s, sep) implies s[i] != sep by {
            if i > 0 {
                assert(s[i] == s.skip(1)[i - 1]);
            }
        }
    }
}

/// The leading white space ends at the first character that is none, or at
/// the end of the text.
pub proof fn lemma_leading_whitespace_bound(s: Seq<char>)
    ensures
        leading_whitespace(s) <= s.len(),
        forall|i: int| 0 <= i < leading_whitespace(s) ==> is_whitespace(s[i]),
        leading_whitespace(s) < s.len() ==> !is_whitespace(s[leading_whitespace(s) as int]),
    decreases s.len(),
{
    if s.len() > 0 && is_whitespace(s[0]) {
        lemma_leading_whitespace_bound(s.skip(1));
        assert forall|i: int| 0 <= i < leading_whitespace(s) implies is_whitespace(s[i]) by {
            if i > 0 {
                assert(s[i] == s.skip(1)[i - 1]);
            }
        }
    }
}

/// The trailing white space begins after the last character that is none,
/// or at the start of the text.
pub proof fn lemma_trailing_whitespace_bound(s: Seq<char>)
    ensures
        trailing_whitespace(s) <= s.len(),
        forall|i: int| s.len() - trailing_whitespace(s) <= i < s.len() ==> is_whitespace(s[i]),
        trailing_whitespace(s) < s.len() ==> !is_whitespace(
            s[s.len() - trailing_whitespace(s) - 1],
        ),
    decreases s.len(),
{
    if s.len() > 0 && is_whitespace(s.last()) {
        lemma_trailing_whitespace_bound(s.drop_last());
        assert forall|i: int| s.len() - trailing_whitespace(s) <= i < s.len() implies is_whitespace(
            s[i],
        ) by {
            if i < s.len() - 1 {
                assert(s[i] == s.drop_last()[i]);
            }
        }
    }
}

/// The leading run of `c` ends at the first character that is not `c`, or
/// at the end of the text.
pub proof fn lemma_leading_count_bound(s: Seq<char>, c: char)
    ensures
        leading_count(s, c) <= s.len(),
        forall|i: int| 0 <= i < leading_count(s, c) ==> s[i] == c,
        leading_count(s, c) < s.len() ==> s[leading_count(s, c) as int] != c,
    decreases s.len(),
{
    if s.len() > 0 && s[0] == c {
        lemma_leading_count_bound(s.skip(1), c);
        assert forall|i: int| 0 <= i < leading_count(s, c) implies s[i] == c by {
            if i > 0 {
                assert(s[i] == s.skip(1)[i - 1]);
            }
        }
    }
}

/// The leading white space of `s` is its first `k` characters when those are
/// white space and the next one, if there is one, is not.
pub proof fn lemma_leading_whitespace_is(s: Seq<char>, k: nat)
    requires
        k <= s.len(),
        forall|i: int| 0 <= i < k ==> is_whitespace(s[i]),
        k < s.len() ==> !is_whitespace(s[k as int]),
    ensures
        leading_whitespace(s) == k,
    decreases k,
{
    if k > 0 {
        assert forall|i: int| 0 <= i < k - 1 implies is_whitespace(s.skip(1)[i]) by {
            assert(s.skip(1)[i] == s[i + 1]);
        }
        lemma_leading_whitespace_is(s.skip(1), (k - 1) as nat);
    }
}

/// The trailing white space of `s` is its last `k` characters when those are
/// white space and the one before them, if there is one, is not.
pub proof fn lemma_trailing_whitespace_is(s: Seq<char>, k: nat)
    requires
        k <= s.len(),
        forall|i: int| s.len() - k <= i < s.len() ==> is_whitespace(s[i]),
        k < s.len() ==> !is_whitespace(s[s.len() - k - 1]),
    ensures
        trailing_whitespace(s) == k,
    decreases k,
{
    if k > 0 {
        assert forall|i: int| s.len() - k <= i < s.len() - 1 implies is_whitespace(
            s.drop_last()[i],
        ) by {
            assert(s.drop_last()[i] == s[i]);
        }
        lemma_trailing_whitespace_is(s.drop_last(), (k - 1) as nat);
    }
}

/// Appends the characters `v[from..to]` to `out`.
pub fn push_range(out: &mut String, v: &Vec<char>, from: usize, to: usize)
    requires
        from <= to <= v.len(),
    ensures
        final(out)@ == old(out)@ + v@.subrange(from as int, to as int),
{
    let mut i: usize = from;
    assert(out@ =~= old(out)@ + v@.subrange(from as int, i as int));
    while i < to
        invariant
            from <= i <= to <= v.len(),
            out@ == old(out)@ + v@.subrange(from as int, i as int),
        decreases to - i,
    {
        out.push(v[i]);
        assert(out@ =~= old(out)@ + v@.subrange(from as int, i + 1));
        i += 1;
    }
}

/// The bounds of `v[from..to]` without the white space at its start and at
/// its end.
pub fn trim_range(v: &Vec<char>, from: usize, to: usize) -> (r: (usize, usize))
    requires
        from <= to <= v.len(),
    ensures
        from <= r.0 <= r.1 <= to,
        v@.subrange(r.0 as int, r.1 as int) == trimmed(v@.subrange(from as int, to as int)),
{
    let ghost s = v@.subrange(from as int, to as int);
    let mut a: usize = from;
    while a < to && char_is_whitespace(v[a])
        invariant
            from <= a <= to <= v.len(),
            forall|i: int| from <= i < a ==> is_whitespace(v@[i]),
        decreases to - a,
    {
        a += 1;
    }
    let mut b: usize = to;
    while b > a && char_is_whitespace(v[b - 1])
        invariant
            a <= b <= to <= v.len(),
            forall|i: int| b <= i < to ==> is_whitespace(v@[i]),
        decreases b,
    {
        b -= 1;
    }
    proof {
        assert forall|i: int| 0 <= i < a - from implies is_whitespace(s[i]) by {
            assert(s[i] == v@[from + i]);
        }
        lemma_leading_whitespace_is(s, (a - from) as nat);
        if a == to {
            lemma_trailing_whitespace_bound(s);
            assert(v@.subrange(a as int, b as int) =~= trimmed(s));
        } else {
            assert forall|i: int| s.len() - (to - b) <= i < s.len() implies is_whitespace(
                s[i],
            ) by {
                assert(s[i] == v@[from + i]);
            }
            assert(b > a);
            assert(s[s.len() - (to - b) - 1] == v@[b - 1]);
            lemma_trailing_whitespace_is(s, (to - b) as nat);
            assert(v@.subrange(a as int, b as int) =~= trimmed(s));
        }
    }
    (a, b)
}

/// Appends the characters of `src` to `out`.
pub fn push_all(out: &mut Vec<char>, src: &Vec<char>)
    ensures
        final(out)@ == old(out)@ + src@,
{
    let mut k: usize = 0;
    while k < src.len()
        invariant
            k <= src.len(),
            out@ == old(out)@ + src@.take(k as int),
        decreases src.len() - k,
    {
        out.push(src[k]);
        k += 1;
    }
}

/// Whether the characters of `pat` stand in `v` from index `at` on.
pub fn starts_with_at(v: &Vec<char>, at: usize, pat: &Vec<char>) -> (b: bool)
    requires
        at <= v.len(),
    ensures
        b == has_prefix(v@.skip(at as int), pat@),
{
    if pat.len() > v.len() - at {
        return false;
    }
    let mut k: usize = 0;
    while k < pat.len()
        invariant
            at <= v.len(),
            pat.len() <= v.len() - at,
            k <= pat.len(),
            forall|i: int| 0 <= i < k ==> v@.skip(at as int)[i] == #[trigger] pat@[i],
        decreases pat.len() - k,
    {
        if v[at + k] != pat[k] {
            assert(v@.skip(at as int)[k as int] != pat@[k as int]);
            return false;
        }
        k += 1;
    }
    true
}

/// Replaces every occurrence of `pat` in `v` by `rep`.
pub fn replace_chars(v: &Vec<char>, pat: &Vec<char>, rep: &Vec<char>) -> (out: Vec<char>)
    ensures
        out@ == replace_all(v@, pat@, rep@),
{
    let mut out: Vec<char> = Vec::new();
    let mut i: usize = 0;
    if pat.len() == 0 {
        push_all(&mut out, v);
        return out;
    }
    assert(v@.skip(0) =~= v@);
    while i < v.len()
        invariant
            i <= v.len(),
            pat.len() > 0,
            out@ + replace_all(v@.skip(i as int), pat@, rep@) == replace_all(v@, pat@, rep@),
        decreases v.len() - i,
    {
        let ghost rest = v@.skip(i as int);
        if starts_with_at(v, i, pat) {
            push_all(&mut out, rep);
            assert(rest.skip(pat.len() as int) =~= v@.skip(i + pat.len()));
            i += pat.len();
        } else {
            out.push(v[i]);
            assert(rest.skip(1) =~= v@.skip(i + 1));
            i += 1;
        }
    }
    out
}

/// The piece of `v` from `from` up to the next `sep` or the end of `v`,
/// and the index at which it ends.
fn take_field(v: &Vec<char>, from: usize, sep: char) -> (r: (Vec<char>, usize))
    requires
        from <= v.len(),
    ensures
        from <= r.1 <= v.len(),
        r.1 - from == span_before(v@.skip(from as int), sep),
        r.0@ == v@.skip(from as int).take(r.1 - from),
        r.1 < v.len() ==> v@[r.1 as int] == sep,
{
    let mut piece: Vec<char> = Vec::new();
    let mut j: usize = from;
    while j < v.len() && v[j] != sep
        invariant
            from <= j <= v.len(),
            piece@ == v@.subrange(from as int, j as int),
            span_before(v@.skip(from as int), sep) == (j - from) + span_before(
                v@.skip(j as int),
                sep,
            ),
        decreases v.len() - j,
    {
        piece.push(v[j]);
        assert(v@.skip(j as int).skip(1) =~= v@.skip(j + 1));
        j += 1;
    }
    assert(piece@ =~= v@.skip(from as int).take(j - from));
    (piece, j)
}

/// The characters before the first `sep` of `v` and the characters after
/// it, if `v` holds `sep`.
pub fn cut_chars(v: &Vec<char>, sep: char) -> (r: Option<(Vec<char>, Vec<char>)>)
    ensures
        match r {
            Some((head, tail)) => cut(v@, sep) == Some((head@, tail@)),
            None => cut(v@, sep) is None,
        },
{
    assert(v@.skip(0) =~= v@);
    let (head, at) = take_field(v, 0, sep);
    if at < v.len() {
        let mut tail: Vec<char> = Vec::new();
        let mut k: usize = at + 1;
        while k < v.len()
            invariant
                at < k <= v.len(),
                tail@ == v@.subrange(at + 1, k as int),
            decreases v.len() - k,
        {
            tail.push(v[k]);
            k += 1;
        }
        assert(tail@ =~= v@.skip(at + 1));
        Some((head, tail))
    } else {
        None
    }
}

/// A text without `sep` before another text reaches as far as its own
/// length and what the other text reaches.
pub proof fn lemma_span_before_concat(a: Seq<char>, b: Seq<char>, sep: char)
    requires
        forall|i: int| 0 <= i < a.len() ==> a[i] != sep,
    ensures
        span_before(a + b, sep) == a.len() + span_before(b, sep),
    decreases a.len(),
{
    if a.len() == 0 {
        assert(a + b =~= b);
    } else {
        assert((a + b).skip(1) =~= a.skip(1) + b);
        assert forall|i: int| 0 <= i < a.skip(1).len() implies a.skip(1)[i] != sep by {
            assert(a.skip(1)[i] == a[i + 1]);
        }
        lemma_span_before_concat(a.skip(1), b, sep);
    }
}

/// A text without `sep`, then `sep`, then another text: the cut falls at
/// that `sep`, and the first field is the first text.
pub proof fn lemma_cut_at_first_sep(a: Seq<char>, b: Seq<char>, sep: char)
    requires
        forall|i: int| 0 <= i < a.len() ==> a[i] != sep,
    ensures
        cut(a + seq![sep] + b, sep) == Some((a, b)),
        fields(a + seq![sep] + b, sep) == seq![a] + fields(b, sep),
{
    let s = a + seq![sep] + b;
    assert(s =~= a + (seq![sep] + b));
    lemma_span_before_concat(a, seq![sep] + b, sep);
    assert(span_before(seq![sep] + b, sep) == 0);
    assert(s.take(a.len() as int) =~= a);
    assert(s.skip(a.len() as int + 1) =~= b);
}

/// A text without `sep` is one field.
pub proof fn lemma_fields_without_sep(a: Seq<char>, sep: char)
    requires
        forall|i: int| 0 <= i < a.len() ==> a[i] != sep,
    ensures
        fields(a, sep) == seq![a],
        cut(a, sep) is None,
{
    lemma_span_before_concat(a, Seq::empty(), sep);
    assert(a + Seq::<char>::empty() =~= a);
}

/// Splits `v` into its lines.
pub fn split_lines(v: &Vec<char>) -> (out: Vec<Vec<char>>)
    ensures
        out.deep_view() == lines(v@),
{
    let mut out: Vec<Vec<char>> = Vec::new();
    let mut i: usize = 0;
    assert(v@.skip(0) =~= v@);
    assert(out.deep_view() =~= Seq::<Seq<char>>::empty());
    while i < v.len()
        invariant
            i <= v.len(),
            out.deep_view() + lines(v@.skip(i as int)) == lines(v@),
        decreases v.len() - i,
    {
        let ghost rest = v@.skip(i as int);
        let ghost before = out.deep_view();
        let (line, j) = take_field(v, i, '\n');
        assert(line.deep_view() =~= line@);
        out.push(line);
        assert(out.deep_view() =~= before.push(rest.take(j - i)));
        if j < v.len() {
            assert(rest.skip(j - i + 1) =~= v@.skip(j + 1));
            i = j + 1;
        } else {
            assert(rest.take(j - i) =~= rest);
            assert(lines(v@.skip(j as int)) =~= Seq::<Seq<char>>::empty());
            i = j;
        }
    }
    out
}

/// Splits `v` into its fields.
pub fn split_fields(v: &Vec<char>, sep: char) -> (out: Vec<Vec<char>>)
    ensures
        out.deep_view() == fields(v@, sep),
{
    let mut out: Vec<Vec<char>> = Vec::new();
    let mut i: usize = 0;
    assert(v@.skip(0) =~= v@);
    assert(out.deep_view() =~= Seq::<Seq<char>>::empty());
    loop
        invariant_except_break
            i <= v.len(),
            out.deep_view() + fields(v@.skip(i as int), sep) == fields(v@, sep),
        ensures
            out.deep_view() == fields(v@, sep),
        decreases v.len() - i,
    {
        let ghost rest = v@.skip(i as int);
        let ghost before = out.deep_view();
        let (field, j) = take_field(v, i, sep);
        assert(field.deep_view() =~= field@);
        out.push(field);
        assert(out.deep_view() =~= before.push(rest.take(j - i)));
        if j < v.len() {
            assert(rest.skip(j - i + 1) =~= v@.skip(j + 1));
            i = j + 1;
        } else {
            assert(rest.take(j - i) =~= rest);
            break;
        }
    }
    out
}

} // verus!
