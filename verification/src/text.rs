//! Character-level models of the few `str` operations that header inspection
//! relies on: ASCII case folding, Unicode whitespace trimming, and the link
//! between a byte prefix of a UTF-8 string and its leading characters.

use vstd::prelude::*;
use vstd::utf8::*;

verus! {

/// `c` mapped to its ASCII lower-case equivalent: `'A'..='Z'` become
/// `'a'..='z'`, every other character is unchanged.
pub open spec fn ascii_lower(c: char) -> char {
    if 'A' <= c && c <= 'Z' {
        ((c as u32) + 32) as char
    } else {
        c
    }
}

/// Every character of `s` mapped by [`ascii_lower`].
pub open spec fn ascii_lowercase(s: Seq<char>) -> Seq<char> {
    s.map_values(|c: char| ascii_lower(c))
}

/// `a` and `b` are equal up to ASCII case.
pub open spec fn ascii_case_eq(a: Seq<char>, b: Seq<char>) -> bool {
    ascii_lowercase(a) == ascii_lowercase(b)
}

/// The characters with the Unicode `White_Space` property.
pub open spec fn is_unicode_whitespace(c: char) -> bool {
    let u = c as u32;
    ||| 0x09 <= u && u <= 0x0d
    ||| u == 0x20
    ||| u == 0x85
    ||| u == 0xa0
    ||| u == 0x1680
    ||| 0x2000 <= u && u <= 0x200a
    ||| u == 0x2028
    ||| u == 0x2029
    ||| u == 0x202f
    ||| u == 0x205f
    ||| u == 0x3000
}

/// `s` without its leading run of whitespace characters.
pub open spec fn trim_start_chars(s: Seq<char>) -> Seq<char>
    decreases s.len(),
{
    if s.len() > 0 && is_unicode_whitespace(s[0]) {
        trim_start_chars(s.drop_first())
    } else {
        s
    }
}

/// Calls `str::trim_start`, which std documents as returning the slice with
/// its leading whitespace removed, whitespace being the characters with the
/// Unicode `White_Space` property; the contract states that over characters.
#[verifier::external_body]
pub(crate) fn trim_start<'a>(s: &'a str) -> (r: &'a str)
    ensures
        r@ == trim_start_chars(s@),
{
    s.trim_start()
}

/// Calls `str::eq_ignore_ascii_case`, which std documents as the same test as
/// comparing `to_ascii_lowercase` of both strings (ASCII letters lowered,
/// every other character kept); the contract states exactly that.
#[verifier::external_body]
pub(crate) fn eq_ignore_ascii_case(a: &str, b: &str) -> (r: bool)
    ensures
        r == ascii_case_eq(a@, b@),
{
    a.eq_ignore_ascii_case(b)
}

/// `c` equals an ASCII character up to ASCII case only if `c` is ASCII too.
proof fn lemma_ascii_lower_of_ascii(c: char, d: char)
    requires
        '\0' <= d <= '\u{7f}',
        ascii_lower(c) == ascii_lower(d),
    ensures
        '\0' <= c <= '\u{7f}',
{
}

/// A sequence equal to an ASCII sequence up to ASCII case is ASCII and has the
/// same length.
pub proof fn lemma_ascii_case_eq_ascii(x: Seq<char>, t: Seq<char>)
    requires
        is_ascii_chars(t),
        ascii_case_eq(x, t),
    ensures
        is_ascii_chars(x),
        x.len() == t.len(),
{
    assert(ascii_lowercase(x).len() == x.len());
    assert(ascii_lowercase(t).len() == t.len());
    assert forall|i: int| 0 <= i < x.len() implies '\0' <= #[trigger] x[i] <= '\u{7f}' by {
        assert(ascii_lowercase(x)[i] == ascii_lower(x[i]));
        assert(ascii_lowercase(t)[i] == ascii_lower(t[i]));
        lemma_ascii_lower_of_ascii(x[i], t[i]);
    }
}

/// UTF-8 encoding distributes over concatenation.
pub proof fn lemma_encode_utf8_concat(a: Seq<char>, b: Seq<char>)
    ensures
        encode_utf8(a + b) == encode_utf8(a) + encode_utf8(b),
    decreases a.len(),
{
    if a.len() == 0 {
        assert(a + b =~= b);
        assert(encode_utf8(a) =~= Seq::<u8>::empty());
        assert(encode_utf8(a) + encode_utf8(b) =~= encode_utf8(b));
    } else {
        assert((a + b).drop_first() =~= a.drop_first() + b);
        assert((a + b)[0] == a[0]);
        lemma_encode_utf8_concat(a.drop_first(), b);
        assert(encode_utf8(a + b) =~= encode_utf8(a) + encode_utf8(b));
    }
}

/// The end of the encoding of `a` is a character boundary of the encoding of
/// `a + b`.
pub proof fn lemma_boundary_after_prefix(a: Seq<char>, b: Seq<char>)
    ensures
        is_char_boundary(encode_utf8(a + b), encode_utf8(a).len() as int),
    decreases a.len(),
{
    let bytes = encode_utf8(a + b);
    encode_utf8_valid_utf8(a + b);
    if a.len() == 0 {
        assert(encode_utf8(a).len() == 0);
    } else {
        lemma_encode_utf8_concat(a, b);
        encode_utf8_first_scalar(a + b);
        assert((a + b)[0] == a[0]);
        let rest = (a + b).drop_first();
        assert(rest =~= a.drop_first() + b);
        let first = encode_scalar(a[0] as u32);
        assert(first.len() >= 1);
        assert(bytes =~= first + encode_utf8(rest));
        assert(pop_first_scalar(bytes) =~= encode_utf8(rest));
        assert(encode_utf8(a) =~= first + encode_utf8(a.drop_first()));
        lemma_boundary_after_prefix(a.drop_first(), b);
    }
}

/// When the first `n` characters of `v` are ASCII, the first `n` bytes of its
/// encoding are their encoding, and byte `n` starts a character.
pub proof fn lemma_ascii_head(v: Seq<char>, n: int)
    requires
        0 <= n <= v.len(),
        is_ascii_chars(v.take(n)),
    ensures
        is_char_boundary(encode_utf8(v), n),
        encode_utf8(v).len() >= n,
        decode_utf8(encode_utf8(v).subrange(0, n)) == v.take(n),
{
    let head = v.take(n);
    let tail = v.skip(n);
    assert(v =~= head + tail);
    is_ascii_chars_encode_utf8(head);
    lemma_encode_utf8_concat(head, tail);
    lemma_boundary_after_prefix(head, tail);
    assert(encode_utf8(v).subrange(0, n) =~= encode_utf8(head));
    encode_utf8_decode_utf8(head);
}

/// Cutting the encoding of `v` at a character boundary `n` gives the encoding
/// of a prefix of `v`.
proof fn lemma_split_is_prefix(v: Seq<char>, p: Seq<char>, n: int)
    requires
        is_char_boundary(encode_utf8(v), n),
        encode_utf8(p) == encode_utf8(v).subrange(0, n),
    ensures
        p.len() <= v.len(),
        v.take(p.len() as int) == p,
{
    let bytes = encode_utf8(v);
    encode_utf8_valid_utf8(v);
    decode_utf8_split(bytes, n);
    encode_utf8_decode_utf8(v);
    encode_utf8_decode_utf8(p);
    let w = decode_utf8(bytes.subrange(n, bytes.len() as int));
    assert(v =~= p + w);
    assert(v.take(p.len() as int) =~= p);
}

/// For an ASCII pattern `t`: when the encoding of `v` can be cut at byte
/// `t.len()`, the piece `p` so obtained equals `t` up to ASCII case exactly
/// when the first `t.len()` characters of `v` do.
pub proof fn lemma_cut_prefix_matches(v: Seq<char>, p: Seq<char>, t: Seq<char>)
    requires
        is_ascii_chars(t),
        is_char_boundary(encode_utf8(v), t.len() as int),
        encode_utf8(p) == encode_utf8(v).subrange(0, t.len() as int),
    ensures
        ascii_case_eq(p, t) == (v.len() >= t.len() && ascii_case_eq(v.take(t.len() as int), t)),
{
    let n = t.len() as int;
    lemma_split_is_prefix(v, p, n);
    if ascii_case_eq(p, t) {
        lemma_ascii_case_eq_ascii(p, t);
    }
    if v.len() >= n && ascii_case_eq(v.take(n), t) {
        lemma_ascii_case_eq_ascii(v.take(n), t);
        lemma_ascii_head(v, n);
        encode_utf8_decode_utf8(p);
    }
}

/// For an ASCII pattern `t`: when byte `t.len()` of the encoding of `v` is no
/// character boundary, the first `t.len()` characters of `v` do not equal
/// `t` up to ASCII case.
pub proof fn lemma_no_cut_no_match(v: Seq<char>, t: Seq<char>)
    requires
        is_ascii_chars(t),
        !is_char_boundary(encode_utf8(v), t.len() as int),
    ensures
        !(v.len() >= t.len() && ascii_case_eq(v.take(t.len() as int), t)),
{
    let n = t.len() as int;
    if v.len() >= n && ascii_case_eq(v.take(n), t) {
        lemma_ascii_case_eq_ascii(v.take(n), t);
        lemma_ascii_head(v, n);
    }
}

} // verus!
