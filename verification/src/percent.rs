//! Percent-encoding of text in URLs.

use vstd::prelude::*;
use vstd::utf8::*;

verus! {

/// The bytes that stand for themselves in an encoded text: letters, digits,
/// `-`, `.`, `_` and `~`.
pub open spec fn unreserved(b: u8) -> bool {
    ||| 0x30 <= b <= 0x39
    ||| 0x41 <= b <= 0x5a
    ||| 0x61 <= b <= 0x7a
    ||| b == 0x2d
    ||| b == 0x2e
    ||| b == 0x5f
    ||| b == 0x7e
}

/// The upper-case hexadecimal digit of a number below 16.
pub open spec fn upper_hex(d: int) -> char {
    if d < 10 {
        ((0x30 + d) as u8) as char
    } else {
        ((0x37 + d) as u8) as char
    }
}

/// The number that a hexadecimal digit of either case stands for.
pub open spec fn hex_value(b: u8) -> Option<int> {
    if 0x30 <= b <= 0x39 {
        Some(b - 0x30)
    } else if 0x41 <= b <= 0x46 {
        Some(b - 0x37)
    } else if 0x61 <= b <= 0x66 {
        Some(b - 0x57)
    } else {
        None
    }
}

/// One byte as it stands in an encoded text.
pub open spec fn percent_encoded_byte(b: u8) -> Seq<char> {
    if unreserved(b) {
        seq![b as char]
    } else {
        seq!['%', upper_hex(b as int / 16), upper_hex(b as int % 16)]
    }
}

/// The encoded text of a run of bytes.
pub open spec fn percent_encoded(bytes: Seq<u8>) -> Seq<char>
    decreases bytes.len(),
{
    if bytes.len() == 0 {
        Seq::empty()
    } else {
        percent_encoded_byte(bytes[0]) + percent_encoded(bytes.drop_first())
    }
}

/// Whether the bytes start with `%` and two hexadecimal digits.
pub open spec fn starts_with_escape(bytes: Seq<u8>) -> bool {
    &&& bytes.len() >= 3
    &&& bytes[0] == 0x25
    &&& hex_value(bytes[1]) is Some
    &&& hex_value(bytes[2]) is Some
}

/// The bytes with each `%` and the two hexadecimal digits after it replaced
/// by the byte that the digits stand for. Every other byte is kept.
pub open spec fn percent_decoded(bytes: Seq<u8>) -> Seq<u8>
    decreases bytes.len(),
{
    if bytes.len() == 0 {
        Seq::empty()
    } else if starts_with_escape(bytes) {
        seq![(hex_value(bytes[1])->0 * 16 + hex_value(bytes[2])->0) as u8] + percent_decoded(
            bytes.skip(3),
        )
    } else {
        seq![bytes[0]] + percent_decoded(bytes.skip(1))
    }
}

/// The percent-encoding of a text.
pub open spec fn url_encoded(s: Seq<char>) -> Seq<char> {
    percent_encoded(encode_utf8(s))
}

/// The text whose percent-encoding is given, where the decoded bytes are text.
pub open spec fn url_decoded(s: Seq<char>) -> Option<Seq<char>> {
    let bytes = percent_decoded(encode_utf8(s));
    if valid_utf8(bytes) {
        Some(decode_utf8(bytes))
    } else {
        None
    }
}

/// A text with each `%` written as `%25`, so that it is read back as it is.
pub open spec fn escaped(s: Seq<char>) -> Seq<char>
    decreases s.len(),
{
    if s.len() == 0 {
        Seq::empty()
    } else {
        escaped(s.drop_last()) + escaped_char(s.last())
    }
}

/// One character of an escaped text.
pub open spec fn escaped_char(c: char) -> Seq<char> {
    if c == '%' {
        seq!['%', '2', '5']
    } else {
        seq![c]
    }
}

/// `urlencoding::encode`: every byte of the UTF-8 encoding of the text, except
/// letters, digits, `-`, `.`, `_` and `~`, becomes `%` and two upper-case
/// hexadecimal digits.
#[verifier::external_body]
pub(crate) fn url_encode(s: &str) -> (r: String)
    ensures
        r@ == url_encoded(s@),
{
    urlencoding::encode(s).into_owned()
}

/// `urlencoding::decode`: each `%` followed by two hexadecimal digits becomes
/// one byte, everything else is kept, and the bytes are read as UTF-8. There
/// is no result exactly where they are not valid UTF-8.
#[verifier::external_body]
pub(crate) fn url_decode(s: &str) -> (r: Option<String>)
    ensures
        crate::text::opt_view(r) == url_decoded(s@),
{
    match urlencoding::decode(s) {
        Ok(text) => Some(text.into_owned()),
        Err(_) => None,
    }
}

/// The encoding of two texts, one after the other.
pub proof fn lemma_encode_utf8_concat(a: Seq<char>, b: Seq<char>)
    ensures
        encode_utf8(a + b) == encode_utf8(a) + encode_utf8(b),
    decreases a.len(),
{
    if a.len() == 0 {
        assert(a + b =~= b);
    } else {
        assert((a + b).drop_first() =~= a.drop_first() + b);
        lemma_encode_utf8_concat(a.drop_first(), b);
    }
}

/// An ASCII text is encoded character by character.
proof fn lemma_encode_utf8_ascii(s: Seq<char>)
    requires
        vstd::utf8::is_ascii_chars(s),
    ensures
        encode_utf8(s) == Seq::new(s.len(), |i: int| s[i] as u8),
{
    vstd::utf8::is_ascii_chars_encode_utf8(s);
    assert forall|i: int| 0 <= i < s.len() implies encode_utf8(s)[i] == s[i] as u8 by {
        let c = s[i];
    }
    assert(encode_utf8(s) =~= Seq::new(s.len(), |i: int| s[i] as u8));
}

/// Decoding what `percent_encoded` gives returns the bytes, whatever follows.
proof fn lemma_decode_encoded_bytes(bytes: Seq<u8>, rest: Seq<u8>)
    ensures
        percent_decoded(encode_utf8(percent_encoded(bytes)) + rest) == bytes + percent_decoded(
            rest,
        ),
    decreases bytes.len(),
{
    if bytes.len() == 0 {
        assert(encode_utf8(percent_encoded(bytes)) + rest =~= rest);
        assert(bytes + percent_decoded(rest) =~= percent_decoded(rest));
    } else {
        let b = bytes[0];
        let head = percent_encoded_byte(b);
        let tail = percent_encoded(bytes.drop_first());
        lemma_decode_encoded_bytes(bytes.drop_first(), rest);
        lemma_encode_utf8_concat(head, tail);
        lemma_encode_utf8_ascii(head);
        let h = encode_utf8(head);
        let t = encode_utf8(tail) + rest;
        assert(encode_utf8(percent_encoded(bytes)) + rest =~= h + t);
        if unreserved(b) {
            assert(h =~= seq![b]);
            assert((h + t).skip(1) =~= t);
            assert(!starts_with_escape(h + t));
        } else {
            assert(h =~= seq![0x25u8, upper_hex(b as int / 16) as u8, upper_hex(b as int % 16) as u8]);
            assert(hex_value(h[1]) == Some(b as int / 16));
            assert(hex_value(h[2]) == Some(b as int % 16));
            assert((h + t).skip(3) =~= t);
            assert(starts_with_escape(h + t));
            assert((b as int / 16) * 16 + b as int % 16 == b);
        }
        assert(percent_decoded(h + t) =~= seq![b] + (bytes.drop_first() + percent_decoded(rest)));
        assert(seq![b] + (bytes.drop_first() + percent_decoded(rest)) =~= bytes + percent_decoded(
            rest,
        ));
    }
}

/// Bytes without a `%` are kept, whatever follows.
pub proof fn lemma_decode_plain(bytes: Seq<u8>, rest: Seq<u8>)
    requires
        !bytes.contains(0x25),
    ensures
        percent_decoded(bytes + rest) == bytes + percent_decoded(rest),
    decreases bytes.len(),
{
    if bytes.len() == 0 {
        assert(bytes + rest =~= rest);
        assert(bytes + percent_decoded(rest) =~= percent_decoded(rest));
    } else {
        let tail = bytes.skip(1);
        assert(bytes[0] != 0x25);
        assert forall|i: int| 0 <= i < tail.len() implies tail[i] != 0x25 by {
            assert(bytes[i + 1] != 0x25);
        }
        lemma_decode_plain(tail, rest);
        assert((bytes + rest).skip(1) =~= tail + rest);
        assert(!starts_with_escape(bytes + rest));
        assert(bytes + percent_decoded(rest) =~= seq![bytes[0]] + (tail + percent_decoded(rest)));
    }
}

/// Decoding an encoded text gives the text back.
pub proof fn lemma_decode_encoded(s: Seq<char>)
    ensures
        url_decoded(url_encoded(s)) == Some(s),
{
    lemma_decode_encoded_before(s, Seq::empty());
    assert(encode_utf8(url_encoded(s)) + Seq::<u8>::empty() =~= encode_utf8(url_encoded(s)));
    assert(encode_utf8(s) + percent_decoded(Seq::empty()) =~= encode_utf8(s));
    vstd::utf8::encode_utf8_valid_utf8(s);
    vstd::utf8::encode_utf8_decode_utf8(s);
}

/// Decoding an encoded text gives the text back, whatever follows.
pub proof fn lemma_decode_encoded_before(s: Seq<char>, rest: Seq<u8>)
    ensures
        percent_decoded(encode_utf8(url_encoded(s)) + rest) == encode_utf8(s) + percent_decoded(
            rest,
        ),
{
    lemma_decode_encoded_bytes(encode_utf8(s), rest);
}

/// The encoding of a character other than `%` has no `%` in it.
proof fn lemma_encode_scalar_plain(scalar: u32)
    requires
        scalar != 0x25,
    ensures
        !encode_scalar(scalar).contains(0x25),
{
    if has_width_1_encoding(scalar) {
        assert(leading_byte_width_1(scalar) != 0x25) by (bit_vector)
            requires
                scalar <= 0x7f,
                scalar != 0x25,
        ;
    }
    assert(leading_byte_width_2(scalar) >= 0x80) by (bit_vector);
    assert(leading_byte_width_3(scalar) >= 0x80) by (bit_vector);
    assert(leading_byte_width_4(scalar) >= 0x80) by (bit_vector);
    assert(last_continuation_byte(scalar) >= 0x80) by (bit_vector);
    assert(second_last_continuation_byte(scalar) >= 0x80) by (bit_vector);
    assert(third_last_continuation_byte(scalar) >= 0x80) by (bit_vector);
}

/// The encoding of a text without `%` has no `%` in it.
proof fn lemma_encode_utf8_plain(s: Seq<char>)
    requires
        !s.contains('%'),
    ensures
        !encode_utf8(s).contains(0x25),
    decreases s.len(),
{
    if s.len() > 0 {
        let rest = s.drop_first();
        assert(s[0] != '%');
        crate::text::lemma_char_number(s[0], '%');
        assert forall|i: int| 0 <= i < rest.len() implies rest[i] != '%' by {
            assert(s[i + 1] != '%');
        }
        lemma_encode_utf8_plain(rest);
        lemma_encode_scalar_plain(s[0] as u32);
        let (a, b) = (encode_scalar(s[0] as u32), encode_utf8(rest));
        assert(encode_utf8(s) == a + b);
        assert forall|i: int| 0 <= i < (a + b).len() implies (a + b)[i] != 0x25 by {
            if i < a.len() {
                assert(a.contains(a[i]));
            } else {
                assert(b.contains(b[i - a.len()]));
            }
        }
    }
}

/// A text without `%` stands for itself.
pub proof fn lemma_decode_plain_text(s: Seq<char>)
    requires
        !s.contains('%'),
    ensures
        url_decoded(s) == Some(s),
{
    let none = Seq::<u8>::empty();
    lemma_encode_utf8_plain(s);
    lemma_decode_plain(encode_utf8(s), none);
    assert(encode_utf8(s) + none =~= encode_utf8(s));
    assert(encode_utf8(s) + percent_decoded(none) =~= encode_utf8(s));
    encode_utf8_valid_utf8(s);
    encode_utf8_decode_utf8(s);
}

/// Reading an escaped text back gives the text, whatever follows.
proof fn lemma_decode_escaped_before(s: Seq<char>, rest: Seq<u8>)
    ensures
        percent_decoded(encode_utf8(escaped(s)) + rest) == encode_utf8(s) + percent_decoded(rest),
    decreases s.len(),
{
    if s.len() == 0 {
        assert(encode_utf8(escaped(s)) + rest =~= rest);
        assert(encode_utf8(s) + percent_decoded(rest) =~= percent_decoded(rest));
    } else {
        let before = s.drop_last();
        let c = s.last();
        let piece = encode_utf8(escaped_char(c));
        let one = encode_utf8(seq![c]);
        assert(s =~= before + seq![c]);
        lemma_encode_utf8_concat(before, seq![c]);
        lemma_encode_utf8_concat(escaped(before), escaped_char(c));
        lemma_decode_escaped_before(before, piece + rest);
        if c == '%' {
            lemma_encode_utf8_ascii(seq!['%', '2', '5']);
            lemma_encode_utf8_ascii(seq!['%']);
            assert(piece =~= seq![0x25u8, 0x32u8, 0x35u8]);
            assert(one =~= seq![0x25u8]);
            assert((piece + rest).skip(3) =~= rest);
            assert(starts_with_escape(piece + rest));
        } else {
            assert(!seq![c].contains('%'));
            lemma_encode_utf8_plain(seq![c]);
            lemma_decode_plain(piece, rest);
        }
        assert(percent_decoded(piece + rest) == one + percent_decoded(rest));
        assert(encode_utf8(escaped(s)) + rest =~= encode_utf8(escaped(before)) + (piece + rest));
        assert(encode_utf8(s) + percent_decoded(rest) =~= encode_utf8(before) + (one
            + percent_decoded(rest)));
    }
}

/// Reading an escaped text back gives the text.
pub proof fn lemma_decode_escaped(s: Seq<char>)
    ensures
        url_decoded(escaped(s)) == Some(s),
{
    let none = Seq::<u8>::empty();
    lemma_decode_escaped_before(s, none);
    assert(encode_utf8(escaped(s)) + none =~= encode_utf8(escaped(s)));
    assert(encode_utf8(s) + percent_decoded(none) =~= encode_utf8(s));
    encode_utf8_valid_utf8(s);
    encode_utf8_decode_utf8(s);
}

/// A text as a request carries it, with nothing but its `%` encoded. It is read
/// back as it is.
pub fn escape(s: &str) -> (r: String)
    ensures
        r@ == escaped(s@),
        url_decoded(r@) == Some(s@),
{
    let v: Vec<char> = crate::text::chars_of(s);
    let mut r: String = String::new();
    let mut i: usize = 0;
    while i < v.len()
        invariant
            i <= v@.len(),
            r@ == escaped(v@.take(i as int)),
        decreases v@.len() - i,
    {
        let c: char = v[i];
        assert(v@.take(i + 1).drop_last() =~= v@.take(i as int));
        if c == '%' {
            r.push('%');
            r.push('2');
            r.push('5');
        } else {
            r.push(c);
        }
        assert(r@ =~= escaped(v@.take(i as int)) + escaped_char(c));
        i += 1;
    }
    assert(v@.take(i as int) =~= s@);
    proof {
        lemma_decode_escaped(s@);
    }
    r
}

/// An encoded text holds no `/`, and is empty only where the text is.
pub proof fn lemma_encoded_has_no_slash(s: Seq<char>)
    ensures
        !url_encoded(s).contains('/'),
        s.len() > 0 ==> url_encoded(s).len() > 0,
{
    lemma_encoded_bytes_have_no_slash(encode_utf8(s));
    if s.len() > 0 && url_encoded(s).len() == 0 {
        lemma_decode_encoded(s);
        let none = Seq::<char>::empty();
        assert(url_encoded(s) =~= none);
        lemma_decode_plain_text(none);
    }
}

proof fn lemma_encoded_bytes_have_no_slash(bytes: Seq<u8>)
    ensures
        !percent_encoded(bytes).contains('/'),
    decreases bytes.len(),
{
    if bytes.len() > 0 {
        let b = bytes[0];
        let head = percent_encoded_byte(b);
        let tail = percent_encoded(bytes.drop_first());
        lemma_encoded_bytes_have_no_slash(bytes.drop_first());
        let s = head + tail;
        assert forall|i: int| 0 <= i < s.len() implies s[i] != '/' by {
            if i < head.len() {
                assert(s[i] == head[i]);
                if unreserved(b) {
                    assert(head[i] == b as char);
                } else {
                    assert(b as int / 16 < 16 && b as int % 16 < 16);
                }
            } else {
                assert(s[i] == tail[i - head.len()]);
                assert(tail.contains(tail[i - head.len()]));
            }
        }
    }
}

} // verus!
