//! Percent-encoding, as the `Path=` line of a `.trashinfo` file uses it.

use crate::text;
use vstd::prelude::*;
use vstd::utf8::*;

verus! {

/// The value of one hexadecimal digit.
pub open spec fn hex_value(b: u8) -> Option<u8> {
    if 48 <= b <= 57 {
        Some((b - 48) as u8)
    } else if 97 <= b <= 102 {
        Some((b - 87) as u8)
    } else if 65 <= b <= 70 {
        Some((b - 55) as u8)
    } else {
        None
    }
}

/// The byte that an escape at the start of `b` writes: a percent sign and two
/// hexadecimal digits, or a percent sign, a plus sign and one such digit.
pub open spec fn escaped_byte(b: Seq<u8>) -> Option<u8> {
    if b.len() < 3 || b[0] != 37 {
        None
    } else {
        match (hex_value(b[1]), hex_value(b[2])) {
            (Some(high), Some(low)) => Some((high * 16 + low) as u8),
            (None, Some(low)) => if b[1] == 43 {
                Some(low)
            } else {
                None
            },
            _ => None,
        }
    }
}

/// `b` with each escape replaced by the byte that it writes.
pub open spec fn unescaped(b: Seq<u8>) -> Seq<u8>
    decreases b.len(),
{
    if b.len() == 0 {
        seq![]
    } else {
        match escaped_byte(b) {
            Some(v) => seq![v] + unescaped(b.skip(3)),
            None => seq![b[0]] + unescaped(b.skip(1)),
        }
    }
}

/// What `String::from_utf8_lossy` makes of bytes that are not valid UTF-8.
pub uninterp spec fn utf8_lossy(b: Seq<u8>) -> Seq<char>;

/// The text of `b`: its characters where `b` is UTF-8, and otherwise what the
/// lossy conversion makes of it.
pub open spec fn lossy_text(b: Seq<u8>) -> Seq<char> {
    if valid_utf8(b) {
        decode_utf8(b)
    } else {
        utf8_lossy(b)
    }
}

/// The text that a percent-encoded text stands for.
pub open spec fn percent_decoded(s: Seq<char>) -> Seq<char> {
    lossy_text(unescaped(encode_utf8(s)))
}

/// `e` is a percent-encoding of `b`: each byte stands as it is, unless it is a
/// percent sign, or as a percent sign and its two hexadecimal digits in either
/// case.
pub open spec fn is_encoding(e: Seq<u8>, b: Seq<u8>) -> bool
    decreases b.len(),
{
    if b.len() == 0 {
        e.len() == 0
    } else {
        ||| e.len() >= 1 && e[0] == b[0] && b[0] != 37 && is_encoding(e.skip(1), b.skip(1))
        ||| e.len() >= 3 && e[0] == 37 && hex_value(e[1]) == Some((b[0] / 16) as u8) && hex_value(
            e[2],
        ) == Some((b[0] % 16) as u8) && is_encoding(e.skip(3), b.skip(1))
    }
}

/// How one character is written in a path: percent signs and the ends of lines
/// as escapes, all others as they are.
pub open spec fn encoded_char(c: char) -> Seq<char> {
    if c == '%' {
        seq!['%', '2', '5']
    } else if c == '\n' {
        seq!['%', '0', 'A']
    } else if c == '\r' {
        seq!['%', '0', 'D']
    } else {
        seq![c]
    }
}

/// How a path is written.
pub open spec fn percent_encoded(s: Seq<char>) -> Seq<char>
    decreases s.len(),
{
    if s.len() == 0 {
        seq![]
    } else {
        encoded_char(s[0]) + percent_encoded(s.skip(1))
    }
}

/// `String::from_utf8_lossy` keeps valid UTF-8 as it is. Of other bytes two
/// things are claimed: that equal bytes give equal texts, and that what cannot
/// be decoded is replaced and not left out, so that some text comes of it.
#[verifier::external_body]
pub(crate) fn from_utf8_lossy(b: &[u8]) -> (s: String)
    ensures
        valid_utf8(b@) ==> s@ == decode_utf8(b@),
        !valid_utf8(b@) ==> s@ == utf8_lossy(b@),
        !valid_utf8(b@) ==> s@.len() > 0,
{
    String::from_utf8_lossy(b).to_string()
}

/// The value of one hexadecimal digit.
fn hex(b: u8) -> (r: Option<u8>)
    ensures
        r == hex_value(b),
        r matches Some(v) ==> v < 16,
{
    if 48 <= b && b <= 57 {
        Some(b - 48)
    } else if 97 <= b && b <= 102 {
        Some(b - 87)
    } else if 65 <= b && b <= 70 {
        Some(b - 55)
    } else {
        None
    }
}

/// The bytes of `b` with each escape replaced by the byte that it writes.
pub fn percent_decode_bytes(b: &[u8]) -> (out: Vec<u8>)
    ensures
        out@ == unescaped(b@),
{
    let mut out: Vec<u8> = Vec::with_capacity(b.len());
    let mut i: usize = 0;
    assert(b@.skip(0) =~= b@);
    assert(out@ + unescaped(b@) =~= unescaped(b@));
    while i < b.len()
        invariant
            i <= b@.len(),
            out@ + unescaped(b@.skip(i as int)) == unescaped(b@),
        decreases b.len() - i,
    {
        let ghost rest = b@.skip(i as int);
        let ghost before = out@;
        let mut width: usize = 1;
        let mut byte: u8 = b[i];
        if b[i] == 37 && b.len() - i >= 3 {
            match (hex(b[i + 1]), hex(b[i + 2])) {
                (Some(high), Some(low)) => {
                    width = 3;
                    byte = high * 16 + low;
                },
                (None, Some(low)) => {
                    if b[i + 1] == 43 {
                        width = 3;
                        byte = low;
                    }
                },
                _ => {},
            }
        }
        out.push(byte);
        assert(rest.skip(width as int) =~= b@.skip(i + width));
        assert(out@ + unescaped(b@.skip(i + width)) =~= before + unescaped(rest));
        i += width;
    }
    assert(b@.skip(i as int) =~= seq![]);
    assert(out@ + unescaped(b@.skip(i as int)) =~= out@);
    out
}

/// Decodes a percent-encoded string.
pub fn percent_decode(s: &str) -> (r: String)
    ensures
        r@ == percent_decoded(s@),
        s@.len() > 0 ==> r@.len() > 0,
{
    let bytes = percent_decode_bytes(s.as_bytes());
    assert(s@.len() > 0 ==> encode_utf8(s@).len() > 0);
    from_utf8_lossy(bytes.as_slice())
}

/// Percent-encodes a path.
pub fn percent_encode(s: &str) -> (r: String)
    ensures
        r@ == percent_encoded(s@),
{
    let v = text::chars_of(s);
    let mut r = String::new();
    let mut i: usize = 0;
    assert(v@.skip(0) =~= v@);
    assert(r@ + percent_encoded(v@) =~= percent_encoded(s@));
    while i < v.len()
        invariant
            i <= v@.len(),
            r@ + percent_encoded(v@.skip(i as int)) == percent_encoded(s@),
        decreases v.len() - i,
    {
        let ghost before = r@;
        let ghost rest = v@.skip(i as int);
        assert(rest.skip(1) =~= v@.skip(i + 1));
        match v[i] {
            '%' => {
                r.push('%');
                r.push('2');
                r.push('5');
            },
            '\n' => {
                r.push('%');
                r.push('0');
                r.push('A');
            },
            '\r' => {
                r.push('%');
                r.push('0');
                r.push('D');
            },
            c => {
                r.push(c);
            },
        }
        assert(r@ =~= before + encoded_char(v@[i as int]));
        i += 1;
        assert(r@ + percent_encoded(v@.skip(i as int)) =~= before + percent_encoded(rest));
    }
    assert(v@.skip(i as int) =~= seq![]);
    assert(r@ + percent_encoded(v@.skip(i as int)) =~= r@);
    r
}

/// Decoding undoes every encoding, whichever bytes it escapes and in whichever
/// case it writes the digits.
pub proof fn law_decoding_undoes_encoding(e: Seq<u8>, b: Seq<u8>)
    requires
        is_encoding(e, b),
    ensures
        unescaped(e) == b,
    decreases b.len(),
{
    if b.len() > 0 {
        if e[0] == b[0] && b[0] != 37 && is_encoding(e.skip(1), b.skip(1)) {
            law_decoding_undoes_encoding(e.skip(1), b.skip(1));
        } else {
            law_decoding_undoes_encoding(e.skip(3), b.skip(1));
            assert(escaped_byte(e) == Some(b[0]));
        }
        assert(seq![b[0]] + b.skip(1) =~= b);
    }
}

/// A text that is written down in any encoding reads back as that text.
pub proof fn law_encoded_text_reads_back(t: Seq<char>, s: Seq<char>)
    requires
        is_encoding(encode_utf8(s), encode_utf8(t)),
    ensures
        percent_decoded(s) == t,
{
    law_decoding_undoes_encoding(encode_utf8(s), encode_utf8(t));
    encode_utf8_valid_utf8(t);
    encode_utf8_decode_utf8(t);
}

/// Texts are encoded one behind the other.
proof fn lemma_encode_joined(a: Seq<char>, b: Seq<char>)
    ensures
        encode_utf8(a + b) == encode_utf8(a) + encode_utf8(b),
    decreases a.len(),
{
    if a.len() == 0 {
        assert(a + b =~= b);
        assert(encode_utf8(a) + encode_utf8(b) =~= encode_utf8(b));
    } else {
        lemma_encode_joined(a.drop_first(), b);
        assert((a + b).drop_first() =~= a.drop_first() + b);
        assert(encode_utf8(a + b) =~= encode_utf8(a) + encode_utf8(b));
    }
}

/// Encodings may be put one behind the other.
proof fn lemma_encodings_joined(e1: Seq<u8>, b1: Seq<u8>, e2: Seq<u8>, b2: Seq<u8>)
    requires
        is_encoding(e1, b1),
        is_encoding(e2, b2),
    ensures
        is_encoding(e1 + e2, b1 + b2),
    decreases b1.len(),
{
    let (e, b) = (e1 + e2, b1 + b2);
    if b1.len() == 0 {
        assert(e =~= e2 && b =~= b2);
    } else {
        assert(b.skip(1) =~= b1.skip(1) + b2);
        if e1[0] == b1[0] && b1[0] != 37 && is_encoding(e1.skip(1), b1.skip(1)) {
            lemma_encodings_joined(e1.skip(1), b1.skip(1), e2, b2);
            assert(e.skip(1) =~= e1.skip(1) + e2);
        } else {
            lemma_encodings_joined(e1.skip(3), b1.skip(1), e2, b2);
            assert(e.skip(3) =~= e1.skip(3) + e2);
        }
    }
}

/// Bytes without a percent sign are an encoding of themselves.
proof fn lemma_plain_encoding(b: Seq<u8>)
    requires
        forall|i: int| 0 <= i < b.len() ==> #[trigger] b[i] != 37,
    ensures
        is_encoding(b, b),
    decreases b.len(),
{
    if b.len() > 0 {
        assert forall|i: int| 0 <= i < b.skip(1).len() implies #[trigger] b.skip(1)[i] != 37 by {
            assert(b.skip(1)[i] == b[i + 1]);
        }
        lemma_plain_encoding(b.skip(1));
        assert(b[0] != 37);
    }
}

/// Only the percent sign has the byte of a percent sign.
proof fn lemma_percent_byte(c: char)
    requires
        c != '%',
    ensures
        forall|i: int|
            0 <= i < encode_scalar(c as u32).len() ==> #[trigger] encode_scalar(c as u32)[i] != 37,
{
    let v = c as u32;
    assert(v <= 0x7f ==> (v & 0x7f) as u8 == v) by (bit_vector);
    assert(forall|x: u8| #[trigger] (0x80u8 | x) >= 128) by (bit_vector);
    assert(forall|x: u8| #[trigger] (0xc0u8 | x) >= 128) by (bit_vector);
    assert(forall|x: u8| #[trigger] (0xe0u8 | x) >= 128) by (bit_vector);
    assert(forall|x: u8| #[trigger] (0xf0u8 | x) >= 128) by (bit_vector);
}

/// A written character is an encoding of the character.
proof fn lemma_encoded_char(c: char)
    ensures
        is_encoding(encode_utf8(encoded_char(c)), encode_scalar(c as u32)),
{
    let e = encode_utf8(encoded_char(c));
    let b = encode_scalar(c as u32);
    reveal_with_fuel(encode_utf8, 4);
    if c == '%' || c == '\n' || c == '\r' {
        assert(0x25u32 & 0x7f == 0x25 && 0x0au32 & 0x7f == 0x0a && 0x0du32 & 0x7f == 0x0d
            && 0x30u32 & 0x7f == 0x30 && 0x32u32 & 0x7f == 0x32 && 0x35u32 & 0x7f == 0x35
            && 0x41u32 & 0x7f == 0x41 && 0x44u32 & 0x7f == 0x44) by (bit_vector);
        let digits: Seq<u8> = if c == '%' {
            seq![37, 50, 53]
        } else if c == '\n' {
            seq![37, 48, 65]
        } else {
            seq![37, 48, 68]
        };
        assert(e =~= digits);
        assert(b =~= seq![c as u8]);
        assert(e.skip(3) =~= seq![] && b.skip(1) =~= seq![]);
        reveal_with_fuel(is_encoding, 2);
        assert(hex_value(e[1]) == Some((b[0] / 16) as u8));
        assert(hex_value(e[2]) == Some((b[0] % 16) as u8));
    } else {
        assert(seq![c].drop_first() =~= seq![]);
        assert(e =~= b);
        lemma_percent_byte(c);
        lemma_plain_encoding(b);
    }
}

/// How a path is written is an encoding of the path, so it reads back as that
/// path, whatever characters are in it.
pub proof fn law_written_path_reads_back(s: Seq<char>)
    ensures
        is_encoding(encode_utf8(percent_encoded(s)), encode_utf8(s)),
        percent_decoded(percent_encoded(s)) == s,
    decreases s.len(),
{
    if s.len() > 0 {
        let rest = s.skip(1);
        law_written_path_reads_back(rest);
        lemma_encoded_char(s[0]);
        lemma_encode_joined(encoded_char(s[0]), percent_encoded(rest));
        lemma_encodings_joined(
            encode_utf8(encoded_char(s[0])),
            encode_scalar(s[0] as u32),
            encode_utf8(percent_encoded(rest)),
            encode_utf8(rest),
        );
        assert(s.drop_first() =~= rest);
    }
    law_encoded_text_reads_back(s, percent_encoded(s));
}

/// A written path takes one line.
pub proof fn law_written_path_is_one_line(s: Seq<char>)
    ensures
        !percent_encoded(s).contains('\n'),
        !percent_encoded(s).contains('\r'),
    decreases s.len(),
{
    if s.len() > 0 {
        law_written_path_is_one_line(s.skip(1));
        let e = percent_encoded(s);
        let n = encoded_char(s[0]).len();
        assert forall|i: int| 0 <= i < e.len() implies #[trigger] e[i] != '\n' && e[i] != '\r' by {
            if i >= n {
                let rest = percent_encoded(s.skip(1));
                assert(e[i] == rest[i - n]);
                assert(rest.contains(rest[i - n]));
            }
        }
    }
}

/// Bytes without an escape stay as they are.
pub proof fn law_plain_bytes_stay(b: Seq<u8>)
    requires
        forall|i: int| 0 <= i < b.len() ==> escaped_byte(#[trigger] b.skip(i)) is None,
    ensures
        unescaped(b) == b,
    decreases b.len(),
{
    if b.len() > 0 {
        assert(b.skip(0) =~= b);
        let rest = b.skip(1);
        assert forall|i: int| 0 <= i < rest.len() implies escaped_byte(
            #[trigger] rest.skip(i),
        ) is None by {
            assert(rest.skip(i) =~= b.skip(i + 1));
        }
        law_plain_bytes_stay(rest);
        assert(seq![b[0]] + rest =~= b);
    }
}

/// A text without an escape stands for itself.
pub proof fn law_plain_text_stays(s: Seq<char>)
    requires
        forall|i: int|
            0 <= i < encode_utf8(s).len() ==> escaped_byte(
                #[trigger] encode_utf8(s).skip(i),
            ) is None,
    ensures
        percent_decoded(s) == s,
{
    law_plain_bytes_stay(encode_utf8(s));
    encode_utf8_valid_utf8(s);
    encode_utf8_decode_utf8(s);
}

/// A byte that is no percent sign stays as it is, whatever stands behind it.
pub proof fn law_other_byte_stays(x: u8, rest: Seq<u8>)
    requires
        x != 37,
    ensures
        unescaped(seq![x] + rest) == seq![x] + unescaped(rest),
{
    let b = seq![x] + rest;
    assert(b[0] == x);
    assert(b.skip(1) =~= rest);
}

/// A percent sign and two hexadecimal digits in either case are read as the byte
/// of that value.
pub proof fn law_escape_is_read(high: u8, low: u8, h: u8, l: u8, rest: Seq<u8>)
    requires
        high < 16,
        low < 16,
        h == high + 48 && high < 10 || h == high + 55 && high >= 10 || h == high + 87 && high >= 10,
        l == low + 48 && low < 10 || l == low + 55 && low >= 10 || l == low + 87 && low >= 10,
    ensures
        unescaped(seq![37u8, h, l] + rest) == seq![(16 * high + low) as u8] + unescaped(rest),
{
    let b = seq![37u8, h, l] + rest;
    assert(b[0] == 37 && b[1] == h && b[2] == l);
    assert(b.skip(3) =~= rest);
}

/// A percent sign, a plus sign and one hexadecimal digit are read as the byte of
/// that value.
pub proof fn law_signed_escape_is_read(low: u8, l: u8, rest: Seq<u8>)
    requires
        low < 16,
        l == low + 48 && low < 10 || l == low + 55 && low >= 10 || l == low + 87 && low >= 10,
    ensures
        unescaped(seq![37u8, 43u8, l] + rest) == seq![low] + unescaped(rest),
{
    let b = seq![37u8, 43u8, l] + rest;
    assert(b[0] == 37 && b[1] == 43 && b[2] == l);
    assert(b.skip(3) =~= rest);
}

/// A percent sign that starts no escape stays as it is: fewer than two bytes
/// stand behind it, or they are not two hexadecimal digits, nor a plus sign and
/// one.
pub proof fn law_lone_percent_sign_stays(rest: Seq<u8>)
    requires
        ({
            let hex = |x: u8| 48 <= x <= 57 || 65 <= x <= 70 || 97 <= x <= 102;
            rest.len() < 2 || !hex(rest[1]) || !(hex(rest[0]) || rest[0] == 43)
        }),
    ensures
        unescaped(seq![37u8] + rest) == seq![37u8] + unescaped(rest),
{
    let b = seq![37u8] + rest;
    assert(b[0] == 37);
    if rest.len() >= 2 {
        assert(b[1] == rest[0] && b[2] == rest[1]);
    }
    assert(b.skip(1) =~= rest);
}

/// A text without a percent sign stands for itself.
pub proof fn law_text_without_percent_signs_stays(s: Seq<char>)
    requires
        !s.contains('%'),
    ensures
        percent_decoded(s) == s,
{
    lemma_no_percent_byte(s);
    lemma_plain_encoding(encode_utf8(s));
    law_encoded_text_reads_back(s, s);
}

/// A text without a percent sign has no such byte.
proof fn lemma_no_percent_byte(s: Seq<char>)
    requires
        !s.contains('%'),
    ensures
        forall|i: int| 0 <= i < encode_utf8(s).len() ==> #[trigger] encode_utf8(s)[i] != 37,
    decreases s.len(),
{
    if s.len() > 0 {
        let t = s.drop_first();
        assert(s.contains(s[0]));
        assert forall|i: int| 0 <= i < t.len() implies t[i] != '%' by {
            assert(s.contains(s[i + 1]));
        }
        lemma_no_percent_byte(t);
        lemma_percent_byte(s[0]);
        let head = encode_scalar(s[0] as u32);
        assert forall|i: int| 0 <= i < encode_utf8(s).len() implies #[trigger] encode_utf8(s)[i]
            != 37 by {
            if i < head.len() {
                assert(encode_utf8(s)[i] == head[i]);
            } else {
                assert(encode_utf8(s)[i] == encode_utf8(t)[i - head.len()]);
            }
        }
    }
}

/// A path is written character by character: percent signs and the ends of
/// lines as escapes, and every other character as it is.
pub proof fn law_paths_are_written_by_character(c: char, rest: Seq<char>)
    ensures
        percent_encoded(seq!['%'] + rest) == seq!['%', '2', '5'] + percent_encoded(rest),
        percent_encoded(seq!['\n'] + rest) == seq!['%', '0', 'A'] + percent_encoded(rest),
        percent_encoded(seq!['\r'] + rest) == seq!['%', '0', 'D'] + percent_encoded(rest),
        c != '%' && c != '\n' && c != '\r' ==> percent_encoded(seq![c] + rest) == seq![c]
            + percent_encoded(rest),
        percent_encoded(seq![]) == Seq::<char>::empty(),
{
    assert((seq!['%'] + rest).skip(1) =~= rest);
    assert((seq!['\n'] + rest).skip(1) =~= rest);
    assert((seq!['\r'] + rest).skip(1) =~= rest);
    assert((seq![c] + rest).skip(1) =~= rest);
}

/// Text is not changed by being turned into bytes and back.
pub proof fn law_valid_bytes_are_their_text(s: Seq<char>)
    ensures
        lossy_text(encode_utf8(s)) == s,
{
    encode_utf8_valid_utf8(s);
    encode_utf8_decode_utf8(s);
}

/// A path without percent signs and ends of lines is written as it is.
pub proof fn law_plain_path_is_written_as_it_is(s: Seq<char>)
    requires
        !s.contains('%'),
        !s.contains('\n'),
        !s.contains('\r'),
    ensures
        percent_encoded(s) == s,
    decreases s.len(),
{
    if s.len() > 0 {
        let t = s.skip(1);
        assert(s.contains(s[0]));
        assert forall|i: int| 0 <= i < t.len() implies t[i] != '%' && t[i] != '\n' && t[i] != '\r' by {
            assert(s.contains(s[i + 1]));
        }
        law_plain_path_is_written_as_it_is(t);
        assert(s =~= seq![s[0]] + t);
    }
}

} // verus!
