//! Byte/text codecs used by the converter and the algorithm checks:
//! standard Base64 (through the `base64` crate) and UTF-8 (through std).

use vstd::prelude::*;
use vstd::utf8::{decode_utf8, encode_utf8, valid_utf8};
use vstd::string::StringSliceAdditionalSpecFns;
use base64::Engine;

verus! {

/// The characters of the standard Base64 alphabet, plus the padding `=`.
pub open spec fn is_base64_alphabet(c: char) -> bool {
    ||| 'A' <= c <= 'Z'
    ||| 'a' <= c <= 'z'
    ||| '0' <= c <= '9'
    ||| c == '+'
    ||| c == '/'
    ||| c == '='
}

/// The digit of the standard Base64 alphabet for a 6-bit value `v`:
/// `A`-`Z`, `a`-`z`, `0`-`9`, `+`, `/`.
pub open spec fn base64_digit(v: int) -> char {
    if v < 26 {
        ((65 + v) as u32) as char
    } else if v < 52 {
        ((97 + v - 26) as u32) as char
    } else if v < 62 {
        ((48 + v - 52) as u32) as char
    } else if v == 62 {
        '+'
    } else {
        '/'
    }
}

/// The standard Base64 encoding (RFC 4648, section 4) of `bytes`: every
/// group of three bytes becomes four digits of six bits each, most
/// significant first; a last group of one or two bytes is padded with
/// zero bits and completed with `=` to four characters.
pub open spec fn base64_encoding_of(bytes: Seq<u8>) -> Seq<char>
    decreases bytes.len(),
{
    if bytes.len() == 0 {
        seq![]
    } else if bytes.len() == 1 {
        let b0 = bytes[0] as int;
        seq![base64_digit(b0 / 4), base64_digit((b0 % 4) * 16), '=', '=']
    } else if bytes.len() == 2 {
        let b0 = bytes[0] as int;
        let b1 = bytes[1] as int;
        seq![base64_digit(b0 / 4), base64_digit((b0 % 4) * 16 + b1 / 16), base64_digit((b1 % 16) * 4), '=']
    } else {
        let b0 = bytes[0] as int;
        let b1 = bytes[1] as int;
        let b2 = bytes[2] as int;
        seq![
            base64_digit(b0 / 4),
            base64_digit((b0 % 4) * 16 + b1 / 16),
            base64_digit((b1 % 16) * 4 + b2 / 64),
            base64_digit(b2 % 64),
        ] + base64_encoding_of(bytes.skip(3))
    }
}

/// What the standard engine decodes `input` to: the bytes whose (padded,
/// canonical) encoding `input` is, or `None` when `input` is no such
/// encoding. The encoding is one-to-one, so those bytes are unique.
pub open spec fn base64_decoding_of(input: Seq<u8>) -> Option<Seq<u8>> {
    if exists|b: Seq<u8>| encode_utf8(#[trigger] base64_encoding_of(b)) == input {
        Some(choose|b: Seq<u8>| encode_utf8(#[trigger] base64_encoding_of(b)) == input)
    } else {
        None
    }
}

/// `base64::engine::general_purpose::STANDARD.encode`: the RFC 4648
/// standard alphabet with `=` padding. The engine panics only when the
/// encoded length overflows `usize`, which the bound on `bytes` (any
/// allocated buffer's bound) rules out.
#[verifier::external_body]
pub(crate) fn base64_encode(bytes: &[u8]) -> (r: String)
    requires
        bytes@.len() <= isize::MAX,
    ensures
        r@ == base64_encoding_of(bytes@),
{
    base64::engine::general_purpose::STANDARD.encode(bytes)
}

/// `base64::engine::general_purpose::STANDARD.decode`. Its configuration
/// (`PAD`: canonical padding required, no trailing bits allowed) accepts
/// exactly the inputs that are the encoding of some bytes, and returns
/// those bytes; every other input is a `DecodeError`, here `None`. As any
/// `Vec<u8>`, the result holds at most `isize::MAX` bytes.
#[verifier::external_body]
pub(crate) fn base64_decode(input: &[u8]) -> (r: Option<Vec<u8>>)
    ensures
        match r {
            Some(v) => base64_decoding_of(input@) == Some(v@) && v@.len() <= isize::MAX,
            None => base64_decoding_of(input@) == None::<Seq<u8>>,
        },
{
    base64::engine::general_purpose::STANDARD.decode(input).ok()
}

/// Every Base64 digit is in the alphabet.
proof fn lemma_base64_digit(v: int)
    requires
        0 <= v < 64,
    ensures
        is_base64_alphabet(base64_digit(v)),
        base64_digit(v) != '=',
{
}

/// Base64 output uses only the alphabet and `=`.
pub proof fn lemma_base64_alphabet(bytes: Seq<u8>)
    ensures
        forall|i: int| 0 <= i < base64_encoding_of(bytes).len() ==> is_base64_alphabet(
            #[trigger] base64_encoding_of(bytes)[i],
        ),
    decreases bytes.len(),
{
    if bytes.len() == 0 {
    } else if bytes.len() <= 2 {
        let b0 = bytes[0] as int;
        lemma_base64_digit(b0 / 4);
        if bytes.len() == 1 {
            lemma_base64_digit((b0 % 4) * 16);
        } else {
            let b1 = bytes[1] as int;
            lemma_base64_digit((b0 % 4) * 16 + b1 / 16);
            lemma_base64_digit((b1 % 16) * 4);
        }
    } else {
        let b0 = bytes[0] as int;
        let b1 = bytes[1] as int;
        let b2 = bytes[2] as int;
        lemma_base64_digit(b0 / 4);
        lemma_base64_digit((b0 % 4) * 16 + b1 / 16);
        lemma_base64_digit((b1 % 16) * 4 + b2 / 64);
        lemma_base64_digit(b2 % 64);
        lemma_base64_alphabet(bytes.skip(3));
        let head = seq![
            base64_digit(b0 / 4),
            base64_digit((b0 % 4) * 16 + b1 / 16),
            base64_digit((b1 % 16) * 4 + b2 / 64),
            base64_digit(b2 % 64),
        ];
        let tail = base64_encoding_of(bytes.skip(3));
        assert forall|i: int| 0 <= i < base64_encoding_of(bytes).len() implies is_base64_alphabet(
            #[trigger] base64_encoding_of(bytes)[i],
        ) by {
            if i >= 4 {
                assert(base64_encoding_of(bytes)[i] == tail[i - 4]);
            }
        }
    }
}

/// Different digits stand for different values.
proof fn lemma_base64_digit_injective(v: int, w: int)
    requires
        0 <= v < 64,
        0 <= w < 64,
        base64_digit(v) == base64_digit(w),
    ensures
        v == w,
{
}

/// The first group of four characters of an encoding.
proof fn lemma_base64_head(a: Seq<u8>)
    ensures
        a.len() == 0 ==> base64_encoding_of(a).len() == 0,
        a.len() > 0 ==> ({
            let e = base64_encoding_of(a);
            let a0 = a[0] as int;
            let a1 = if a.len() >= 2 { a[1] as int } else { 0 };
            let a2 = if a.len() >= 3 { a[2] as int } else { 0 };
            &&& e.len() >= 4
            &&& e[0] == base64_digit(a0 / 4)
            &&& e[1] == base64_digit((a0 % 4) * 16 + a1 / 16)
            &&& e[2] == (if a.len() >= 2 { base64_digit((a1 % 16) * 4 + a2 / 64) } else { '=' })
            &&& e[3] == (if a.len() >= 3 { base64_digit(a2 % 64) } else { '=' })
            &&& a.len() >= 3 ==> e.skip(4) == base64_encoding_of(a.skip(3))
        }),
{
    let e = base64_encoding_of(a);
    if a.len() >= 3 {
        assert(e.skip(4) =~= base64_encoding_of(a.skip(3)));
    }
}

/// Different bytes have different encodings.
pub proof fn lemma_base64_injective(a: Seq<u8>, b: Seq<u8>)
    requires
        base64_encoding_of(a) == base64_encoding_of(b),
    ensures
        a == b,
    decreases a.len(),
{
    let e = base64_encoding_of(a);
    lemma_base64_head(a);
    lemma_base64_head(b);
    if a.len() == 0 || b.len() == 0 {
        assert(a.len() == 0 && b.len() == 0);
        assert(a =~= b);
    } else {
        let a0 = a[0] as int;
        let b0 = b[0] as int;
        let a1 = if a.len() >= 2 { a[1] as int } else { 0 };
        let b1 = if b.len() >= 2 { b[1] as int } else { 0 };
        let a2 = if a.len() >= 3 { a[2] as int } else { 0 };
        let b2 = if b.len() >= 3 { b[2] as int } else { 0 };
        lemma_base64_digit(a2 % 64);
        lemma_base64_digit(b2 % 64);
        lemma_base64_digit((a1 % 16) * 4 + a2 / 64);
        lemma_base64_digit((b1 % 16) * 4 + b2 / 64);
        // The number of bytes of the first group shows in its padding.
        assert(a.len() >= 3 <==> b.len() >= 3);
        assert(a.len() >= 2 <==> b.len() >= 2);
        lemma_base64_digit(a0 / 4);
        lemma_base64_digit(b0 / 4);
        lemma_base64_digit_injective(a0 / 4, b0 / 4);
        lemma_base64_digit((a0 % 4) * 16 + a1 / 16);
        lemma_base64_digit((b0 % 4) * 16 + b1 / 16);
        lemma_base64_digit_injective((a0 % 4) * 16 + a1 / 16, (b0 % 4) * 16 + b1 / 16);
        assert(a0 == b0);
        assert(a1 / 16 == b1 / 16);
        if a.len() >= 2 {
            lemma_base64_digit_injective((a1 % 16) * 4 + a2 / 64, (b1 % 16) * 4 + b2 / 64);
            assert(a1 == b1);
            assert(a2 / 64 == b2 / 64);
        }
        if a.len() >= 3 {
            lemma_base64_digit_injective(a2 % 64, b2 % 64);
            assert(a2 == b2);
            lemma_base64_injective(a.skip(3), b.skip(3));
            assert(a =~= seq![a[0], a[1], a[2]] + a.skip(3));
            assert(b =~= seq![b[0], b[1], b[2]] + b.skip(3));
        } else {
            assert(a =~= b);
        }
    }
}

/// Decoding the encoding of `bytes` gives `bytes` back.
pub proof fn lemma_base64_roundtrip(bytes: Seq<u8>)
    ensures
        base64_decoding_of(encode_utf8(base64_encoding_of(bytes))) == Some(bytes),
{
    let input = encode_utf8(base64_encoding_of(bytes));
    assert(encode_utf8(base64_encoding_of(bytes)) == input);
    let c = choose|b: Seq<u8>| encode_utf8(#[trigger] base64_encoding_of(b)) == input;
    vstd::utf8::encode_utf8_decode_utf8(base64_encoding_of(c));
    vstd::utf8::encode_utf8_decode_utf8(base64_encoding_of(bytes));
    lemma_base64_injective(c, bytes);
}

/// `String::from_utf8`: succeeds exactly on well-formed UTF-8 and then holds
/// the decoded characters.
#[verifier::external_body]
pub(crate) fn utf8_string(bytes: Vec<u8>) -> (r: Option<String>)
    ensures
        r is Some <==> valid_utf8(bytes@),
        r matches Some(s) ==> s@ == decode_utf8(bytes@),
{
    String::from_utf8(bytes).ok()
}

/// `str::len`: the length of the UTF-8 encoding. Like every allocation it is
/// at most `isize::MAX` bytes.
#[verifier::external_body]
pub(crate) fn utf8_len(s: &str) -> (n: usize)
    ensures
        n == s.spec_bytes().len(),
        n <= isize::MAX,
{
    s.len()
}

/// The UTF-8 bytes of `s`, in a fresh vector.
pub fn utf8_bytes(s: &str) -> (r: Vec<u8>)
    ensures
        r@ == encode_utf8(s@),
        r@.len() <= isize::MAX,
{
    let n = utf8_len(s);
    let b = s.as_bytes();
    let mut out: Vec<u8> = Vec::new();
    let mut i: usize = 0;
    while i < b.len()
        invariant
            b@ == s.spec_bytes(),
            n == b@.len(),
            i <= b@.len(),
            out@ == b@.take(i as int),
        decreases b@.len() - i,
    {
        out.push(b[i]);
        i = i + 1;
        assert(out@ =~= b@.take(i as int));
    }
    assert(b@.take(b@.len() as int) =~= b@);
    out
}

/// Every character takes at least one byte.
pub proof fn lemma_encode_utf8_len(s: Seq<char>)
    ensures
        encode_utf8(s).len() >= s.len(),
    decreases s.len(),
{
    if s.len() > 0 {
        lemma_encode_utf8_len(s.drop_first());
    }
}

} // verus!
