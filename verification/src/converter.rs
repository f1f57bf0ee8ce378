//! Conversion between plain text, binary (space-separated 8-bit groups) and
//! Base64, with the input checks the converter screen performs.

use vstd::prelude::*;
use vstd::utf8::{decode_utf8, encode_utf8, valid_utf8};
use crate::text::{
    chars_of, is_white_space, owned, push_char, split_words, str_result, trim, trim_str, words,
    lemma_words_len, char_is_whitespace, word_len, lemma_word_len_bound, lemma_word_len_is,
};
use crate::codec::{
    base64_decode, base64_decoding_of, base64_encode, base64_encoding_of, is_base64_alphabet,
    utf8_bytes, utf8_string, lemma_encode_utf8_len,
};

verus! {

/// The three representations a value can be converted between.
#[derive(Debug, Clone, Copy, PartialEq, Eq, Structural)]
pub enum ConvType {
    Text,
    Binary,
    Base64,
}

/// The label of each representation.
pub open spec fn conv_label(t: ConvType) -> Seq<char> {
    match t {
        ConvType::Text => "Text"@,
        ConvType::Binary => "Binary"@,
        ConvType::Base64 => "Base64"@,
    }
}

impl ConvType {
    /// Every representation, in canonical order.
    pub fn all() -> (r: [ConvType; 3])
        ensures
            r@ == seq![ConvType::Text, ConvType::Binary, ConvType::Base64],
    {
        [ConvType::Text, ConvType::Binary, ConvType::Base64]
    }

    /// The label of this representation.
    pub fn label(&self) -> (r: &'static str)
        ensures
            r@ == conv_label(*self),
    {
        match self {
            ConvType::Text => "Text",
            ConvType::Binary => "Binary",
            ConvType::Base64 => "Base64",
        }
    }

    /// The first representation in canonical order that is not `self`.
    pub fn first_other(&self) -> (r: ConvType)
        ensures
            r != *self,
            *self == ConvType::Text ==> r == ConvType::Binary,
            *self != ConvType::Text ==> r == ConvType::Text,
    {
        match self {
            ConvType::Text => ConvType::Binary,
            _ => ConvType::Text,
        }
    }
}

/// Characters accepted in binary input.
pub open spec fn is_binary_input_char(c: char) -> bool {
    c == '0' || c == '1' || is_white_space(c)
}

/// Characters accepted in Base64 input.
pub open spec fn is_base64_input_char(c: char) -> bool {
    is_base64_alphabet(c)
}

/// The outcome of checking `input` before converting it from `from`.
pub open spec fn validation(input: Seq<char>, from: ConvType) -> Result<(), Seq<char>> {
    if trim(input).len() == 0 {
        Err("Please enter a value"@)
    } else {
        match from {
            ConvType::Binary => if forall|i: int| 0 <= i < input.len() ==> is_binary_input_char(#[trigger] input[i]) {
                Ok(())
            } else {
                Err("Value must be binary (0s and 1s)"@)
            },
            ConvType::Base64 => if forall|i: int| 0 <= i < input.len() ==> is_base64_input_char(#[trigger] input[i]) {
                Ok(())
            } else {
                Err("Value must be valid Base64"@)
            },
            ConvType::Text => Ok(()),
        }
    }
}

fn all_chars_binary(v: &Vec<char>) -> (r: bool)
    ensures
        r == forall|i: int| 0 <= i < v@.len() ==> is_binary_input_char(#[trigger] v@[i]),
{
    let mut i: usize = 0;
    while i < v.len()
        invariant
            i <= v@.len(),
            forall|k: int| 0 <= k < i ==> is_binary_input_char(#[trigger] v@[k]),
        decreases v@.len() - i,
    {
        let c = v[i];
        if !(c == '0' || c == '1' || char_is_whitespace(c)) {
            assert(!is_binary_input_char(v@[i as int]));
            return false;
        }
        i = i + 1;
    }
    true
}

fn all_chars_base64(v: &Vec<char>) -> (r: bool)
    ensures
        r == forall|i: int| 0 <= i < v@.len() ==> is_base64_input_char(#[trigger] v@[i]),
{
    let mut i: usize = 0;
    while i < v.len()
        invariant
            i <= v@.len(),
            forall|k: int| 0 <= k < i ==> is_base64_input_char(#[trigger] v@[k]),
        decreases v@.len() - i,
    {
        let c = v[i];
        if !(('A' <= c && c <= 'Z') || ('a' <= c && c <= 'z') || ('0' <= c && c <= '9') || c == '+'
            || c == '/' || c == '=') {
            assert(!is_base64_input_char(v@[i as int]));
            return false;
        }
        i = i + 1;
    }
    true
}

/// Checks `input` before a conversion from `from_type`: it must not be
/// blank, binary input may only hold `0`, `1` and whitespace, and Base64
/// input only the Base64 alphabet and `=`.
pub fn validate_input(input: &str, from_type: ConvType) -> (r: Result<(), String>)
    ensures
        match r {
            Ok(()) => validation(input@, from_type) is Ok,
            Err(e) => validation(input@, from_type) == Err::<(), Seq<char>>(e@),
        },
{
    let t = trim_str(input);
    if t.unicode_len() == 0 {
        return Err(owned("Please enter a value"));
    }
    let v = chars_of(input);
    match from_type {
        ConvType::Binary => {
            if !all_chars_binary(&v) {
                return Err(owned("Value must be binary (0s and 1s)"));
            }
        },
        ConvType::Base64 => {
            if !all_chars_base64(&v) {
                return Err(owned("Value must be valid Base64"));
            }
        },
        ConvType::Text => {},
    }
    Ok(())
}

/// The character for one bit.
pub open spec fn bit_char(b: u8) -> char {
    if b == 1 { '1' } else { '0' }
}

/// The eight binary digits of `b`, most significant first (`format!("{:08b}", b)`).
pub open spec fn bits8(b: u8) -> Seq<char> {
    seq![
        bit_char((b >> 7u8) & 1u8), bit_char((b >> 6u8) & 1u8), bit_char((b >> 5u8) & 1u8),
        bit_char((b >> 4u8) & 1u8), bit_char((b >> 3u8) & 1u8), bit_char((b >> 2u8) & 1u8),
        bit_char((b >> 1u8) & 1u8), bit_char(b & 1u8),
    ]
}

/// Bytes written as 8-bit groups separated by single spaces.
pub open spec fn binary_text(bs: Seq<u8>) -> Seq<char>
    decreases bs.len(),
{
    if bs.len() == 0 {
        seq![]
    } else if bs.len() == 1 {
        bits8(bs[0])
    } else {
        binary_text(bs.drop_last()) + seq![' '] + bits8(bs.last())
    }
}

/// The value of a string of binary digits.
pub open spec fn bin_value(s: Seq<char>) -> nat
    decreases s.len(),
{
    if s.len() == 0 {
        0
    } else {
        2 * bin_value(s.drop_last()) + (if s.last() == '1' { 1nat } else { 0nat })
    }
}

/// Whether `s` consists of binary digits only.
pub open spec fn all_binary_digits(s: Seq<char>) -> bool {
    forall|i: int| 0 <= i < s.len() ==> (#[trigger] s[i] == '0' || s[i] == '1')
}

/// `u8::from_str_radix(g, 2)`: an optional `+` followed by at least one
/// binary digit, with a value below 256.
pub open spec fn binary_group_value(g: Seq<char>) -> Option<u8> {
    let digits = if g.len() > 0 && g[0] == '+' { g.drop_first() } else { g };
    if digits.len() > 0 && all_binary_digits(digits) && bin_value(digits) < 256 {
        Some(bin_value(digits) as u8)
    } else {
        None
    }
}

/// The bytes of a sequence of binary groups, if every group parses.
pub open spec fn parse_groups(gs: Seq<Seq<char>>) -> Option<Seq<u8>>
    decreases gs.len(),
{
    if gs.len() == 0 {
        Some(seq![])
    } else {
        match (parse_groups(gs.drop_last()), binary_group_value(gs.last())) {
            (Some(bs), Some(b)) => Some(bs.push(b)),
            _ => None,
        }
    }
}

/// The bytes a (trimmed) input stands for, read as `from`.
pub open spec fn input_bytes(val: Seq<char>, from: ConvType) -> Option<Seq<u8>> {
    match from {
        ConvType::Text => Some(encode_utf8(val)),
        ConvType::Binary => parse_groups(words(val)),
        ConvType::Base64 => base64_decoding_of(encode_utf8(val)),
    }
}

/// The message reported when the input cannot be read as `from`.
pub open spec fn input_error(from: ConvType) -> Seq<char> {
    match from {
        ConvType::Binary => "Invalid binary group"@,
        _ => "Invalid Base64 input"@,
    }
}

/// The result of converting `input` from `from` to `to`.
pub open spec fn conversion(input: Seq<char>, from: ConvType, to: ConvType) -> Result<Seq<char>, Seq<char>> {
    match input_bytes(trim(input), from) {
        None => Err(input_error(from)),
        Some(bs) => match to {
            ConvType::Text => if valid_utf8(bs) {
                Ok(decode_utf8(bs))
            } else {
                Err("Decoded bytes are not valid UTF-8"@)
            },
            ConvType::Binary => Ok(binary_text(bs)),
            ConvType::Base64 => Ok(base64_encoding_of(bs)),
        },
    }
}

proof fn lemma_bin_value_prefix(s: Seq<char>, k: int)
    requires
        0 <= k <= s.len(),
    ensures
        bin_value(s) >= bin_value(s.take(k)),
    decreases s.len(),
{
    if k < s.len() {
        lemma_bin_value_prefix(s.drop_last(), k);
        assert(s.drop_last().take(k) =~= s.take(k));
    } else {
        assert(s.take(k) =~= s);
    }
}

/// Parses one binary group (`u8::from_str_radix(group, 2)`).
pub fn parse_binary_group(g: &Vec<char>) -> (r: Option<u8>)
    ensures
        r == binary_group_value(g@),
{
    let start: usize = if g.len() > 0 && g[0] == '+' { 1 } else { 0 };
    let ghost digits = if g@.len() > 0 && g@[0] == '+' { g@.drop_first() } else { g@ };
    assert(digits =~= g@.skip(start as int));
    if start == g.len() {
        return None;
    }
    let mut value: u32 = 0;
    let mut i: usize = start;
    while i < g.len()
        invariant
            start <= i <= g@.len(),
            digits == g@.skip(start as int),
            digits == (if g@.len() > 0 && g@[0] == '+' { g@.drop_first() } else { g@ }),
            value < 256,
            value == bin_value(digits.take(i - start)),
            all_binary_digits(digits.take(i - start)),
        decreases g@.len() - i,
    {
        let c = g[i];
        proof {
            assert(digits.take(i - start + 1).drop_last() =~= digits.take(i - start));
            assert(digits.take(i - start + 1).last() == c);
        }
        if c != '0' && c != '1' {
            assert(digits[i - start] == c);
            assert(!all_binary_digits(digits));
            return None;
        }
        let ghost prev = value;
        value = 2 * value + (if c == '1' { 1 } else { 0 });
        i = i + 1;
        proof {
            let t = digits.take(i - start);
            assert(t.drop_last() =~= digits.take(i - start - 1));
            assert(t.last() == c);
            assert(value == bin_value(t));
            assert forall|m: int| 0 <= m < i - start implies (#[trigger] digits.take(i - start)[m] == '0'
                || digits.take(i - start)[m] == '1') by {
                if m < i - start - 1 {
                    assert(digits.take(i - start)[m] == digits.take(i - start - 1)[m]);
                }
            }
        }
        if value >= 256 {
            proof {
                lemma_bin_value_prefix(digits, i - start);
            }
            return None;
        }
    }
    assert(digits.take(g@.len() - start) =~= digits);
    Some(value as u8)
}

/// The eight binary digits of `b`.
fn push_bits8(out: &mut String, b: u8)
    ensures
        final(out)@ == old(out)@ + bits8(b),
{
    let ghost base = out@;
    push_char(out, if (b >> 7u8) & 1u8 == 1 { '1' } else { '0' });
    push_char(out, if (b >> 6u8) & 1u8 == 1 { '1' } else { '0' });
    push_char(out, if (b >> 5u8) & 1u8 == 1 { '1' } else { '0' });
    push_char(out, if (b >> 4u8) & 1u8 == 1 { '1' } else { '0' });
    push_char(out, if (b >> 3u8) & 1u8 == 1 { '1' } else { '0' });
    push_char(out, if (b >> 2u8) & 1u8 == 1 { '1' } else { '0' });
    push_char(out, if (b >> 1u8) & 1u8 == 1 { '1' } else { '0' });
    push_char(out, if b & 1u8 == 1 { '1' } else { '0' });
    assert(out@ =~= base + bits8(b));
}

/// Bytes as space-separated 8-bit groups.
pub fn binary_string(bs: &Vec<u8>) -> (r: String)
    ensures
        r@ == binary_text(bs@),
{
    let mut out = String::new();
    let mut i: usize = 0;
    while i < bs.len()
        invariant
            i <= bs@.len(),
            out@ == binary_text(bs@.take(i as int)),
        decreases bs@.len() - i,
    {
        if i > 0 {
            push_char(&mut out, ' ');
        }
        push_bits8(&mut out, bs[i]);
        proof {
            let t = bs@.take(i + 1);
            assert(t.drop_last() =~= bs@.take(i as int));
            assert(t.last() == bs@[i as int]);
            if i == 0 {
                assert(out@ =~= binary_text(t));
            } else {
                assert(out@ =~= binary_text(t));
            }
        }
        i = i + 1;
    }
    assert(bs@.take(bs@.len() as int) =~= bs@);
    out
}

/// The bytes of binary input: one byte per whitespace-separated group.
fn parse_binary_input(val: &str) -> (r: Option<Vec<u8>>)
    ensures
        match r {
            Some(v) => parse_groups(words(val@)) == Some(v@) && v@.len() <= val@.len(),
            None => parse_groups(words(val@)) is None,
        },
{
    let chars = chars_of(val);
    let groups = split_words(&chars);
    proof {
        lemma_words_len(val@);
    }
    let ghost ws = words(val@);
    let mut out: Vec<u8> = Vec::new();
    let mut i: usize = 0;
    while i < groups.len()
        invariant
            ws == words(val@),
            groups@.len() == ws.len() <= val@.len(),
            forall|k: int| 0 <= k < groups@.len() ==> (#[trigger] groups@[k])@ == ws[k],
            i <= groups@.len(),
            parse_groups(ws.take(i as int)) == Some(out@),
            out@.len() == i,
        decreases groups@.len() - i,
    {
        let b = parse_binary_group(&groups[i]);
        proof {
            let t = ws.take(i + 1);
            assert(t.drop_last() =~= ws.take(i as int));
            assert(t.last() == groups@[i as int]@);
        }
        match b {
            Some(x) => {
                out.push(x);
            },
            None => {
                proof {
                    lemma_parse_groups_prefix(ws, i + 1);
                }
                return None;
            },
        }
        i = i + 1;
    }
    assert(ws.take(ws.len() as int) =~= ws);
    Some(out)
}

proof fn lemma_parse_groups_prefix(gs: Seq<Seq<char>>, k: int)
    requires
        0 <= k <= gs.len(),
        parse_groups(gs.take(k)) is None,
    ensures
        parse_groups(gs) is None,
    decreases gs.len(),
{
    if k < gs.len() {
        assert(gs.drop_last().take(k) =~= gs.take(k));
        lemma_parse_groups_prefix(gs.drop_last(), k);
    } else {
        assert(gs.take(k) =~= gs);
    }
}

/// Converts `input` (trimmed first) from `from_type` to `to_type`: text is
/// read as its UTF-8 bytes, binary as one byte per whitespace-separated
/// group of binary digits whose value is below 256 (leading zeros are
/// allowed, so a group may be longer than eight digits), Base64 with the standard alphabet; the
/// bytes are then written as UTF-8 text, 8-bit groups or Base64.
pub fn convert(input: &str, from_type: ConvType, to_type: ConvType) -> (r: Result<String, String>)
    ensures
        str_result(r) == conversion(input@, from_type, to_type),
        // Base64 output reads back as the bytes it was made from; in particular
        // text converted to Base64 converts back to the same (trimmed) text.
        to_type == ConvType::Base64 && r is Ok ==> input_bytes(r->Ok_0@, ConvType::Base64)
            == input_bytes(trim(input@), from_type),
        from_type == ConvType::Text && to_type == ConvType::Base64 && r is Ok ==> conversion(
            r->Ok_0@,
            ConvType::Base64,
            ConvType::Text,
        ) == Ok::<Seq<char>, Seq<char>>(trim(input@)),
        // Non-empty Base64 output is itself accepted as Base64 input.
        to_type == ConvType::Base64 && r is Ok && r->Ok_0@.len() > 0 ==> validation(
            r->Ok_0@,
            ConvType::Base64,
        ) is Ok,
{
    let val = trim_str(input);
    let bytes: Vec<u8> = match from_type {
        ConvType::Text => utf8_bytes(val),
        ConvType::Binary => {
            match parse_binary_input(val) {
                Some(v) => {
                    proof {
                        lemma_encode_utf8_len(val@);
                    }
                    let _n = crate::codec::utf8_len(val);
                    v
                },
                None => {
                    return Err(owned("Invalid binary group"));
                },
            }
        },
        ConvType::Base64 => {
            let raw = utf8_bytes(val);
            match base64_decode(raw.as_slice()) {
                Some(v) => v,
                None => {
                    return Err(owned("Invalid Base64 input"));
                },
            }
        },
    };
    match to_type {
        ConvType::Text => match utf8_string(bytes) {
            Some(s) => Ok(s),
            None => Err(owned("Decoded bytes are not valid UTF-8")),
        },
        ConvType::Binary => Ok(binary_string(&bytes)),
        ConvType::Base64 => {
            let e = base64_encode(bytes.as_slice());
            proof {
                crate::codec::lemma_base64_alphabet(bytes@);
                crate::codec::lemma_base64_roundtrip(bytes@);
                if e@.len() > 0 {
                    assert(is_base64_alphabet(e@[0]));
                    assert(is_base64_alphabet(e@[e@.len() - 1]));
                    assert(!is_white_space(e@[0]) && !is_white_space(e@.last()));
                }
                lemma_trim_no_ws(e@);
                vstd::utf8::encode_utf8_valid_utf8(trim(input@));
                vstd::utf8::encode_utf8_decode_utf8(trim(input@));
            }
            Ok(e)
        },
    }
}

} // verus!

verus! {

proof fn lemma_word_len_stop(s: Seq<char>)
    ensures
        word_len(s) < s.len() ==> is_white_space(s[word_len(s) as int]),
    decreases s.len(),
{
    if s.len() > 0 && !is_white_space(s[0]) {
        lemma_word_len_stop(s.drop_first());
        if word_len(s) < s.len() {
            assert(s[word_len(s) as int] == s.drop_first()[word_len(s.drop_first()) as int]);
        }
    }
}

proof fn lemma_word_prefix(s: Seq<char>, j: int)
    requires
        0 <= j < word_len(s),
    ensures
        j < s.len(),
        !is_white_space(s[j]),
    decreases j,
{
    lemma_word_len_bound(s.drop_first());
    if j > 0 {
        lemma_word_prefix(s.drop_first(), j - 1);
        assert(s.drop_first()[j - 1] == s[j]);
    }
}

/// A non-empty run without whitespace is a single word.
proof fn lemma_words_single(b: Seq<char>)
    requires
        b.len() > 0,
        forall|j: int| 0 <= j < b.len() ==> !is_white_space(#[trigger] b[j]),
    ensures
        words(b) == seq![b],
{
    lemma_word_len_is(b, b.len() as int);
    assert(b.take(b.len() as int) =~= b);
    assert(b.skip(b.len() as int) =~= Seq::<char>::empty());
    assert(words(b.skip(b.len() as int)) =~= Seq::<Seq<char>>::empty());
    assert(words(b) =~= seq![b]);
}

/// Appending a space and a word appends that word to the words.
proof fn lemma_words_append(a: Seq<char>, b: Seq<char>)
    requires
        b.len() > 0,
        forall|j: int| 0 <= j < b.len() ==> !is_white_space(#[trigger] b[j]),
    ensures
        words(a + seq![' '] + b) == words(a).push(b),
    decreases a.len(),
{
    let s = a + seq![' '] + b;
    if a.len() == 0 {
        assert(s.drop_first() =~= b);
        lemma_words_single(b);
        assert(words(a) =~= Seq::<Seq<char>>::empty());
        assert(words(s) =~= words(a).push(b));
    } else if is_white_space(a[0]) {
        assert(s.drop_first() =~= a.drop_first() + seq![' '] + b);
        lemma_words_append(a.drop_first(), b);
    } else {
        lemma_word_len_bound(a);
        lemma_word_len_stop(a);
        let n = word_len(a) as int;
        assert forall|j: int| 0 <= j < n implies !is_white_space(#[trigger] s[j]) by {
            lemma_word_prefix(a, j);
        }
        if n < a.len() {
            assert(s[n] == a[n]);
        } else {
            assert(s[n] == ' ');
        }
        lemma_word_len_is(s, n);
        assert(s.take(n) =~= a.take(n));
        assert(s.skip(n) =~= a.skip(n) + seq![' '] + b);
        lemma_words_append(a.skip(n), b);
        assert(words(s) =~= words(a).push(b));
    }
}

/// Each byte's 8-bit group.
pub open spec fn bit_groups(bs: Seq<u8>) -> Seq<Seq<char>> {
    Seq::new(bs.len(), |i: int| bits8(bs[i]))
}

proof fn lemma_bits8_shape(b: u8)
    ensures
        bits8(b).len() == 8,
        all_binary_digits(bits8(b)),
        forall|j: int| 0 <= j < 8 ==> !is_white_space(#[trigger] bits8(b)[j]),
        bits8(b)[0] != '+',
{
}

proof fn lemma_bits8_value(b: u8)
    ensures
        bin_value(bits8(b)) == b,
{
    let s = bits8(b);
    reveal_with_fuel(bin_value, 9);
    assert(s.drop_last() =~= s.take(7));
    assert(s.take(7).drop_last() =~= s.take(6));
    assert(s.take(6).drop_last() =~= s.take(5));
    assert(s.take(5).drop_last() =~= s.take(4));
    assert(s.take(4).drop_last() =~= s.take(3));
    assert(s.take(3).drop_last() =~= s.take(2));
    assert(s.take(2).drop_last() =~= s.take(1));
    assert(s.take(1).drop_last() =~= Seq::<char>::empty());
    assert(((b >> 7u8) & 1u8) <= 1 && ((b >> 6u8) & 1u8) <= 1 && ((b >> 5u8) & 1u8) <= 1 && ((b
        >> 4u8) & 1u8) <= 1 && ((b >> 3u8) & 1u8) <= 1 && ((b >> 2u8) & 1u8) <= 1 && ((b >> 1u8)
        & 1u8) <= 1 && (b & 1u8) <= 1)
        by (bit_vector);
    assert(b == 128 * ((b >> 7u8) & 1u8) + 64 * ((b >> 6u8) & 1u8) + 32 * ((b >> 5u8) & 1u8) + 16 * ((
    b >> 4u8) & 1u8) + 8 * ((b >> 3u8) & 1u8) + 4 * ((b >> 2u8) & 1u8) + 2 * ((b >> 1u8) & 1u8) + (b
        & 1u8)) by (bit_vector);
}

proof fn lemma_words_binary_text(bs: Seq<u8>)
    ensures
        words(binary_text(bs)) == bit_groups(bs),
    decreases bs.len(),
{
    if bs.len() == 0 {
        assert(words(binary_text(bs)) =~= bit_groups(bs));
    } else if bs.len() == 1 {
        lemma_bits8_shape(bs[0]);
        lemma_words_single(bits8(bs[0]));
        assert(words(binary_text(bs)) =~= bit_groups(bs));
    } else {
        lemma_words_binary_text(bs.drop_last());
        lemma_bits8_shape(bs.last());
        lemma_words_append(binary_text(bs.drop_last()), bits8(bs.last()));
        assert(bit_groups(bs.drop_last()).push(bits8(bs.last())) =~= bit_groups(bs));
    }
}

proof fn lemma_parse_bit_groups(bs: Seq<u8>)
    ensures
        parse_groups(bit_groups(bs)) == Some(bs),
    decreases bs.len(),
{
    if bs.len() > 0 {
        lemma_parse_bit_groups(bs.drop_last());
        assert(bit_groups(bs).drop_last() =~= bit_groups(bs.drop_last()));
        lemma_bits8_shape(bs.last());
        lemma_bits8_value(bs.last());
        assert(bs.drop_last().push(bs.last()) =~= bs);
    }
}

proof fn lemma_trim_no_ws(s: Seq<char>)
    requires
        s.len() > 0 ==> !is_white_space(s[0]) && !is_white_space(s.last()),
    ensures
        trim(s) == s,
{
    crate::text::lemma_leading_ws_is(s, 0);
    assert(s.skip(0) =~= s);
    if s.len() > 0 {
        crate::text::lemma_trailing_ws_is(s, s.len() as int);
    } else {
        crate::text::lemma_trailing_ws_is(s, 0);
    }
    assert(trim(s) =~= s);
}

proof fn lemma_binary_text_ends(bs: Seq<u8>)
    ensures
        binary_text(bs).len() > 0 ==> !is_white_space(binary_text(bs)[0]) && !is_white_space(
            binary_text(bs).last(),
        ),
        bs.len() > 0 ==> binary_text(bs).len() > 0,
    decreases bs.len(),
{
    if bs.len() == 1 {
        lemma_bits8_shape(bs[0]);
    } else if bs.len() > 1 {
        lemma_binary_text_ends(bs.drop_last());
        lemma_bits8_shape(bs.last());
        let t = binary_text(bs.drop_last()) + seq![' '] + bits8(bs.last());
        assert(t[0] == binary_text(bs.drop_last())[0]);
        assert(t.last() == bits8(bs.last())[7]);
    }
}

/// Text written as binary reads back as the same (trimmed) text.
pub proof fn law_binary_roundtrip(input: Seq<char>)
    ensures
        conversion(input, ConvType::Text, ConvType::Binary) matches Ok(b) ==> conversion(
            b,
            ConvType::Binary,
            ConvType::Text,
        ) == Ok::<Seq<char>, Seq<char>>(trim(input)),
{
    let bs = encode_utf8(trim(input));
    let b = binary_text(bs);
    lemma_binary_text_ends(bs);
    lemma_trim_no_ws(b);
    lemma_words_binary_text(bs);
    lemma_parse_bit_groups(bs);
    vstd::utf8::encode_utf8_valid_utf8(trim(input));
    vstd::utf8::encode_utf8_decode_utf8(trim(input));
}

/// Binary output is itself accepted as binary input (when there is any).
pub proof fn law_binary_output_is_valid_input(input: Seq<char>)
    ensures
        conversion(input, ConvType::Text, ConvType::Binary) matches Ok(b) ==> (b.len() > 0
            ==> validation(b, ConvType::Binary) is Ok),
{
    let bs = encode_utf8(trim(input));
    let b = binary_text(bs);
    if b.len() > 0 {
        lemma_binary_text_ends(bs);
        lemma_trim_no_ws(b);
        lemma_binary_text_chars(bs);
    }
}

proof fn lemma_binary_text_chars(bs: Seq<u8>)
    ensures
        forall|i: int| 0 <= i < binary_text(bs).len() ==> is_binary_input_char(#[trigger] binary_text(bs)[i]),
    decreases bs.len(),
{
    if bs.len() == 1 {
        lemma_bits8_shape(bs[0]);
    } else if bs.len() > 1 {
        lemma_binary_text_chars(bs.drop_last());
        lemma_bits8_shape(bs.last());
        let a = binary_text(bs.drop_last());
        let t = a + seq![' '] + bits8(bs.last());
        assert forall|i: int| 0 <= i < t.len() implies is_binary_input_char(#[trigger] t[i]) by {
            if i < a.len() {
                assert(t[i] == a[i]);
            } else if i > a.len() {
                assert(t[i] == bits8(bs.last())[i - a.len() - 1]);
            }
        }
    }
}

} // verus!
