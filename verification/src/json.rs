//! The small part of JSON this library reads and writes: looking up one
//! member of a parsed document, quoting strings, and flat objects of
//! string/number members.

use vstd::prelude::*;
use crate::text::{decimal, decimal_chars, push_char, push_chars, push_str};

verus! {

/// What a member of a JSON object holds, as far as this library reads it.
#[derive(Debug)]
pub enum JsonMember {
    /// The document does not parse, is not an object, or lacks the key.
    Absent,
    /// A string member, with its (unescaped) contents.
    Text(String),
    /// A number member that is a non-negative integer fitting in `u64`.
    Unsigned(u64),
    /// An object member, with its compact serialization.
    Object(String),
    /// Any other member (null, boolean, array, other numbers).
    Other,
}

/// The abstract value of a [`JsonMember`].
pub enum JsonMemberView {
    Absent,
    Text(Seq<char>),
    Unsigned(u64),
    Object(Seq<char>),
    Other,
}

impl View for JsonMember {
    type V = JsonMemberView;

    open spec fn view(&self) -> JsonMemberView {
        match self {
            JsonMember::Absent => JsonMemberView::Absent,
            JsonMember::Text(s) => JsonMemberView::Text(s@),
            JsonMember::Unsigned(n) => JsonMemberView::Unsigned(*n),
            JsonMember::Object(s) => JsonMemberView::Object(s@),
            JsonMember::Other => JsonMemberView::Other,
        }
    }
}

/// The member `key` of the JSON document `text`, as `serde_json` parses it.
pub uninterp spec fn json_member_of(text: Seq<char>, key: Seq<char>) -> JsonMemberView;

/// The message of the error `serde_json` reports for `text`, if it does not parse.
pub uninterp spec fn json_error_of(text: Seq<char>) -> Option<Seq<char>>;

/// The pretty-printed form `serde_json` gives the document `text`, if it parses.
pub uninterp spec fn json_pretty_of(text: Seq<char>) -> Option<Seq<char>>;

/// Parses `text` with `serde_json::from_str::<serde_json::Value>`, then looks
/// up `key` with `Value::get` and reports the member's kind: the contents of a
/// string (`Value::String`), a `u64` (`Number::as_u64`), or the compact
/// serialization of an object (`Value::to_string`). An unparsable document
/// counts as lacking every key. The contract only names the outcome.
#[verifier::external_body]
pub(crate) fn json_member(text: &str, key: &str) -> (r: JsonMember)
    ensures
        r@ == json_member_of(text@, key@),
{
    match serde_json::from_str::<serde_json::Value>(text) {
        Ok(v) => match v.get(key) {
            None => JsonMember::Absent,
            Some(serde_json::Value::String(s)) => JsonMember::Text(s.clone()),
            Some(o @ serde_json::Value::Object(_)) => JsonMember::Object(o.to_string()),
            Some(serde_json::Value::Number(n)) => n.as_u64().map_or(JsonMember::Other, JsonMember::Unsigned),
            Some(_) => JsonMember::Other,
        },
        Err(_) => JsonMember::Absent,
    }
}

/// Parses `text` with `serde_json::from_str::<serde_json::Value>` and returns
/// the `Display` text of the error if parsing fails. The message itself is
/// only named.
#[verifier::external_body]
pub(crate) fn json_syntax_error(text: &str) -> (r: Option<String>)
    ensures
        match r {
            Some(m) => json_error_of(text@) == Some(m@),
            None => json_error_of(text@) == None::<Seq<char>>,
        },
{
    serde_json::from_str::<serde_json::Value>(text).err().map(|e| e.to_string())
}

/// Parses `text` as a `serde_json::Value` and re-serializes it with
/// `serde_json::to_string_pretty`; `None` when either step fails. The
/// pretty form is only named.
#[verifier::external_body]
pub(crate) fn json_pretty(text: &str) -> (r: Option<String>)
    ensures
        match r {
            Some(m) => json_pretty_of(text@) == Some(m@),
            None => json_pretty_of(text@) == None::<Seq<char>>,
        },
{
    serde_json::from_str::<serde_json::Value>(text).and_then(|v| serde_json::to_string_pretty(&v)).ok()
}

/// The lowercase hexadecimal digit for `n < 16`.
pub open spec fn hex_digit(n: nat) -> char {
    if n < 10 {
        (('0' as u32) + n) as char
    } else {
        (('a' as u32) + (n - 10)) as char
    }
}

/// How `serde_json` writes one character inside a string literal.
pub open spec fn json_escape_char(c: char) -> Seq<char> {
    if c == '"' {
        seq!['\\', '"']
    } else if c == '\\' {
        seq!['\\', '\\']
    } else if c == '\u{8}' {
        seq!['\\', 'b']
    } else if c == '\u{9}' {
        seq!['\\', 't']
    } else if c == '\u{a}' {
        seq!['\\', 'n']
    } else if c == '\u{c}' {
        seq!['\\', 'f']
    } else if c == '\u{d}' {
        seq!['\\', 'r']
    } else if (c as u32) < 0x20 {
        seq!['\\', 'u', '0', '0', hex_digit((c as u32 / 16) as nat), hex_digit((c as u32 % 16) as nat)]
    } else {
        seq![c]
    }
}

/// The escaped contents of a JSON string literal.
pub open spec fn json_escape(s: Seq<char>) -> Seq<char>
    decreases s.len(),
{
    if s.len() == 0 {
        seq![]
    } else {
        json_escape_char(s[0]) + json_escape(s.drop_first())
    }
}

/// A JSON string literal holding `s`, as `serde_json` writes it.
pub open spec fn json_string_literal(s: Seq<char>) -> Seq<char> {
    seq!['"'] + json_escape(s) + seq!['"']
}

/// `serde_json::to_string` on a string slice: the quoted literal in which
/// `"`, `\` and control characters below U+0020 are escaped (short forms
/// for backspace, tab, newline, form feed and carriage return, `\u00xx` with
/// lowercase hex otherwise) and every other character is written as is.
/// Serializing a `str` into a `String` cannot fail.
#[verifier::external_body]
pub(crate) fn json_quote(s: &str) -> (r: String)
    ensures
        r@ == json_string_literal(s@),
{
    serde_json::to_string(s).unwrap_or_default()
}

/// One member of a flat JSON object.
pub enum JsonScalar {
    Str(String),
    Uint(u64),
}

/// The abstract value of a [`JsonScalar`].
pub enum JsonScalarView {
    Str(Seq<char>),
    Uint(u64),
}

impl View for JsonScalar {
    type V = JsonScalarView;

    open spec fn view(&self) -> JsonScalarView {
        match self {
            JsonScalar::Str(s) => JsonScalarView::Str(s@),
            JsonScalar::Uint(n) => JsonScalarView::Uint(*n),
        }
    }
}

/// The JSON text of a member value.
pub open spec fn json_scalar_text(v: JsonScalarView) -> Seq<char> {
    match v {
        JsonScalarView::Str(s) => json_string_literal(s),
        JsonScalarView::Uint(n) => decimal(n as nat),
    }
}

/// `"key":value` pairs joined by commas.
pub open spec fn json_members_text(keys: Seq<Seq<char>>, vals: Seq<JsonScalarView>) -> Seq<char>
    decreases keys.len(),
{
    if keys.len() == 0 || vals.len() == 0 {
        seq![]
    } else if keys.len() == 1 || vals.len() == 1 {
        json_string_literal(keys[0]) + seq![':'] + json_scalar_text(vals[0])
    } else {
        json_string_literal(keys[0]) + seq![':'] + json_scalar_text(vals[0]) + seq![',']
            + json_members_text(keys.drop_first(), vals.drop_first())
    }
}

/// The compact JSON text of an object with the given members, in the given
/// order (`Value::to_string` on a map whose keys are already in order).
pub open spec fn json_object_text(keys: Seq<Seq<char>>, vals: Seq<JsonScalarView>) -> Seq<char> {
    seq!['{'] + json_members_text(keys, vals) + seq!['}']
}

fn push_scalar(out: &mut String, v: &JsonScalar)
    ensures
        final(out)@ == old(out)@ + json_scalar_text(v@),
{
    match v {
        JsonScalar::Str(s) => {
            let q = json_quote(s.as_str());
            push_str(out, q.as_str());
        },
        JsonScalar::Uint(n) => {
            let d = decimal_chars(*n);
            push_chars(out, &d);
        },
    }
}

/// The compact JSON text of a flat object, members written in the order given.
pub fn json_object(keys: &Vec<&str>, vals: &Vec<JsonScalar>) -> (r: String)
    requires
        keys@.len() == vals@.len(),
    ensures
        r@ == json_object_text(keys@.map_values(|k: &str| k@), vals@.map_values(|v: JsonScalar| v@)),
{
    let ghost ks = keys@.map_values(|k: &str| k@);
    let ghost vs = vals@.map_values(|v: JsonScalar| v@);
    let mut out = String::new();
    push_char(&mut out, '{');
    let n = keys.len();
    let mut i: usize = 0;
    assert(ks.skip(0) =~= ks);
    assert(vs.skip(0) =~= vs);
    while i < n
        invariant
            n == keys@.len() == vals@.len(),
            ks == keys@.map_values(|k: &str| k@),
            vs == vals@.map_values(|v: JsonScalar| v@),
            i <= n,
            out@ + json_members_text(ks.skip(i as int), vs.skip(i as int))
                == seq!['{'] + json_members_text(ks, vs),
        decreases n - i,
    {
        let ghost before = out@;
        let q = json_quote(keys[i]);
        push_str(&mut out, q.as_str());
        push_char(&mut out, ':');
        push_scalar(&mut out, &vals[i]);
        proof {
            let k2 = ks.skip(i as int);
            let v2 = vs.skip(i as int);
            assert(k2[0] == keys@[i as int]@);
            assert(v2[0] == vals@[i as int]@);
            assert(k2.drop_first() =~= ks.skip(i + 1));
            assert(v2.drop_first() =~= vs.skip(i + 1));
        }
        if i + 1 < n {
            push_char(&mut out, ',');
        }
        proof {
            let k2 = ks.skip(i as int);
            let v2 = vs.skip(i as int);
            if i + 1 < n {
                assert(out@ + json_members_text(ks.skip(i + 1), vs.skip(i + 1)) =~= before
                    + json_members_text(k2, v2));
            } else {
                assert(ks.skip(i + 1).len() == 0);
                assert(out@ + json_members_text(ks.skip(i + 1), vs.skip(i + 1)) =~= before
                    + json_members_text(k2, v2));
            }
        }
        i = i + 1;
    }
    proof {
        assert(ks.skip(n as int).len() == 0);
        assert(out@ =~= seq!['{'] + json_members_text(ks, vs));
    }
    push_char(&mut out, '}');
    out
}

} // verus!
