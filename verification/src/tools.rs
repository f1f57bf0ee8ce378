//! The tools the model may call in agent mode: recognizing calls written as
//! plain text, and running a call up to (and after) its cryptographic work.

use vstd::prelude::*;
use vstd::utf8::encode_utf8;
use crate::text::{
    chars_of, is_white_space, owned, push_str, str_eq, str_result, sub_chars, string_from_chars,
    trim, trim_start, trim_str, trim_start_str, char_is_whitespace, decimal,
};
use crate::json::{
    json_member, json_member_of, json_error_of, json_object, json_object_text, json_syntax_error,
    JsonMember, JsonMemberView, JsonScalar, JsonScalarView,
};
use crate::converter::{convert, conversion, validate_input, validation, ConvType};
use crate::crypto_meta::{
    decrypt, decrypt_algorithms, decrypt_op, decrypt_table, encrypt, encrypt_algorithms, encrypt_op,
    encrypt_table, iv_error, iv_error_required, iv_problem, iv_required_problem, key_error,
    key_problem, payload_error, payload_problem, table_view, AlgId, AlgMeta, AlgMetaView,
    CryptoOp, CryptoRequest, EncryptResult, EncryptResultView,
};
use crate::codec::utf8_len;

verus! {

/// The names of the tools the model may call.
pub open spec fn tool_names_spec() -> Seq<Seq<char>> {
    seq!["generate_key"@, "encrypt"@, "decrypt"@, "convert"@]
}

/// Whether `name` is one of the tools.
pub fn is_tool_name(name: &str) -> (r: bool)
    ensures
        r == tool_names_spec().contains(name@),
{
    let names: Vec<&'static str> = vec!["generate_key", "encrypt", "decrypt", "convert"];
    let ghost nv = names@.map_values(|s: &str| s@);
    assert(nv =~= tool_names_spec());
    let mut i: usize = 0;
    while i < names.len()
        invariant
            nv == names@.map_values(|s: &str| s@),
            nv == tool_names_spec(),
            i <= names@.len(),
            forall|k: int| 0 <= k < i ==> nv[k] != name@,
        decreases names@.len() - i,
    {
        if str_eq(names[i], name) {
            assert(nv[i as int] == name@);
            return true;
        }
        i = i + 1;
    }
    false
}

/// A tool as it is offered to the model: its name, what it does, and the
/// JSON schema of its arguments.
#[derive(Debug, Clone, Copy)]
pub struct ToolSpec {
    pub name: &'static str,
    pub description: &'static str,
    /// A JSON Schema object, as JSON text.
    pub parameters: &'static str,
}

/// The `i`-th tool offered to the model: its name, its description and the
/// JSON Schema of its arguments (an object schema whose required arguments
/// are among its properties).
pub open spec fn offered_tool(i: int) -> (Seq<char>, Seq<char>, Seq<char>) {
    if i == 0 {
        (
            "generate_key"@,
            "Generate a random alphanumeric key of a given bit size."@,
            r#"{"type":"object","properties":{"bits":{"type":"integer","enum":[64,128,192,256,512]}},"required":["bits"]}"#@,
        )
    } else if i == 1 {
        (
            "encrypt"@,
            "Encrypt plaintext with MD5, AES (CBC/ECB), or DES (CBC/ECB). MD5 ignores key/iv. AES keys are 16, 24, or 32 bytes; DES keys are 8 bytes. CBC IVs match the key's block size (16 bytes for AES, 8 for DES) \u{2014} leave iv empty to auto-generate one."@,
            r#"{"type":"object","properties":{"algorithm":{"type":"string","enum":["MD5","AES-CBC","AES-ECB","DES-ECB","DES-CBC"]},"plaintext":{"type":"string"},"key":{"type":"string","description":"Required unless algorithm is MD5."},"iv":{"type":"string","description":"Optional; only used by AES-CBC/DES-CBC."}},"required":["algorithm","plaintext"]}"#@,
        )
    } else if i == 2 {
        (
            "convert"@,
            "Convert a value between plain text, binary (space-separated 8-bit groups), and Base64. Not encryption \u{2014} use this for encoding/decoding requests like \"convert X to base64\" or \"decode this base64 string\"."@,
            r#"{"type":"object","properties":{"from":{"type":"string","enum":["text","binary","base64"]},"to":{"type":"string","enum":["text","binary","base64"]},"value":{"type":"string"}},"required":["from","to","value"]}"#@,
        )
    } else {
        (
            "decrypt"@,
            "Decrypt a Base64 ciphertext with AES (CBC/ECB) or DES (CBC/ECB)."@,
            r#"{"type":"object","properties":{"algorithm":{"type":"string","enum":["AES-CBC","AES-ECB","DES-ECB","DES-CBC"]},"ciphertext":{"type":"string","description":"Base64-encoded."},"key":{"type":"string"},"iv":{"type":"string","description":"Required for CBC modes."}},"required":["algorithm","ciphertext","key"]}"#@,
        )
    }
}

/// The order in which the tools are offered to the model.
pub open spec fn offered_tool_names() -> Seq<Seq<char>> {
    seq!["generate_key"@, "encrypt"@, "convert"@, "decrypt"@]
}

/// The tools offered to the model, with their descriptions and argument
/// schemas: exactly the tools that [`execute_tool`] runs, each once.
pub fn tool_specs() -> (r: Vec<ToolSpec>)
    ensures
        r@.len() == 4,
        forall|i: int| 0 <= i < 4 ==> (r@[i].name@, r@[i].description@, r@[i].parameters@) == #[trigger] offered_tool(i),
        r@.map_values(|t: ToolSpec| t.name@) == offered_tool_names(),
        forall|n: Seq<char>| offered_tool_names().contains(n) <==> tool_names_spec().contains(n),
{
    let r = vec![
        ToolSpec {
            name: "generate_key",
            description: "Generate a random alphanumeric key of a given bit size.",
            parameters: r#"{"type":"object","properties":{"bits":{"type":"integer","enum":[64,128,192,256,512]}},"required":["bits"]}"#,
        },
        ToolSpec {
            name: "encrypt",
            description: "Encrypt plaintext with MD5, AES (CBC/ECB), or DES (CBC/ECB). MD5 ignores key/iv. AES keys are 16, 24, or 32 bytes; DES keys are 8 bytes. CBC IVs match the key's block size (16 bytes for AES, 8 for DES) \u{2014} leave iv empty to auto-generate one.",
            parameters: r#"{"type":"object","properties":{"algorithm":{"type":"string","enum":["MD5","AES-CBC","AES-ECB","DES-ECB","DES-CBC"]},"plaintext":{"type":"string"},"key":{"type":"string","description":"Required unless algorithm is MD5."},"iv":{"type":"string","description":"Optional; only used by AES-CBC/DES-CBC."}},"required":["algorithm","plaintext"]}"#,
        },
        ToolSpec {
            name: "convert",
            description: "Convert a value between plain text, binary (space-separated 8-bit groups), and Base64. Not encryption \u{2014} use this for encoding/decoding requests like \"convert X to base64\" or \"decode this base64 string\".",
            parameters: r#"{"type":"object","properties":{"from":{"type":"string","enum":["text","binary","base64"]},"to":{"type":"string","enum":["text","binary","base64"]},"value":{"type":"string"}},"required":["from","to","value"]}"#,
        },
        ToolSpec {
            name: "decrypt",
            description: "Decrypt a Base64 ciphertext with AES (CBC/ECB) or DES (CBC/ECB).",
            parameters: r#"{"type":"object","properties":{"algorithm":{"type":"string","enum":["AES-CBC","AES-ECB","DES-ECB","DES-CBC"]},"ciphertext":{"type":"string","description":"Base64-encoded."},"key":{"type":"string"},"iv":{"type":"string","description":"Required for CBC modes."}},"required":["algorithm","ciphertext","key"]}"#,
        },
    ];
    assert(r@.map_values(|t: ToolSpec| t.name@) =~= offered_tool_names());
    assert forall|n: Seq<char>| offered_tool_names().contains(n) <==> tool_names_spec().contains(n) by {
        let o = offered_tool_names();
        let t = tool_names_spec();
        if o.contains(n) {
            let k = choose|k: int| 0 <= k < o.len() && o[k] == n;
            let j: int = if k == 0 { 0 } else if k == 1 { 1 } else if k == 2 { 3 } else { 2 };
            assert(t[j] == n);
        }
        if t.contains(n) {
            let k = choose|k: int| 0 <= k < t.len() && t[k] == n;
            let j: int = if k == 0 { 0 } else if k == 1 { 1 } else if k == 2 { 3 } else { 2 };
            assert(o[j] == n);
        }
    }
    r
}

/// The representation a tool argument names.
pub open spec fn conv_type_named(name: Seq<char>) -> Option<ConvType> {
    if name == "text"@ {
        Some(ConvType::Text)
    } else if name == "binary"@ {
        Some(ConvType::Binary)
    } else if name == "base64"@ {
        Some(ConvType::Base64)
    } else {
        None
    }
}

/// The representation a tool argument names (`text`, `binary`, `base64`).
pub fn find_conv_type(name: &str) -> (r: Option<ConvType>)
    ensures
        r == conv_type_named(name@),
{
    if str_eq(name, "text") {
        Some(ConvType::Text)
    } else if str_eq(name, "binary") {
        Some(ConvType::Binary)
    } else if str_eq(name, "base64") {
        Some(ConvType::Base64)
    } else {
        None
    }
}

/// The algorithm a tool argument names.
pub open spec fn alg_named(name: Seq<char>) -> Option<AlgId> {
    if name == "MD5"@ {
        Some(AlgId::Md5)
    } else if name == "AES-CBC"@ {
        Some(AlgId::AesCbc)
    } else if name == "AES-ECB"@ {
        Some(AlgId::AesEcb)
    } else if name == "DES-ECB"@ {
        Some(AlgId::DesEcb)
    } else if name == "DES-CBC"@ {
        Some(AlgId::DesCbc)
    } else {
        None
    }
}

/// The first entry of `table` for algorithm `id`.
pub open spec fn first_with_id(table: Seq<AlgMetaView>, id: AlgId) -> Option<AlgMetaView>
    decreases table.len(),
{
    if table.len() == 0 {
        None
    } else if table[0].id == id {
        Some(table[0])
    } else {
        first_with_id(table.drop_first(), id)
    }
}

/// The entry of `table` for the algorithm a tool argument names.
pub open spec fn alg_in_table(table: Seq<AlgMetaView>, name: Seq<char>) -> Option<AlgMetaView> {
    match alg_named(name) {
        Some(id) => first_with_id(table, id),
        None => None,
    }
}

/// Looks up the algorithm a tool argument names (`MD5`, `AES-CBC`,
/// `AES-ECB`, `DES-ECB`, `DES-CBC`) in `table`.
pub fn find_alg(table: &Vec<AlgMeta>, name: &str) -> (r: Option<AlgMeta>)
    ensures
        match r {
            Some(m) => alg_in_table(table_view(table@), name@) == Some(m@),
            None => alg_in_table(table_view(table@), name@) is None,
        },
{
    let id = if str_eq(name, "MD5") {
        AlgId::Md5
    } else if str_eq(name, "AES-CBC") {
        AlgId::AesCbc
    } else if str_eq(name, "AES-ECB") {
        AlgId::AesEcb
    } else if str_eq(name, "DES-ECB") {
        AlgId::DesEcb
    } else if str_eq(name, "DES-CBC") {
        AlgId::DesCbc
    } else {
        return None;
    };
    let mut i: usize = 0;
    let ghost tv = table_view(table@);
    assert(tv.skip(0) =~= tv);
    assert(alg_named(name@) == Some(id));
    while i < table.len()
        invariant
            tv == table_view(table@),
            alg_named(name@) == Some(id),
            i <= table@.len(),
            first_with_id(tv, id) == first_with_id(tv.skip(i as int), id),
        decreases table@.len() - i,
    {
        assert(tv.skip(i as int).drop_first() =~= tv.skip(i + 1));
        assert(tv.skip(i as int)[0] == table@[i as int]@);
        if table[i].id == id {
            return Some(table[i]);
        }
        i = i + 1;
    }
    assert(tv.skip(i as int).len() == 0);
    None
}

/// Characters allowed in a tool name written as plain text.
pub open spec fn is_ident_char(c: char) -> bool {
    ('a' <= c <= 'z') || ('A' <= c <= 'Z') || ('0' <= c <= '9') || c == '_'
}

/// Length of the identifier that starts `s`.
pub open spec fn ident_len(s: Seq<char>) -> nat
    decreases s.len(),
{
    if s.len() > 0 && is_ident_char(s[0]) {
        1 + ident_len(s.drop_first())
    } else {
        0
    }
}

/// Whether `content` starts (after whitespace) with a tool name followed by
/// `(`, `"` or whitespace: a call written as text, with nothing to run.
pub open spec fn bare_tool_call(content: Seq<char>) -> bool {
    let t = trim_start(content);
    let n = ident_len(t) as int;
    n > 0 && tool_names_spec().contains(t.take(n)) && n < t.len() && (t[n] == '(' || t[n] == '"'
        || is_white_space(t[n]))
}

proof fn lemma_ident_len_is(s: Seq<char>, k: int)
    requires
        0 <= k <= s.len(),
        forall|j: int| 0 <= j < k ==> is_ident_char(#[trigger] s[j]),
        k < s.len() ==> !is_ident_char(s[k]),
    ensures
        ident_len(s) == k,
    decreases k,
{
    if k > 0 {
        assert forall|j: int| 0 <= j < k - 1 implies is_ident_char(#[trigger] s.drop_first()[j]) by {
            assert(s.drop_first()[j] == s[j + 1]);
        }
        lemma_ident_len_is(s.drop_first(), k - 1);
    }
}

/// Detects a tool call written as bare text, such as `encrypt("hello")` or
/// `generate_key 256`: it names a tool but carries no arguments to run.
pub fn looks_like_bare_tool_call(content: &str) -> (r: bool)
    ensures
        r == bare_tool_call(content@),
{
    let trimmed = trim_start_str(content);
    let v = chars_of(trimmed);
    let mut n: usize = 0;
    while n < v.len() && (('a' <= v[n] && v[n] <= 'z') || ('A' <= v[n] && v[n] <= 'Z') || ('0' <= v[n]
        && v[n] <= '9') || v[n] == '_')
        invariant
            n <= v@.len(),
            forall|j: int| 0 <= j < n ==> is_ident_char(#[trigger] v@[j]),
        decreases v@.len() - n,
    {
        n = n + 1;
    }
    proof {
        lemma_ident_len_is(v@, n as int);
    }
    if n == 0 {
        return false;
    }
    let name = sub_chars(&v, 0, n);
    assert(name@ =~= v@.take(n as int));
    let name_s = string_from_chars(&name);
    if !is_tool_name(name_s.as_str()) {
        return false;
    }
    if n < v.len() {
        let c = v[n];
        c == '(' || c == '"' || char_is_whitespace(c)
    } else {
        false
    }
}

/// The member that the first present key of `keys` holds in `text`.
pub open spec fn first_present(text: Seq<char>, keys: Seq<Seq<char>>) -> JsonMemberView
    decreases keys.len(),
{
    if keys.len() == 0 {
        JsonMemberView::Absent
    } else {
        match json_member_of(text, keys[0]) {
            JsonMemberView::Absent => first_present(text, keys.drop_first()),
            m => m,
        }
    }
}

/// The keys under which a text-written call may give the tool's name.
pub open spec fn name_keys() -> Seq<Seq<char>> {
    seq!["name"@, "tool"@, "function"@]
}

/// The keys under which a text-written call may give the arguments.
pub open spec fn argument_keys() -> Seq<Seq<char>> {
    seq!["arguments"@, "parameters"@, "args"@]
}

/// The tool call a JSON object written as text stands for: a known tool's
/// name (first of `name`/`tool`/`function`) and an object of arguments
/// (first of `arguments`/`parameters`/`args`), re-serialized compactly.
pub open spec fn call_in(candidate: Seq<char>) -> Option<(Seq<char>, Seq<char>)> {
    match (first_present(candidate, name_keys()), first_present(candidate, argument_keys())) {
        (JsonMemberView::Text(n), JsonMemberView::Object(a)) => if tool_names_spec().contains(n) {
            Some((n, a))
        } else {
            None
        },
        _ => None,
    }
}

/// Brace nesting change of one character.
pub open spec fn brace_delta(c: char) -> int {
    if c == '{' {
        1
    } else if c == '}' {
        -1
    } else {
        0
    }
}

/// Scanning from `pos` with nesting `depth`, the position of the `}` that
/// brings the nesting back to zero.
pub open spec fn closing_brace(s: Seq<char>, pos: int, depth: int) -> Option<int>
    decreases s.len() - pos,
{
    if pos < 0 || pos >= s.len() {
        None
    } else if s[pos] == '}' && depth + brace_delta(s[pos]) == 0 {
        Some(pos)
    } else {
        closing_brace(s, pos + 1, depth + brace_delta(s[pos]))
    }
}

/// The first text-written tool call in `s` at or after position `k`: each
/// `{` in turn opens a candidate running to its balancing `}`.
pub open spec fn pseudo_call_from(s: Seq<char>, k: int) -> Option<(Seq<char>, Seq<char>)>
    decreases s.len() - k,
{
    if k < 0 || k >= s.len() {
        None
    } else if s[k] == '{' {
        match closing_brace(s, k, 0) {
            Some(e) => match call_in(s.subrange(k, e + 1)) {
                Some(c) => Some(c),
                None => pseudo_call_from(s, k + 1),
            },
            None => pseudo_call_from(s, k + 1),
        }
    } else {
        pseudo_call_from(s, k + 1)
    }
}

fn first_present_member(text: &str, k0: &str, k1: &str, k2: &str) -> (r: JsonMember)
    ensures
        r@ == first_present(text@, seq![k0@, k1@, k2@]),
{
    let ghost keys = seq![k0@, k1@, k2@];
    reveal_with_fuel(first_present, 4);
    assert(keys.drop_first() =~= seq![k1@, k2@]);
    assert(keys.drop_first().drop_first() =~= seq![k2@]);
    assert(keys.drop_first().drop_first().drop_first() =~= Seq::<Seq<char>>::empty());
    let m0 = json_member(text, k0);
    if !matches!(m0, JsonMember::Absent) {
        return m0;
    }
    let m1 = json_member(text, k1);
    if !matches!(m1, JsonMember::Absent) {
        return m1;
    }
    json_member(text, k2)
}

/// The tool call a candidate JSON object stands for, if any.
fn candidate_call(candidate: &str) -> (r: Option<(String, String)>)
    ensures
        match r {
            Some((n, a)) => call_in(candidate@) == Some((n@, a@)),
            None => call_in(candidate@) is None,
        },
{
    let name = first_present_member(candidate, "name", "tool", "function");
    let args = first_present_member(candidate, "arguments", "parameters", "args");
    assert(seq!["name"@, "tool"@, "function"@] =~= name_keys());
    assert(seq!["arguments"@, "parameters"@, "args"@] =~= argument_keys());
    match (name, args) {
        (JsonMember::Text(n), JsonMember::Object(a)) => {
            if is_tool_name(n.as_str()) {
                Some((n, a))
            } else {
                None
            }
        },
        _ => None,
    }
}

/// Finds the first tool call that the model wrote as a JSON object in its
/// text reply instead of a real tool call: the first `{ ... }` with balanced
/// braces that parses as an object naming a known tool (under `name`, `tool`
/// or `function`) with an object of arguments (under `arguments`,
/// `parameters` or `args`). Returns the tool's name and the arguments as
/// compact JSON.
pub fn extract_pseudo_tool_call(content: &str) -> (r: Option<(String, String)>)
    ensures
        match r {
            Some((n, a)) => pseudo_call_from(content@, 0) == Some((n@, a@)),
            None => pseudo_call_from(content@, 0) is None,
        },
{
    let v = chars_of(content);
    let len = v.len();
    let mut k: usize = 0;
    while k < len
        invariant
            len == v@.len(),
            v@ == content@,
            k <= len,
            pseudo_call_from(v@, 0) == pseudo_call_from(v@, k as int),
        decreases len - k,
    {
        if v[k] == '{' {
            // Find the balancing brace.
            let mut pos: usize = k;
            let mut depth: usize = 0;
            let mut close: Option<usize> = None;
            while pos < len
                invariant_except_break
                    close is None,
                invariant
                    len == v@.len(),
                    k <= pos <= len,
                    v@[k as int] == '{',
                    pos > k ==> depth >= 1,
                    pos == k ==> depth == 0,
                    depth <= pos - k,
                    closing_brace(v@, k as int, 0) == closing_brace(v@, pos as int, depth as int),
                ensures
                    close matches Some(e) ==> closing_brace(v@, k as int, 0) == Some(e as int) && k <= e < len,
                    close is None ==> closing_brace(v@, k as int, 0) is None,
                decreases len - pos,
            {
                let c = v[pos];
                if c == '{' {
                    depth = depth + 1;
                } else if c == '}' {
                    if depth == 1 {
                        close = Some(pos);
                        break;
                    }
                    depth = depth - 1;
                }
                pos = pos + 1;
            }
            match close {
                Some(e) => {
                    assert(closing_brace(v@, k as int, 0) == Some(e as int));
                    let cand = sub_chars(&v, k, e + 1);
                    let cand_s = string_from_chars(&cand);
                    match candidate_call(cand_s.as_str()) {
                        Some(call) => {
                            return Some(call);
                        },
                        None => {},
                    }
                },
                None => {
                    assert(closing_brace(v@, k as int, 0) is None);
                },
            }
        }
        k = k + 1;
    }
    None
}

} // verus!

verus! {

/// What a finished tool call produced: the JSON text handed back to the
/// model, and the keys/IVs it generated or used, with their length in bytes.
#[derive(Debug)]
pub struct ToolOutput {
    pub result: String,
    pub keys: Vec<(String, usize)>,
}

/// The abstract value of a list of key entries.
pub open spec fn keys_view(k: Seq<(String, usize)>) -> Seq<(Seq<char>, usize)> {
    k.map_values(|e: (String, usize)| (e.0@, e.1))
}

/// The abstract value of a [`ToolOutput`].
pub struct OutputView {
    pub result: Seq<char>,
    pub keys: Seq<(Seq<char>, usize)>,
}

impl View for ToolOutput {
    type V = OutputView;

    open spec fn view(&self) -> OutputView {
        OutputView { result: self.result@, keys: keys_view(self.keys@) }
    }
}

/// What a tool call waits for while its cryptographic work runs.
#[derive(Debug)]
pub enum PendingTool {
    GenerateKey { bits: u32 },
    Encrypt { key: String },
    Decrypt,
}

/// The abstract value of a [`PendingTool`].
pub enum PendingView {
    GenerateKey(u32),
    Encrypt(Seq<char>),
    Decrypt,
}

impl View for PendingTool {
    type V = PendingView;

    open spec fn view(&self) -> PendingView {
        match self {
            PendingTool::GenerateKey { bits } => PendingView::GenerateKey(*bits),
            PendingTool::Encrypt { key } => PendingView::Encrypt(key@),
            PendingTool::Decrypt => PendingView::Decrypt,
        }
    }
}

/// A tool call after its first stage: finished, or waiting for one
/// cryptographic primitive to run.
#[derive(Debug)]
pub enum ToolStep {
    Done(ToolOutput),
    Crypto { request: CryptoRequest, pending: PendingTool },
}

/// The abstract value of a [`ToolStep`].
pub enum StepView {
    Done(OutputView),
    Crypto(CryptoOp, PendingView),
}

impl View for ToolStep {
    type V = StepView;

    open spec fn view(&self) -> StepView {
        match self {
            ToolStep::Done(o) => StepView::Done(o@),
            ToolStep::Crypto { request, pending } => StepView::Crypto(request@, pending@),
        }
    }
}

/// A one-member JSON object.
pub open spec fn obj1(k: Seq<char>, v: JsonScalarView) -> Seq<char> {
    json_object_text(seq![k], seq![v])
}

/// A tool result reporting an error.
pub open spec fn error_output(msg: Seq<char>) -> OutputView {
    OutputView { result: obj1("error"@, JsonScalarView::Str(msg)), keys: seq![] }
}

/// The string argument `key` of a call, or the empty string.
pub open spec fn text_arg(args: Seq<char>, key: Seq<char>) -> Seq<char> {
    match json_member_of(args, key) {
        JsonMemberView::Text(s) => s,
        _ => Seq::<char>::empty(),
    }
}

/// The key to remember after using `key`, if there was one.
pub open spec fn key_entry(key: Seq<char>) -> Seq<(Seq<char>, usize)> {
    if key.len() > 0 {
        seq![(key, encode_utf8(key).len() as usize)]
    } else {
        seq![]
    }
}

/// The `convert` tool.
pub open spec fn convert_step(args: Seq<char>) -> StepView {
    let from = text_arg(args, "from"@);
    let to = text_arg(args, "to"@);
    let value = text_arg(args, "value"@);
    match (conv_type_named(from), conv_type_named(to)) {
        (Some(f), Some(t)) => match validation(value, f) {
            Err(e) => StepView::Done(error_output(e)),
            Ok(_) => match conversion(value, f, t) {
                Ok(r) => StepView::Done(OutputView { result: obj1("result"@, JsonScalarView::Str(r)), keys: seq![] }),
                Err(e) => StepView::Done(error_output(e)),
            },
        },
        _ => StepView::Done(error_output("unknown conversion type: "@ + from + " or "@ + to)),
    }
}

/// The `encrypt` tool.
pub open spec fn encrypt_step(args: Seq<char>) -> StepView {
    let algorithm = text_arg(args, "algorithm"@);
    let plaintext = text_arg(args, "plaintext"@);
    let key = text_arg(args, "key"@);
    let iv = text_arg(args, "iv"@);
    let iv_opt = if iv.len() > 0 { Some(iv) } else { None };
    match alg_in_table(encrypt_table(), algorithm) {
        None => StepView::Done(error_output("unknown algorithm: "@ + algorithm)),
        Some(alg) => match key_problem(alg, key) {
            Some(e) => StepView::Done(error_output(e)),
            None => match iv_problem(alg, iv) {
                Some(e) => StepView::Done(error_output(e)),
                None => StepView::Crypto(encrypt_op(alg.id, plaintext, key, iv_opt), PendingView::Encrypt(key)),
            },
        },
    }
}

/// The `decrypt` tool.
pub open spec fn decrypt_step(args: Seq<char>) -> StepView {
    let algorithm = text_arg(args, "algorithm"@);
    let ciphertext = text_arg(args, "ciphertext"@);
    let key = text_arg(args, "key"@);
    let iv = text_arg(args, "iv"@);
    let iv_opt = if trim(iv).len() == 0 { None } else { Some(trim(iv)) };
    match alg_in_table(decrypt_table(), algorithm) {
        None => StepView::Done(error_output("unknown algorithm: "@ + algorithm)),
        Some(alg) => match payload_problem(ciphertext) {
            Some(e) => StepView::Done(error_output(e)),
            None => match iv_required_problem(alg, iv) {
                Some(e) => StepView::Done(error_output(e)),
                None => match key_problem(alg, key) {
                    Some(e) => StepView::Done(error_output(e)),
                    None => match decrypt_op(alg.id, trim(ciphertext), key, iv_opt) {
                        Ok(op) => StepView::Crypto(op, PendingView::Decrypt),
                        Err(e) => StepView::Done(error_output(e)),
                    },
                },
            },
        },
    }
}

proof fn lemma_first_with_id(table: Seq<AlgMetaView>, id: AlgId)
    ensures
        first_with_id(table, id) matches Some(m) ==> m.id == id,
    decreases table.len(),
{
    if table.len() > 0 && table[0].id != id {
        lemma_first_with_id(table.drop_first(), id);
    }
}

/// The string member `key` of a JSON object, or the empty string.
pub open spec fn string_member(args: Seq<char>, key: Seq<char>) -> Seq<char> {
    match json_member_of(args, key) {
        JsonMemberView::Text(s) => s,
        _ => Seq::<char>::empty(),
    }
}

/// When the `encrypt` tool asks for a primitive, it asks for the algorithm
/// the call names, on the call's plaintext and key; a CBC mode gets the
/// call's `iv` when that is a non-empty string, and only otherwise lets the
/// primitive choose one. The key is remembered with the result.
pub proof fn law_encrypt_tool_uses_arguments(args: Seq<char>)
    ensures
        tool_step("encrypt"@, args) matches StepView::Crypto(op, pending) ==> {
            let algorithm = string_member(args, "algorithm"@);
            let plaintext = string_member(args, "plaintext"@);
            let key = string_member(args, "key"@);
            let iv = string_member(args, "iv"@);
            &&& pending == PendingView::Encrypt(key)
            &&& match op {
                CryptoOp::HashMd5(p) => algorithm == "MD5"@ && p == plaintext,
                CryptoOp::EncryptAesEcb(p, k) => algorithm == "AES-ECB"@ && p == plaintext && k == key,
                CryptoOp::EncryptDesEcb(p, k) => algorithm == "DES-ECB"@ && p == plaintext && k == key,
                CryptoOp::EncryptAesCbc(p, k, v) => algorithm == "AES-CBC"@ && p == plaintext && k == key
                    && (iv.len() == 0 ==> v is None) && (iv.len() > 0 ==> v == Some(iv)),
                CryptoOp::EncryptDesCbc(p, k, v) => algorithm == "DES-CBC"@ && p == plaintext && k == key
                    && (iv.len() == 0 ==> v is None) && (iv.len() > 0 ==> v == Some(iv)),
                _ => false,
            }
        },
{
    reveal_strlit("encrypt");
    reveal_strlit("generate_key");
    reveal_strlit("convert");
    assert("encrypt"@.len() != "generate_key"@.len());
    assert("encrypt"@[0] != "convert"@[0]);
    let algorithm = string_member(args, "algorithm"@);
    if let Some(id) = alg_named(algorithm) {
        lemma_first_with_id(encrypt_table(), id);
    }
}

/// The key size the `generate_key` tool asks for (256 bits by default).
pub open spec fn requested_bits(args: Seq<char>) -> u32 {
    match json_member_of(args, "bits"@) {
        JsonMemberView::Unsigned(n) => n as u32,
        _ => 256u32,
    }
}

/// The first stage of running tool `name` with JSON `args`.
pub open spec fn tool_step(name: Seq<char>, args: Seq<char>) -> StepView {
    match json_error_of(args) {
        Some(e) => StepView::Done(OutputView {
            result: "{\"error\": \"invalid arguments: "@ + e + "\"}"@,
            keys: seq![],
        }),
        None => if name == "generate_key"@ {
            StepView::Crypto(CryptoOp::GenerateKey(requested_bits(args)), PendingView::GenerateKey(requested_bits(args)))
        } else if name == "convert"@ {
            convert_step(args)
        } else if name == "encrypt"@ {
            encrypt_step(args)
        } else if name == "decrypt"@ {
            decrypt_step(args)
        } else {
            StepView::Done(error_output("unknown tool: "@ + name))
        },
    }
}

/// The text of a reply that should be plain text (a Cbc reply counts as its ciphertext).
pub open spec fn reply_text(r: EncryptResultView) -> Seq<char> {
    match r {
        EncryptResultView::Plain(s) => s,
        EncryptResultView::Cbc(c, _) => c,
    }
}

/// The second stage: the tool's output once its primitive replied.
pub open spec fn tool_finish(p: PendingView, reply: Result<EncryptResultView, Seq<char>>) -> OutputView {
    match reply {
        Err(e) => error_output(e),
        Ok(r) => match p {
            PendingView::GenerateKey(bits) => OutputView {
                result: json_object_text(seq!["bits"@, "key"@], seq![JsonScalarView::Uint(bits as u64), JsonScalarView::Str(reply_text(r))]),
                keys: seq![(reply_text(r), (bits / 8) as usize)],
            },
            PendingView::Encrypt(key) => match r {
                EncryptResultView::Plain(c) => OutputView {
                    result: obj1("ciphertext"@, JsonScalarView::Str(c)),
                    keys: key_entry(key),
                },
                EncryptResultView::Cbc(c, iv) => OutputView {
                    result: json_object_text(seq!["ciphertext"@, "iv"@], seq![JsonScalarView::Str(c), JsonScalarView::Str(iv)]),
                    keys: seq![(iv, encode_utf8(iv).len() as usize)] + key_entry(key),
                },
            },
            PendingView::Decrypt => OutputView {
                result: obj1("plaintext"@, JsonScalarView::Str(reply_text(r))),
                keys: seq![],
            },
        },
    }
}

/// The abstract value of a primitive's reply.
pub open spec fn reply_view(r: Result<EncryptResult, String>) -> Result<EncryptResultView, Seq<char>> {
    match r {
        Ok(v) => Ok(v@),
        Err(e) => Err(e@),
    }
}

fn object1(k: &str, v: JsonScalar) -> (r: String)
    ensures
        r@ == obj1(k@, v@),
{
    let keys: Vec<&str> = vec![k];
    let ghost vv = v@;
    let vals: Vec<JsonScalar> = vec![v];
    let r = json_object(&keys, &vals);
    assert(keys@.map_values(|k: &str| k@) =~= seq![k@]);
    assert(vals@.map_values(|v: JsonScalar| v@) =~= seq![vv]);
    r
}

fn error_out(msg: String) -> (r: ToolOutput)
    ensures
        r@ == error_output(msg@),
{
    let result = object1("error", JsonScalar::Str(msg));
    let keys: Vec<(String, usize)> = Vec::new();
    assert(keys_view(keys@) =~= Seq::<(Seq<char>, usize)>::empty());
    ToolOutput { result, keys }
}

fn text_argument(args: &str, key: &str) -> (r: String)
    ensures
        r@ == text_arg(args@, key@),
{
    match json_member(args, key) {
        JsonMember::Text(s) => s,
        _ => String::new(),
    }
}

fn concat3(a: &str, b: &str, c: &str) -> (r: String)
    ensures
        r@ == a@ + b@ + c@,
{
    let mut s = owned(a);
    push_str(&mut s, b);
    push_str(&mut s, c);
    s
}

fn key_entries(key: &str) -> (r: Vec<(String, usize)>)
    ensures
        keys_view(r@) == key_entry(key@),
{
    let mut v: Vec<(String, usize)> = Vec::new();
    if key.unicode_len() > 0 {
        let n = utf8_len(key);
        v.push((owned(key), n));
        assert(keys_view(v@) =~= key_entry(key@));
    } else {
        assert(keys_view(v@) =~= key_entry(key@));
    }
    v
}

fn convert_tool(args: &str) -> (r: ToolStep)
    ensures
        r@ == convert_step(args@),
{
    let from = text_argument(args, "from");
    let to = text_argument(args, "to");
    let value = text_argument(args, "value");
    let (from_type, to_type) = match (find_conv_type(from.as_str()), find_conv_type(to.as_str())) {
        (Some(f), Some(t)) => (f, t),
        _ => {
            let mut msg = concat3("unknown conversion type: ", from.as_str(), " or ");
            push_str(&mut msg, to.as_str());
            return ToolStep::Done(error_out(msg));
        },
    };
    match validate_input(value.as_str(), from_type) {
        Err(e) => {
            return ToolStep::Done(error_out(e));
        },
        Ok(()) => {},
    }
    match convert(value.as_str(), from_type, to_type) {
        Ok(result) => {
            let text = object1("result", JsonScalar::Str(result));
            let keys: Vec<(String, usize)> = Vec::new();
            assert(keys_view(keys@) =~= Seq::<(Seq<char>, usize)>::empty());
            ToolStep::Done(ToolOutput { result: text, keys })
        },
        Err(e) => ToolStep::Done(error_out(e)),
    }
}

fn encrypt_tool(args: &str) -> (r: ToolStep)
    ensures
        r@ == encrypt_step(args@),
{
    let algorithm = text_argument(args, "algorithm");
    let plaintext = text_argument(args, "plaintext");
    let key = text_argument(args, "key");
    let iv = text_argument(args, "iv");
    let table = encrypt_algorithms();
    let alg = match find_alg(&table, algorithm.as_str()) {
        Some(a) => a,
        None => {
            let msg = concat3("unknown algorithm: ", algorithm.as_str(), "");
            proof {
                reveal_strlit("");
                assert(msg@ =~= "unknown algorithm: "@ + algorithm@);
            }
            return ToolStep::Done(error_out(msg));
        },
    };
    match key_error(&alg, key.as_str()) {
        Some(e) => {
            return ToolStep::Done(error_out(e));
        },
        None => {},
    }
    match iv_error(&alg, iv.as_str()) {
        Some(e) => {
            return ToolStep::Done(error_out(e));
        },
        None => {},
    }
    let iv_opt: Option<&str> = if iv.as_str().unicode_len() > 0 { Some(iv.as_str()) } else { None };
    let request = encrypt(&alg, plaintext.as_str(), key.as_str(), iv_opt);
    ToolStep::Crypto { request, pending: PendingTool::Encrypt { key } }
}

fn decrypt_tool(args: &str) -> (r: ToolStep)
    ensures
        r@ == decrypt_step(args@),
{
    let algorithm = text_argument(args, "algorithm");
    let ciphertext = text_argument(args, "ciphertext");
    let key = text_argument(args, "key");
    let iv = text_argument(args, "iv");
    let table = decrypt_algorithms();
    let alg = match find_alg(&table, algorithm.as_str()) {
        Some(a) => a,
        None => {
            let msg = concat3("unknown algorithm: ", algorithm.as_str(), "");
            proof {
                reveal_strlit("");
                assert(msg@ =~= "unknown algorithm: "@ + algorithm@);
            }
            return ToolStep::Done(error_out(msg));
        },
    };
    match payload_error(ciphertext.as_str()) {
        Some(e) => {
            return ToolStep::Done(error_out(e));
        },
        None => {},
    }
    match iv_error_required(&alg, iv.as_str()) {
        Some(e) => {
            return ToolStep::Done(error_out(e));
        },
        None => {},
    }
    match key_error(&alg, key.as_str()) {
        Some(e) => {
            return ToolStep::Done(error_out(e));
        },
        None => {},
    }
    let iv_t = trim_str(iv.as_str());
    let iv_opt: Option<&str> = if iv_t.unicode_len() == 0 { None } else { Some(iv_t) };
    match decrypt(&alg, trim_str(ciphertext.as_str()), key.as_str(), iv_opt) {
        Ok(request) => ToolStep::Crypto { request, pending: PendingTool::Decrypt },
        Err(e) => ToolStep::Done(error_out(e)),
    }
}

/// Runs tool `name` with the JSON `arguments` up to its cryptographic work:
/// `convert` and every rejected call finish at once; `generate_key`,
/// `encrypt` and `decrypt` hand back the primitive to run, to be completed
/// by [`finish_tool`] with its reply.
pub fn execute_tool(name: &str, arguments: &str) -> (r: ToolStep)
    ensures
        r@ == tool_step(name@, arguments@),
{
    match json_syntax_error(arguments) {
        Some(e) => {
            let text = concat3("{\"error\": \"invalid arguments: ", e.as_str(), "\"}");
            let keys: Vec<(String, usize)> = Vec::new();
            assert(keys_view(keys@) =~= Seq::<(Seq<char>, usize)>::empty());
            return ToolStep::Done(ToolOutput { result: text, keys });
        },
        None => {},
    }
    if str_eq(name, "generate_key") {
        let bits: u32 = match json_member(arguments, "bits") {
            JsonMember::Unsigned(n) => n as u32,
            _ => 256,
        };
        ToolStep::Crypto { request: CryptoRequest::GenerateKey { bits }, pending: PendingTool::GenerateKey { bits } }
    } else if str_eq(name, "convert") {
        convert_tool(arguments)
    } else if str_eq(name, "encrypt") {
        encrypt_tool(arguments)
    } else if str_eq(name, "decrypt") {
        decrypt_tool(arguments)
    } else {
        let msg = concat3("unknown tool: ", name, "");
        proof {
            reveal_strlit("");
            assert(msg@ =~= "unknown tool: "@ + name@);
        }
        ToolStep::Done(error_out(msg))
    }
}

fn reply_string(r: EncryptResult) -> (s: String)
    ensures
        s@ == reply_text(r@),
{
    match r {
        EncryptResult::Plain(s) => s,
        EncryptResult::Cbc { cipher, iv: _ } => cipher,
    }
}

/// Completes a tool call from its primitive's reply: the generated key, the
/// ciphertext (with the IV for the CBC modes) or the plaintext, or the
/// error; and the keys/IVs worth remembering.
pub fn finish_tool(pending: PendingTool, reply: Result<EncryptResult, String>) -> (r: ToolOutput)
    ensures
        r@ == tool_finish(pending@, reply_view(reply)),
{
    let r = match reply {
        Err(e) => {
            return error_out(e);
        },
        Ok(r) => r,
    };
    match pending {
        PendingTool::GenerateKey { bits } => {
            let key = reply_string(r);
            let n: usize = (bits / 8) as usize;
            let keys_k: Vec<&str> = vec!["bits", "key"];
            let ghost kv = key@;
            let vals: Vec<JsonScalar> = vec![JsonScalar::Uint(bits as u64), JsonScalar::Str(key.clone())];
            let text = json_object(&keys_k, &vals);
            assert(keys_k@.map_values(|k: &str| k@) =~= seq!["bits"@, "key"@]);
            assert(vals@.map_values(|v: JsonScalar| v@) =~= seq![JsonScalarView::Uint(bits as u64), JsonScalarView::Str(kv)]);
            let keys: Vec<(String, usize)> = vec![(key, n)];
            assert(keys_view(keys@) =~= seq![(kv, (bits / 8) as usize)]);
            ToolOutput { result: text, keys }
        },
        PendingTool::Encrypt { key } => match r {
            EncryptResult::Plain(c) => {
                let text = object1("ciphertext", JsonScalar::Str(c));
                ToolOutput { result: text, keys: key_entries(key.as_str()) }
            },
            EncryptResult::Cbc { cipher, iv } => {
                let keys_k: Vec<&str> = vec!["ciphertext", "iv"];
                let ghost cv = cipher@;
                let ghost ivv = iv@;
                let n = utf8_len(iv.as_str());
                let vals: Vec<JsonScalar> = vec![JsonScalar::Str(cipher), JsonScalar::Str(iv.clone())];
                let text = json_object(&keys_k, &vals);
                assert(keys_k@.map_values(|k: &str| k@) =~= seq!["ciphertext"@, "iv"@]);
                assert(vals@.map_values(|v: JsonScalar| v@) =~= seq![JsonScalarView::Str(cv), JsonScalarView::Str(ivv)]);
                let mut keys: Vec<(String, usize)> = vec![(iv, n)];
                let rest = key_entries(key.as_str());
                let ghost k0 = keys@;
                let mut rest_mut = rest;
                keys.append(&mut rest_mut);
                assert(keys_view(keys@) =~= seq![(ivv, encode_utf8(ivv).len() as usize)] + key_entry(key@));
                ToolOutput { result: text, keys }
            },
        },
        PendingTool::Decrypt => {
            let p = reply_string(r);
            let text = object1("plaintext", JsonScalar::Str(p));
            let keys: Vec<(String, usize)> = Vec::new();
            assert(keys_view(keys@) =~= Seq::<(Seq<char>, usize)>::empty());
            ToolOutput { result: text, keys }
        },
    }
}

} // verus!

verus! {

/// A tool call recognized in text always names one of the tools, so other
/// JSON in a reply is never taken for a call.
pub proof fn law_pseudo_call_names_a_tool(s: Seq<char>, k: int)
    ensures
        pseudo_call_from(s, k) matches Some((n, _)) ==> tool_names_spec().contains(n),
    decreases s.len() - k,
{
    if 0 <= k < s.len() {
        law_pseudo_call_names_a_tool(s, k + 1);
    }
}

} // verus!
