//! Algorithm metadata for the encrypter and decrypter, the checks their
//! inputs go through, and the primitive each algorithm dispatches to.

use vstd::prelude::*;
use vstd::utf8::encode_utf8;
use crate::text::{chars_of, owned, trim, trim_str, str_option};
use crate::codec::{base64_decode, base64_decoding_of, utf8_bytes, utf8_len};

verus! {

/// The supported algorithms.
#[derive(Debug, Clone, Copy, PartialEq, Eq, Structural)]
pub enum AlgId {
    Md5,
    AesCbc,
    AesEcb,
    DesEcb,
    DesCbc,
}

/// What the screens need to know about an algorithm.
#[derive(Debug, Clone, Copy)]
pub struct AlgMeta {
    pub id: AlgId,
    pub name: &'static str,
    /// Kept alongside `iv_length`, which is what the checks read.
    pub require_iv: bool,
    pub require_key: bool,
    /// Accepted key lengths in bytes (empty: any).
    pub key_lengths: &'static [usize],
    /// Required IV length in bytes, for the CBC modes.
    pub iv_length: Option<usize>,
}

/// The display name of each algorithm.
pub open spec fn alg_name(id: AlgId) -> Seq<char> {
    match id {
        AlgId::Md5 => "MD5"@,
        AlgId::AesCbc => "AES (CBC)"@,
        AlgId::AesEcb => "AES (ECB)"@,
        AlgId::DesEcb => "DES (ECB)"@,
        AlgId::DesCbc => "DES (CBC)"@,
    }
}

/// The abstract value of an [`AlgMeta`].
#[verifier::ext_equal]
pub struct AlgMetaView {
    pub id: AlgId,
    pub name: Seq<char>,
    pub require_iv: bool,
    pub require_key: bool,
    pub key_lengths: Seq<usize>,
    pub iv_length: Option<usize>,
}

impl View for AlgMeta {
    type V = AlgMetaView;

    open spec fn view(&self) -> AlgMetaView {
        AlgMetaView {
            id: self.id,
            name: self.name@,
            require_iv: self.require_iv,
            require_key: self.require_key,
            key_lengths: self.key_lengths@,
            iv_length: self.iv_length,
        }
    }
}

/// The metadata of algorithm `id` as the tables list it.
pub open spec fn alg_meta_view(id: AlgId) -> AlgMetaView {
    match id {
        AlgId::Md5 => AlgMetaView { id, name: alg_name(id), require_iv: false, require_key: false,
            key_lengths: Seq::<usize>::empty(), iv_length: None },
        AlgId::AesCbc => AlgMetaView { id, name: alg_name(id), require_iv: true, require_key: true,
            key_lengths: seq![16usize, 24, 32], iv_length: Some(16usize) },
        AlgId::AesEcb => AlgMetaView { id, name: alg_name(id), require_iv: false, require_key: true,
            key_lengths: seq![16usize, 24, 32], iv_length: None },
        AlgId::DesEcb => AlgMetaView { id, name: alg_name(id), require_iv: false, require_key: true,
            key_lengths: seq![8usize], iv_length: None },
        AlgId::DesCbc => AlgMetaView { id, name: alg_name(id), require_iv: true, require_key: true,
            key_lengths: seq![8usize], iv_length: Some(8usize) },
    }
}

/// Whether `m` is the metadata of algorithm `id` as the tables list it.
pub open spec fn is_meta_of(m: AlgMeta, id: AlgId) -> bool {
    m@ == alg_meta_view(id)
}

/// The metadata of one algorithm.
pub fn alg_meta(id: AlgId) -> (m: AlgMeta)
    ensures
        is_meta_of(m, id),
{
    let key_lengths: &'static [usize] = match id {
        AlgId::Md5 => &[],
        AlgId::AesCbc | AlgId::AesEcb => &[16, 24, 32],
        AlgId::DesEcb | AlgId::DesCbc => &[8],
    };
    assert(id == AlgId::Md5 ==> key_lengths@ =~= Seq::<usize>::empty());
    let iv_length: Option<usize> = match id {
        AlgId::AesCbc => Some(16),
        AlgId::DesCbc => Some(8),
        _ => None,
    };
    let require_iv = iv_length.is_some();
    let require_key = match id {
        AlgId::Md5 => false,
        _ => true,
    };
    let meta = AlgMeta { id, name: alg_id_label(id), require_iv, require_key, key_lengths, iv_length };
    assert(id == AlgId::Md5 ==> meta.key_lengths@ == Seq::<usize>::empty());
    assert(id == AlgId::AesCbc ==> meta.key_lengths@ == seq![16usize, 24, 32]);
    assert(id == AlgId::DesCbc ==> meta.key_lengths@ == seq![8usize]);
    assert(id == AlgId::DesEcb ==> meta.key_lengths@ == seq![8usize]);
    assert(id == AlgId::AesEcb ==> meta.key_lengths@ == seq![16usize, 24, 32]);
    assert(meta@ =~= alg_meta_view(id));
    meta
}

/// The algorithms the encrypter offers, in order.
pub open spec fn encrypt_ids() -> Seq<AlgId> {
    seq![AlgId::Md5, AlgId::AesCbc, AlgId::AesEcb, AlgId::DesEcb, AlgId::DesCbc]
}

/// The algorithms the decrypter offers, in order.
pub open spec fn decrypt_ids() -> Seq<AlgId> {
    seq![AlgId::AesCbc, AlgId::AesEcb, AlgId::DesEcb, AlgId::DesCbc]
}

/// The abstract value of an algorithm table.
pub open spec fn table_view(t: Seq<AlgMeta>) -> Seq<AlgMetaView> {
    t.map_values(|m: AlgMeta| m@)
}

/// The encrypter's algorithm table.
pub open spec fn encrypt_table() -> Seq<AlgMetaView> {
    encrypt_ids().map_values(|id: AlgId| alg_meta_view(id))
}

/// The decrypter's algorithm table.
pub open spec fn decrypt_table() -> Seq<AlgMetaView> {
    decrypt_ids().map_values(|id: AlgId| alg_meta_view(id))
}

/// The encrypter's algorithm table.
pub fn encrypt_algorithms() -> (r: Vec<AlgMeta>)
    ensures
        r@.len() == encrypt_ids().len(),
        forall|i: int| 0 <= i < r@.len() ==> is_meta_of(#[trigger] r@[i], encrypt_ids()[i]),
        table_view(r@) == encrypt_table(),
{
    let r = vec![alg_meta(AlgId::Md5), alg_meta(AlgId::AesCbc), alg_meta(AlgId::AesEcb), alg_meta(AlgId::DesEcb), alg_meta(AlgId::DesCbc)];
    assert(table_view(r@) =~= encrypt_table());
    r
}

/// The decrypter's algorithm table.
pub fn decrypt_algorithms() -> (r: Vec<AlgMeta>)
    ensures
        r@.len() == decrypt_ids().len(),
        forall|i: int| 0 <= i < r@.len() ==> is_meta_of(#[trigger] r@[i], decrypt_ids()[i]),
        table_view(r@) == decrypt_table(),
{
    let r = vec![alg_meta(AlgId::AesCbc), alg_meta(AlgId::AesEcb), alg_meta(AlgId::DesEcb), alg_meta(AlgId::DesCbc)];
    assert(table_view(r@) =~= decrypt_table());
    r
}

/// The encrypter's algorithm at position `alg_idx` of its table.
pub fn encrypt_alg(alg_idx: usize) -> (m: AlgMeta)
    requires
        alg_idx < encrypt_ids().len(),
    ensures
        is_meta_of(m, encrypt_ids()[alg_idx as int]),
{
    let t = encrypt_algorithms();
    t[alg_idx]
}

/// The decrypter's algorithm at position `alg_idx` of its table.
pub fn decrypt_alg(alg_idx: usize) -> (m: AlgMeta)
    requires
        alg_idx < decrypt_ids().len(),
    ensures
        is_meta_of(m, decrypt_ids()[alg_idx as int]),
{
    let t = decrypt_algorithms();
    t[alg_idx]
}

/// The display name of an algorithm.
pub fn alg_id_label(id: AlgId) -> (r: &'static str)
    ensures
        r@ == alg_name(id),
{
    match id {
        AlgId::Md5 => "MD5",
        AlgId::AesCbc => "AES (CBC)",
        AlgId::AesEcb => "AES (ECB)",
        AlgId::DesEcb => "DES (ECB)",
        AlgId::DesCbc => "DES (CBC)",
    }
}

/// The result of an encryption: a single text, or a CBC ciphertext together
/// with the IV that was used.
#[derive(Debug)]
pub enum EncryptResult {
    Plain(String),
    Cbc { cipher: String, iv: String },
}

/// The abstract value of an [`EncryptResult`].
pub enum EncryptResultView {
    Plain(Seq<char>),
    Cbc(Seq<char>, Seq<char>),
}

impl View for EncryptResult {
    type V = EncryptResultView;

    open spec fn view(&self) -> EncryptResultView {
        match self {
            EncryptResult::Plain(s) => EncryptResultView::Plain(s@),
            EncryptResult::Cbc { cipher, iv } => EncryptResultView::Cbc(cipher@, iv@),
        }
    }
}

/// One call of a cryptographic primitive: what to run and on which inputs.
#[derive(Debug)]
#[allow(inconsistent_fields)]
pub enum CryptoRequest {
    HashMd5 { plaintext: String },
    EncryptAesCbc { plaintext: String, key: String, iv: Option<String> },
    EncryptAesEcb { plaintext: String, key: String },
    EncryptDesEcb { plaintext: String, key: String },
    EncryptDesCbc { plaintext: String, key: String, iv: Option<String> },
    DecryptAesCbc { payload: String, key: String, iv: String },
    DecryptAesEcb { payload: String, key: String },
    DecryptDesEcb { payload: String, key: String },
    DecryptDesCbc { payload: String, key: String, iv: String },
    GenerateKey { bits: u32 },
}

/// The abstract value of a [`CryptoRequest`].
pub enum CryptoOp {
    HashMd5(Seq<char>),
    EncryptAesCbc(Seq<char>, Seq<char>, Option<Seq<char>>),
    EncryptAesEcb(Seq<char>, Seq<char>),
    EncryptDesEcb(Seq<char>, Seq<char>),
    EncryptDesCbc(Seq<char>, Seq<char>, Option<Seq<char>>),
    DecryptAesCbc(Seq<char>, Seq<char>, Seq<char>),
    DecryptAesEcb(Seq<char>, Seq<char>),
    DecryptDesEcb(Seq<char>, Seq<char>),
    DecryptDesCbc(Seq<char>, Seq<char>, Seq<char>),
    GenerateKey(u32),
}

impl View for CryptoRequest {
    type V = CryptoOp;

    open spec fn view(&self) -> CryptoOp {
        match self {
            CryptoRequest::HashMd5 { plaintext } => CryptoOp::HashMd5(plaintext@),
            CryptoRequest::EncryptAesCbc { plaintext, key, iv } => CryptoOp::EncryptAesCbc(plaintext@, key@, str_option(*iv)),
            CryptoRequest::EncryptAesEcb { plaintext, key } => CryptoOp::EncryptAesEcb(plaintext@, key@),
            CryptoRequest::EncryptDesEcb { plaintext, key } => CryptoOp::EncryptDesEcb(plaintext@, key@),
            CryptoRequest::EncryptDesCbc { plaintext, key, iv } => CryptoOp::EncryptDesCbc(plaintext@, key@, str_option(*iv)),
            CryptoRequest::DecryptAesCbc { payload, key, iv } => CryptoOp::DecryptAesCbc(payload@, key@, iv@),
            CryptoRequest::DecryptAesEcb { payload, key } => CryptoOp::DecryptAesEcb(payload@, key@),
            CryptoRequest::DecryptDesEcb { payload, key } => CryptoOp::DecryptDesEcb(payload@, key@),
            CryptoRequest::DecryptDesCbc { payload, key, iv } => CryptoOp::DecryptDesCbc(payload@, key@, iv@),
            CryptoRequest::GenerateKey { bits } => CryptoOp::GenerateKey(*bits),
        }
    }
}

/// The abstract value of an optional string slice.
pub open spec fn opt_view(o: Option<&str>) -> Option<Seq<char>> {
    match o {
        Some(s) => Some(s@),
        None => None,
    }
}

/// The primitive that encrypts with algorithm `id`.
pub open spec fn encrypt_op(id: AlgId, plaintext: Seq<char>, key: Seq<char>, iv: Option<Seq<char>>) -> CryptoOp {
    match id {
        AlgId::Md5 => CryptoOp::HashMd5(plaintext),
        AlgId::AesCbc => CryptoOp::EncryptAesCbc(plaintext, key, iv),
        AlgId::AesEcb => CryptoOp::EncryptAesEcb(plaintext, key),
        AlgId::DesEcb => CryptoOp::EncryptDesEcb(plaintext, key),
        AlgId::DesCbc => CryptoOp::EncryptDesCbc(plaintext, key, iv),
    }
}

/// The primitive that decrypts with algorithm `id` (MD5 cannot decrypt).
/// A missing IV is passed on as the empty string.
pub open spec fn decrypt_op(id: AlgId, payload: Seq<char>, key: Seq<char>, iv: Option<Seq<char>>) -> Result<CryptoOp, Seq<char>> {
    let ivs = match iv { Some(v) => v, None => Seq::<char>::empty() };
    match id {
        AlgId::Md5 => Err("Unknown algorithm"@),
        AlgId::AesCbc => Ok(CryptoOp::DecryptAesCbc(payload, key, ivs)),
        AlgId::AesEcb => Ok(CryptoOp::DecryptAesEcb(payload, key)),
        AlgId::DesEcb => Ok(CryptoOp::DecryptDesEcb(payload, key)),
        AlgId::DesCbc => Ok(CryptoOp::DecryptDesCbc(payload, key, ivs)),
    }
}

/// Whether a primitive call encrypts in a CBC mode, whose reply is the
/// ciphertext together with the IV used.
pub open spec fn is_cbc_op(op: CryptoOp) -> bool {
    op is EncryptAesCbc || op is EncryptDesCbc
}

/// MD5 ignores the key and the IV it is given; the CBC modes, and only
/// they, call a primitive that answers with a ciphertext and an IV, the
/// others one that answers with a single text.
pub proof fn law_encrypt_request(
    id: AlgId,
    plaintext: Seq<char>,
    key1: Seq<char>,
    iv1: Option<Seq<char>>,
    key2: Seq<char>,
    iv2: Option<Seq<char>>,
)
    ensures
        id == AlgId::Md5 ==> encrypt_op(id, plaintext, key1, iv1) == encrypt_op(id, plaintext, key2, iv2),
        is_cbc_op(encrypt_op(id, plaintext, key1, iv1)) <==> (id == AlgId::AesCbc || id == AlgId::DesCbc),
{
}

fn opt_owned(o: Option<&str>) -> (r: Option<String>)
    ensures
        str_option(r) == opt_view(o),
{
    match o {
        Some(s) => Some(owned(s)),
        None => None,
    }
}

/// The primitive call that encrypts `plaintext` with `alg`. Its reply is
/// the encryption result: the MD5 digest and the ECB ciphertexts as plain
/// text, the CBC modes as ciphertext plus the IV used (`iv`, or a fresh one).
pub fn encrypt(alg: &AlgMeta, plaintext: &str, key: &str, iv: Option<&str>) -> (r: CryptoRequest)
    ensures
        r@ == encrypt_op(alg.id, plaintext@, key@, opt_view(iv)),
{
    match alg.id {
        AlgId::Md5 => CryptoRequest::HashMd5 { plaintext: owned(plaintext) },
        AlgId::AesCbc => CryptoRequest::EncryptAesCbc { plaintext: owned(plaintext), key: owned(key), iv: opt_owned(iv) },
        AlgId::AesEcb => CryptoRequest::EncryptAesEcb { plaintext: owned(plaintext), key: owned(key) },
        AlgId::DesEcb => CryptoRequest::EncryptDesEcb { plaintext: owned(plaintext), key: owned(key) },
        AlgId::DesCbc => CryptoRequest::EncryptDesCbc { plaintext: owned(plaintext), key: owned(key), iv: opt_owned(iv) },
    }
}

/// The primitive call that decrypts `payload` with `alg`; MD5 is refused
/// with "Unknown algorithm".
pub fn decrypt(alg: &AlgMeta, payload: &str, key: &str, iv: Option<&str>) -> (r: Result<CryptoRequest, String>)
    ensures
        match r {
            Ok(req) => decrypt_op(alg.id, payload@, key@, opt_view(iv)) == Ok::<CryptoOp, Seq<char>>(req@),
            Err(e) => decrypt_op(alg.id, payload@, key@, opt_view(iv)) == Err::<CryptoOp, Seq<char>>(e@),
        },
{
    let ivs: &str = match iv {
        Some(v) => v,
        None => "",
    };
    proof {
        reveal_strlit("");
        assert(ivs@ == (match opt_view(iv) { Some(v) => v, None => Seq::<char>::empty() }));
    }
    match alg.id {
        AlgId::Md5 => Err(owned("Unknown algorithm")),
        AlgId::AesCbc => Ok(CryptoRequest::DecryptAesCbc { payload: owned(payload), key: owned(key), iv: owned(ivs) }),
        AlgId::AesEcb => Ok(CryptoRequest::DecryptAesEcb { payload: owned(payload), key: owned(key) }),
        AlgId::DesEcb => Ok(CryptoRequest::DecryptDesEcb { payload: owned(payload), key: owned(key) }),
        AlgId::DesCbc => Ok(CryptoRequest::DecryptDesCbc { payload: owned(payload), key: owned(key), iv: owned(ivs) }),
    }
}

/// Length in bytes of the UTF-8 encoding.
pub open spec fn utf8_size(s: Seq<char>) -> nat {
    encode_utf8(s).len()
}

/// The problem with `key` for `alg`, if any.
pub open spec fn key_problem(alg: AlgMetaView, key: Seq<char>) -> Option<Seq<char>> {
    if !alg.require_key {
        None
    } else if key.len() == 0 {
        Some("Please enter a key"@)
    } else if alg.key_lengths.len() > 0 && !alg.key_lengths.contains(utf8_size(key) as usize) {
        if alg.key_lengths.contains(8usize) {
            Some("Key must be exactly 8 bytes for DES"@)
        } else {
            Some("Key must be 16, 24, or 32 bytes for AES"@)
        }
    } else {
        None
    }
}

/// The key check accepts exactly the keys of an allowed length: for AES
/// keys of 16, 24 or 32 bytes, for DES keys of exactly 8 bytes, and for
/// MD5 any key (it uses none). Lengths are those of the UTF-8 encoding.
pub proof fn law_key_lengths(id: AlgId, key: Seq<char>)
    requires
        utf8_size(key) <= usize::MAX,
    ensures
        (id == AlgId::AesCbc || id == AlgId::AesEcb) ==> (key_problem(alg_meta_view(id), key) is None
            <==> (utf8_size(key) == 16 || utf8_size(key) == 24 || utf8_size(key) == 32)),
        (id == AlgId::DesCbc || id == AlgId::DesEcb) ==> (key_problem(alg_meta_view(id), key) is None
            <==> utf8_size(key) == 8),
        id == AlgId::Md5 ==> key_problem(alg_meta_view(id), key) is None,
{
    let n = utf8_size(key) as usize;
    let m = alg_meta_view(id);
    if key.len() == 0 {
        assert(key =~= Seq::<char>::empty());
        assert(utf8_size(key) == 0);
    } else {
        crate::codec::lemma_encode_utf8_len(key);
    }
    if id == AlgId::AesCbc || id == AlgId::AesEcb {
        if n == 16 || n == 24 || n == 32 {
            assert(m.key_lengths[0] == 16 && m.key_lengths[1] == 24 && m.key_lengths[2] == 32);
            assert(m.key_lengths.contains(n));
        }
    }
    if id == AlgId::DesCbc || id == AlgId::DesEcb {
        if n == 8 {
            assert(m.key_lengths[0] == 8);
            assert(m.key_lengths.contains(n));
        }
    }
}

fn slice_contains(s: &[usize], x: usize) -> (r: bool)
    ensures
        r == s@.contains(x),
{
    let mut i: usize = 0;
    while i < s.len()
        invariant
            i <= s@.len(),
            forall|k: int| 0 <= k < i ==> s@[k] != x,
        decreases s@.len() - i,
    {
        if s[i] == x {
            assert(s@[i as int] == x);
            return true;
        }
        i = i + 1;
    }
    false
}

/// Checks a key against `alg`: it must be present when the algorithm needs
/// one, and its byte length must be one the algorithm accepts.
pub fn key_error(alg: &AlgMeta, key: &str) -> (r: Option<String>)
    ensures
        str_option(r) == key_problem(alg@, key@),
{
    if !alg.require_key {
        return None;
    }
    if key.unicode_len() == 0 {
        return Some(owned("Please enter a key"));
    }
    let len = utf8_len(key);
    if alg.key_lengths.len() > 0 && !slice_contains(alg.key_lengths, len) {
        if slice_contains(alg.key_lengths, 8) {
            return Some(owned("Key must be exactly 8 bytes for DES"));
        } else {
            return Some(owned("Key must be 16, 24, or 32 bytes for AES"));
        }
    }
    None
}

/// Whether an IV is taken to be Base64 rather than plain text: it holds one
/// of `+`, `/` or `=`.
pub open spec fn looks_like_base64_spec(s: Seq<char>) -> bool {
    exists|i: int| 0 <= i < s.len() && (s[i] == '+' || s[i] == '/' || s[i] == '=')
}

/// Whether an IV is taken to be Base64 rather than plain text.
pub fn looks_like_base64(s: &str) -> (r: bool)
    ensures
        r == looks_like_base64_spec(s@),
{
    let v = chars_of(s);
    let mut i: usize = 0;
    while i < v.len()
        invariant
            v@ == s@,
            i <= v@.len(),
            forall|k: int| 0 <= k < i ==> !(v@[k] == '+' || v@[k] == '/' || v@[k] == '='),
        decreases v@.len() - i,
    {
        if v[i] == '+' || v[i] == '/' || v[i] == '=' {
            return true;
        }
        i = i + 1;
    }
    false
}

/// The message for an IV of the wrong length.
pub open spec fn iv_length_message(n: usize) -> Seq<char> {
    if n == 8 {
        "IV must be exactly 8 bytes for DES"@
    } else {
        "IV must be exactly 16 bytes for AES"@
    }
}

/// The problem with an (optional) IV for `alg`, if any.
pub open spec fn iv_problem(alg: AlgMetaView, iv: Seq<char>) -> Option<Seq<char>> {
    match alg.iv_length {
        None => None,
        Some(n) => if iv.len() == 0 {
            None
        } else if looks_like_base64_spec(iv) {
            match base64_decoding_of(encode_utf8(iv)) {
                None => Some("IV is not valid Base64"@),
                Some(d) => if d.len() != n { Some(iv_length_message(n)) } else { None },
            }
        } else if utf8_size(iv) != n {
            Some(iv_length_message(n))
        } else {
            None
        },
    }
}

fn iv_length_error(n: usize) -> (r: String)
    ensures
        r@ == iv_length_message(n),
{
    if n == 8 {
        owned("IV must be exactly 8 bytes for DES")
    } else {
        owned("IV must be exactly 16 bytes for AES")
    }
}

/// Checks an optional IV against `alg`: empty is fine; an IV holding `+`,
/// `/` or `=` must be Base64 decoding to the required length, any other
/// must have that many bytes.
pub fn iv_error(alg: &AlgMeta, iv: &str) -> (r: Option<String>)
    ensures
        str_option(r) == iv_problem(alg@, iv@),
{
    let n = match alg.iv_length {
        Some(n) => n,
        None => {
            return None;
        },
    };
    if iv.unicode_len() == 0 {
        return None;
    }
    if looks_like_base64(iv) {
        let raw = utf8_bytes(iv);
        match base64_decode(raw.as_slice()) {
            None => {
                return Some(owned("IV is not valid Base64"));
            },
            Some(d) => {
                if d.len() != n {
                    return Some(iv_length_error(n));
                }
            },
        }
    } else {
        if utf8_len(iv) != n {
            return Some(iv_length_error(n));
        }
    }
    None
}

/// The problem with a required IV for `alg`, if any.
pub open spec fn iv_required_problem(alg: AlgMetaView, iv: Seq<char>) -> Option<Seq<char>> {
    if alg.iv_length is None {
        None
    } else if trim(iv).len() == 0 {
        Some("Please enter an IV"@)
    } else {
        iv_problem(alg, iv)
    }
}

/// Checks the decrypter's IV: when `alg` uses one it must be present
/// (not blank) and pass [`iv_error`].
pub fn iv_error_required(alg: &AlgMeta, iv: &str) -> (r: Option<String>)
    ensures
        str_option(r) == iv_required_problem(alg@, iv@),
{
    if alg.iv_length.is_none() {
        return None;
    }
    if trim_str(iv).unicode_len() == 0 {
        return Some(owned("Please enter an IV"));
    }
    iv_error(alg, iv)
}

/// The problem with a ciphertext to decrypt, if any.
pub open spec fn payload_problem(val: Seq<char>) -> Option<Seq<char>> {
    if trim(val).len() == 0 {
        Some("Please enter text to decrypt"@)
    } else if base64_decoding_of(encode_utf8(trim(val))) is None {
        Some("Payload is not valid Base64"@)
    } else {
        None
    }
}

/// Checks a ciphertext to decrypt: not blank, and valid Base64 once trimmed.
pub fn payload_error(val: &str) -> (r: Option<String>)
    ensures
        str_option(r) == payload_problem(val@),
{
    let t = trim_str(val);
    if t.unicode_len() == 0 {
        return Some(owned("Please enter text to decrypt"));
    }
    let raw = utf8_bytes(t);
    if base64_decode(raw.as_slice()).is_none() {
        return Some(owned("Payload is not valid Base64"));
    }
    None
}

} // verus!
