//! What the encrypter and decrypter screens do when their button is
//! pressed: check the form, name the primitive to run, and turn its reply
//! into what the screen shows and the keys to remember.

use vstd::prelude::*;
use vstd::utf8::encode_utf8;
use crate::text::{owned, str_option, trim, trim_str};
use crate::codec::utf8_len;
use crate::crypto_meta::{
    decrypt, decrypt_op, encrypt, encrypt_op, iv_error, iv_error_required, iv_problem,
    iv_required_problem, key_error, key_problem, opt_view, payload_error, payload_problem,
    AlgId, AlgMeta, CryptoOp, CryptoRequest, EncryptResult, EncryptResultView,
};
use crate::tools::{keys_view, reply_text, reply_view, key_entry};

verus! {

/// What the encrypter shows after a run, and the keys/IVs it remembers (in
/// the order they are added to the history).
#[derive(Debug)]
pub struct EncrypterOutcome {
    pub result_cipher: String,
    pub result_iv: String,
    pub error_msg: String,
    pub keys: Vec<(String, usize)>,
}

/// What the decrypter shows after a run, and the keys/IVs it remembers.
#[derive(Debug)]
pub struct DecrypterOutcome {
    pub result: String,
    pub error_msg: String,
    pub keys: Vec<(String, usize)>,
}

/// The encrypter's check of its form, then the primitive to run.
pub open spec fn encrypt_form(alg: crate::crypto_meta::AlgMetaView, plaintext: Seq<char>, key: Seq<char>, iv: Seq<char>) -> Result<CryptoOp, Seq<char>> {
    if plaintext.len() == 0 {
        Err("Please enter text to encrypt"@)
    } else if key_problem(alg, key) is Some {
        Err(key_problem(alg, key)->Some_0)
    } else if iv_problem(alg, iv) is Some {
        Err(iv_problem(alg, iv)->Some_0)
    } else {
        Ok(encrypt_op(alg.id, plaintext, key, if iv.len() == 0 { None } else { Some(iv) }))
    }
}

/// The abstract value of a checked form.
pub open spec fn request_result(r: Result<CryptoRequest, String>) -> Result<CryptoOp, Seq<char>> {
    match r {
        Ok(q) => Ok(q@),
        Err(e) => Err(e@),
    }
}

/// The encrypter runs exactly the algorithm chosen, on the text and the key
/// typed in; a CBC mode gets the IV typed in, and only an empty IV field
/// lets the primitive choose one. The form is accepted exactly when the
/// text is present and the key and IV pass their checks.
pub proof fn law_encrypt_form_uses_inputs(
    alg: crate::crypto_meta::AlgMetaView,
    plaintext: Seq<char>,
    key: Seq<char>,
    iv: Seq<char>,
)
    ensures
        encrypt_form(alg, plaintext, key, iv) is Ok <==> (plaintext.len() > 0 && key_problem(alg, key) is None
            && iv_problem(alg, iv) is None),
        encrypt_form(alg, plaintext, key, iv) matches Ok(op) ==> match op {
            CryptoOp::HashMd5(p) => alg.id == AlgId::Md5 && p == plaintext,
            CryptoOp::EncryptAesEcb(p, k) => alg.id == AlgId::AesEcb && p == plaintext && k == key,
            CryptoOp::EncryptDesEcb(p, k) => alg.id == AlgId::DesEcb && p == plaintext && k == key,
            CryptoOp::EncryptAesCbc(p, k, v) => alg.id == AlgId::AesCbc && p == plaintext && k == key
                && (iv.len() == 0 ==> v is None) && (iv.len() > 0 ==> v == Some(iv)),
            CryptoOp::EncryptDesCbc(p, k, v) => alg.id == AlgId::DesCbc && p == plaintext && k == key
                && (iv.len() == 0 ==> v is None) && (iv.len() > 0 ==> v == Some(iv)),
            _ => false,
        },
{
}

/// Checks the encrypter's form (text present, key and IV acceptable for
/// `alg`) and names the primitive to run; an empty IV lets the primitive
/// choose one.
pub fn check_encrypt_form(alg: &AlgMeta, plaintext: &str, key: &str, iv: &str) -> (r: Result<CryptoRequest, String>)
    ensures
        request_result(r) == encrypt_form(alg@, plaintext@, key@, iv@),
{
    if plaintext.unicode_len() == 0 {
        return Err(owned("Please enter text to encrypt"));
    }
    match key_error(alg, key) {
        Some(e) => {
            return Err(e);
        },
        None => {},
    }
    match iv_error(alg, iv) {
        Some(e) => {
            return Err(e);
        },
        None => {},
    }
    let iv_opt: Option<&str> = if iv.unicode_len() == 0 { None } else { Some(iv) };
    Ok(encrypt(alg, plaintext, key, iv_opt))
}

/// What the encrypter shows for the primitive's reply: `(cipher, iv, error, keys)`.
pub open spec fn encrypt_outcome(key: Seq<char>, reply: Result<EncryptResultView, Seq<char>>) -> (Seq<char>, Seq<char>, Seq<char>, Seq<(Seq<char>, usize)>) {
    match reply {
        Ok(EncryptResultView::Plain(c)) => (c, Seq::empty(), Seq::empty(), key_entry(key)),
        Ok(EncryptResultView::Cbc(c, iv)) => (c, iv, Seq::empty(), seq![(iv, encode_utf8(iv).len() as usize)] + key_entry(key)),
        Err(e) => (Seq::empty(), Seq::empty(), e, key_entry(key)),
    }
}

/// Turns the primitive's reply into what the encrypter shows: the
/// ciphertext (and the IV used, which is remembered), or the error; a
/// non-empty key is remembered in any case.
pub fn apply_encrypt_reply(key: &str, reply: Result<EncryptResult, String>) -> (o: EncrypterOutcome)
    ensures
        (o.result_cipher@, o.result_iv@, o.error_msg@, keys_view(o.keys@)) == encrypt_outcome(key@, reply_view(reply)),
{
    let mut keys: Vec<(String, usize)> = Vec::new();
    let mut o = match reply {
        Ok(EncryptResult::Plain(c)) => EncrypterOutcome { result_cipher: c, result_iv: String::new(), error_msg: String::new(), keys: Vec::new() },
        Ok(EncryptResult::Cbc { cipher, iv }) => {
            let n = utf8_len(iv.as_str());
            keys.push((iv.clone(), n));
            EncrypterOutcome { result_cipher: cipher, result_iv: iv, error_msg: String::new(), keys: Vec::new() }
        },
        Err(e) => EncrypterOutcome { result_cipher: String::new(), result_iv: String::new(), error_msg: e, keys: Vec::new() },
    };
    let ghost before = keys_view(keys@);
    if key.unicode_len() > 0 {
        let n = utf8_len(key);
        keys.push((owned(key), n));
    }
    assert(keys_view(keys@) =~= before + key_entry(key@));
    o.keys = keys;
    proof {
        match reply_view(reply) {
            Ok(EncryptResultView::Plain(c)) => {
                assert(keys_view(o.keys@) =~= key_entry(key@));
            },
            Ok(EncryptResultView::Cbc(c, iv)) => {},
            Err(e) => {
                assert(keys_view(o.keys@) =~= key_entry(key@));
            },
        }
    }
    o
}

/// The decrypter's check of its form, then the primitive to run.
pub open spec fn decrypt_form(alg: crate::crypto_meta::AlgMetaView, payload: Seq<char>, key: Seq<char>, iv: Seq<char>) -> Result<CryptoOp, Seq<char>> {
    if payload_problem(payload) is Some {
        Err(payload_problem(payload)->Some_0)
    } else if iv_required_problem(alg, iv) is Some {
        Err(iv_required_problem(alg, iv)->Some_0)
    } else if key_problem(alg, key) is Some {
        Err(key_problem(alg, key)->Some_0)
    } else {
        decrypt_op(alg.id, trim(payload), key, if trim(iv).len() == 0 { None } else { Some(trim(iv)) })
    }
}

/// The decrypter runs exactly the algorithm chosen, on the trimmed payload
/// and the key typed in; a CBC mode gets the trimmed IV. The form is
/// accepted exactly when the payload, IV and key pass their checks and the
/// algorithm can decrypt (MD5 cannot).
pub proof fn law_decrypt_form_uses_inputs(
    alg: crate::crypto_meta::AlgMetaView,
    payload: Seq<char>,
    key: Seq<char>,
    iv: Seq<char>,
)
    ensures
        decrypt_form(alg, payload, key, iv) is Ok <==> (payload_problem(payload) is None
            && iv_required_problem(alg, iv) is None && key_problem(alg, key) is None && alg.id != AlgId::Md5),
        decrypt_form(alg, payload, key, iv) matches Ok(op) ==> match op {
            CryptoOp::DecryptAesEcb(p, k) => alg.id == AlgId::AesEcb && p == trim(payload) && k == key,
            CryptoOp::DecryptDesEcb(p, k) => alg.id == AlgId::DesEcb && p == trim(payload) && k == key,
            CryptoOp::DecryptAesCbc(p, k, v) => alg.id == AlgId::AesCbc && p == trim(payload) && k == key && v == trim(iv),
            CryptoOp::DecryptDesCbc(p, k, v) => alg.id == AlgId::DesCbc && p == trim(payload) && k == key && v == trim(iv),
            _ => false,
        },
{
}

/// Checks the decrypter's form (Base64 payload, IV and key acceptable for
/// `alg`) and names the primitive to run on the trimmed payload and IV.
pub fn check_decrypt_form(alg: &AlgMeta, payload: &str, key: &str, iv: &str) -> (r: Result<CryptoRequest, String>)
    ensures
        request_result(r) == decrypt_form(alg@, payload@, key@, iv@),
{
    match payload_error(payload) {
        Some(e) => {
            return Err(e);
        },
        None => {},
    }
    match iv_error_required(alg, iv) {
        Some(e) => {
            return Err(e);
        },
        None => {},
    }
    match key_error(alg, key) {
        Some(e) => {
            return Err(e);
        },
        None => {},
    }
    let iv_t = trim_str(iv);
    let iv_opt: Option<&str> = if iv_t.unicode_len() == 0 { None } else { Some(iv_t) };
    decrypt(alg, trim_str(payload), key, iv_opt)
}

/// What the decrypter shows for the primitive's reply: `(result, error, keys)`.
/// On success the key, then the trimmed IV (if any), are remembered.
pub open spec fn decrypt_outcome(key: Seq<char>, iv: Seq<char>, reply: Result<EncryptResultView, Seq<char>>) -> (Seq<char>, Seq<char>, Seq<(Seq<char>, usize)>) {
    match reply {
        Ok(r) => (
            reply_text(r),
            Seq::empty(),
            seq![(key, encode_utf8(key).len() as usize)]
                + (if trim(iv).len() == 0 { Seq::empty() } else { seq![(trim(iv), encode_utf8(trim(iv)).len() as usize)] }),
        ),
        Err(e) => (Seq::empty(), e, Seq::empty()),
    }
}

/// Turns the primitive's reply into what the decrypter shows: the plaintext,
/// or the error.
pub fn apply_decrypt_reply(key: &str, iv: &str, reply: Result<EncryptResult, String>) -> (o: DecrypterOutcome)
    ensures
        (o.result@, o.error_msg@, keys_view(o.keys@)) == decrypt_outcome(key@, iv@, reply_view(reply)),
{
    match reply {
        Ok(r) => {
            let text = match r {
                EncryptResult::Plain(s) => s,
                EncryptResult::Cbc { cipher, iv: _ } => cipher,
            };
            let mut keys: Vec<(String, usize)> = Vec::new();
            let n = utf8_len(key);
            keys.push((owned(key), n));
            let iv_t = trim_str(iv);
            if iv_t.unicode_len() > 0 {
                let m = utf8_len(iv_t);
                keys.push((owned(iv_t), m));
            }
            proof {
                if trim(iv@).len() == 0 {
                    assert(keys_view(keys@) =~= seq![(key@, encode_utf8(key@).len() as usize)] + Seq::<(Seq<char>, usize)>::empty());
                } else {
                    assert(keys_view(keys@) =~= seq![(key@, encode_utf8(key@).len() as usize)] + seq![(trim(iv@), encode_utf8(trim(iv@)).len() as usize)]);
                }
            }
            DecrypterOutcome { result: text, error_msg: String::new(), keys }
        },
        Err(e) => {
            let keys: Vec<(String, usize)> = Vec::new();
            assert(keys_view(keys@) =~= Seq::<(Seq<char>, usize)>::empty());
            DecrypterOutcome { result: String::new(), error_msg: e, keys }
        },
    }
}

} // verus!
