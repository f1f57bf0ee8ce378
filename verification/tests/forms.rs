use crittoutil::crypto_meta::{alg_meta, AlgId, CryptoRequest, EncryptResult};
use crittoutil::forms::{apply_decrypt_reply, apply_encrypt_reply, check_decrypt_form, check_encrypt_form};

#[test]
fn encrypter_form_checks() {
    let aes = alg_meta(AlgId::AesCbc);
    assert_eq!(check_encrypt_form(&aes, "", "k", "").unwrap_err(), "Please enter text to encrypt");
    assert_eq!(check_encrypt_form(&aes, "p", "", "").unwrap_err(), "Please enter a key");
    assert_eq!(check_encrypt_form(&aes, "p", "0123456789abcdef", "x").unwrap_err(), "IV must be exactly 16 bytes for AES");
    match check_encrypt_form(&aes, "p", "0123456789abcdef", "").unwrap() {
        CryptoRequest::EncryptAesCbc { iv, .. } => assert_eq!(iv, None),
        other => panic!("unexpected {:?}", other),
    }
}

#[test]
fn encrypter_results_and_remembered_keys() {
    let o = apply_encrypt_reply("0123456789abcdef", Ok(EncryptResult::Cbc { cipher: "C".to_string(), iv: "I".repeat(16) }));
    assert_eq!((o.result_cipher.as_str(), o.result_iv.len(), o.error_msg.as_str()), ("C", 16, ""));
    assert_eq!(o.keys, vec![("I".repeat(16), 16), ("0123456789abcdef".to_string(), 16)]);
    let o = apply_encrypt_reply("", Ok(EncryptResult::Plain("H".to_string())));
    assert_eq!(o.result_cipher, "H");
    assert!(o.keys.is_empty());
    let o = apply_encrypt_reply("bad", Err("failed".to_string()));
    assert_eq!((o.result_cipher.as_str(), o.error_msg.as_str()), ("", "failed"));
    assert_eq!(o.keys, vec![("bad".to_string(), 3)]);
}

#[test]
fn decrypter_form_checks() {
    let des = alg_meta(AlgId::DesCbc);
    assert_eq!(check_decrypt_form(&des, "", "12345678", "abcdefgh").unwrap_err(), "Please enter text to decrypt");
    assert_eq!(check_decrypt_form(&des, "SGk=", "12345678", "").unwrap_err(), "Please enter an IV");
    assert_eq!(check_decrypt_form(&des, "SGk=", "1234", "abcdefgh").unwrap_err(), "Key must be exactly 8 bytes for DES");
    match check_decrypt_form(&des, " SGk= ", "12345678", "abcdefgh").unwrap() {
        CryptoRequest::DecryptDesCbc { payload, iv, .. } => assert_eq!((payload.as_str(), iv.as_str()), ("SGk=", "abcdefgh")),
        other => panic!("unexpected {:?}", other),
    }
}

#[test]
fn decrypter_results_and_remembered_keys() {
    let o = apply_decrypt_reply("12345678", " abcdefgh ", Ok(EncryptResult::Plain("hi".to_string())));
    assert_eq!((o.result.as_str(), o.error_msg.as_str()), ("hi", ""));
    assert_eq!(o.keys, vec![("12345678".to_string(), 8), ("abcdefgh".to_string(), 8)]);
    let o = apply_decrypt_reply("k", "", Err("bad padding".to_string()));
    assert_eq!((o.result.as_str(), o.error_msg.as_str()), ("", "bad padding"));
    assert!(o.keys.is_empty());
}
