use crittoutil::crypto_meta::{
    alg_id_label, alg_meta, decrypt, decrypt_alg, decrypt_algorithms, encrypt, encrypt_alg,
    encrypt_algorithms, iv_error, iv_error_required, key_error, looks_like_base64, payload_error,
    AlgId, CryptoRequest,
};

#[test]
fn algorithm_tables() {
    let enc = encrypt_algorithms();
    let names: Vec<&str> = enc.iter().map(|a| a.name).collect();
    assert_eq!(names, vec!["MD5", "AES (CBC)", "AES (ECB)", "DES (ECB)", "DES (CBC)"]);
    let dec = decrypt_algorithms();
    let ids: Vec<AlgId> = dec.iter().map(|a| a.id).collect();
    assert_eq!(ids, vec![AlgId::AesCbc, AlgId::AesEcb, AlgId::DesEcb, AlgId::DesCbc]);
    assert_eq!(encrypt_alg(1).iv_length, Some(16));
    assert_eq!(decrypt_alg(3).iv_length, Some(8));
    assert_eq!(alg_meta(AlgId::DesEcb).key_lengths, &[8]);
    assert!(!alg_meta(AlgId::Md5).require_key);
    assert_eq!(alg_id_label(AlgId::AesEcb), "AES (ECB)");
}

#[test]
fn key_errors() {
    let aes = alg_meta(AlgId::AesCbc);
    let des = alg_meta(AlgId::DesEcb);
    let md5 = alg_meta(AlgId::Md5);
    assert_eq!(key_error(&md5, ""), None);
    assert_eq!(key_error(&aes, ""), Some("Please enter a key".to_string()));
    assert_eq!(key_error(&aes, "short"), Some("Key must be 16, 24, or 32 bytes for AES".to_string()));
    assert_eq!(key_error(&aes, "0123456789abcdef"), None);
    assert_eq!(key_error(&aes, "0123456789abcdef01234567"), None);
    assert_eq!(key_error(&des, "1234567"), Some("Key must be exactly 8 bytes for DES".to_string()));
    // Lengths are in bytes: four two-byte characters make eight bytes.
    assert_eq!(key_error(&des, "\u{e8}\u{e8}\u{e8}\u{e8}"), None);
}

#[test]
fn iv_errors() {
    let aes = alg_meta(AlgId::AesCbc);
    let des = alg_meta(AlgId::DesCbc);
    let ecb = alg_meta(AlgId::AesEcb);
    assert_eq!(iv_error(&ecb, "anything"), None);
    assert_eq!(iv_error(&aes, ""), None);
    assert_eq!(iv_error(&aes, "0123456789abcdef"), None);
    assert_eq!(iv_error(&aes, "abc"), Some("IV must be exactly 16 bytes for AES".to_string()));
    assert_eq!(iv_error(&des, "abc"), Some("IV must be exactly 8 bytes for DES".to_string()));
    assert_eq!(iv_error(&aes, "AAAAAAAAAAAAAAAAAAAAAA=="), None);
    assert_eq!(iv_error(&des, "AAAAAAAAAAA="), None);
    assert_eq!(iv_error(&des, "AAAA"), None.or(Some("IV must be exactly 8 bytes for DES".to_string())));
    assert_eq!(iv_error(&aes, "AA+A="), Some("IV is not valid Base64".to_string()));
    assert_eq!(iv_error(&aes, "AAAAAAAAAAA="), Some("IV must be exactly 16 bytes for AES".to_string()));
    assert!(looks_like_base64("a/b"));
    assert!(!looks_like_base64("abc"));
}

#[test]
fn required_iv_and_payload() {
    let aes = alg_meta(AlgId::AesCbc);
    let ecb = alg_meta(AlgId::AesEcb);
    assert_eq!(iv_error_required(&ecb, ""), None);
    assert_eq!(iv_error_required(&aes, "   "), Some("Please enter an IV".to_string()));
    assert_eq!(iv_error_required(&aes, "0123456789abcdef"), None);
    assert_eq!(payload_error(" \n"), Some("Please enter text to decrypt".to_string()));
    assert_eq!(payload_error("not base64!"), Some("Payload is not valid Base64".to_string()));
    assert_eq!(payload_error("  SGVsbG8=  "), None);
}

#[test]
fn dispatch_to_primitives() {
    match encrypt(&alg_meta(AlgId::Md5), "text", "ignored", None) {
        CryptoRequest::HashMd5 { plaintext } => assert_eq!(plaintext, "text"),
        other => panic!("unexpected {:?}", other),
    }
    match encrypt(&alg_meta(AlgId::DesCbc), "p", "12345678", Some("abcdefgh")) {
        CryptoRequest::EncryptDesCbc { plaintext, key, iv } => {
            assert_eq!((plaintext.as_str(), key.as_str()), ("p", "12345678"));
            assert_eq!(iv, Some("abcdefgh".to_string()));
        }
        other => panic!("unexpected {:?}", other),
    }
    assert_eq!(decrypt(&alg_meta(AlgId::Md5), "x", "k", None).unwrap_err(), "Unknown algorithm");
    match decrypt(&alg_meta(AlgId::AesCbc), "c", "k", None).unwrap() {
        CryptoRequest::DecryptAesCbc { iv, .. } => assert_eq!(iv, ""),
        other => panic!("unexpected {:?}", other),
    }
    match decrypt(&alg_meta(AlgId::AesEcb), "c", "k", Some("iv")).unwrap() {
        CryptoRequest::DecryptAesEcb { payload, key } => assert_eq!((payload.as_str(), key.as_str()), ("c", "k")),
        other => panic!("unexpected {:?}", other),
    }
}
