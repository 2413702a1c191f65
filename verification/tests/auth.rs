use base64::Engine;
use ed25519_dalek::pkcs8::EncodePrivateKey;
use ed25519_dalek::{Signer, SigningKey};
use revolut_trading::auth::{pem_body, sign_request, signing_key_from_pem, KeyError, PrivateKey};

fn secret() -> [u8; 32] {
    let mut out = [0u8; 32];
    for (i, b) in out.iter_mut().enumerate() {
        *b = (i as u8).wrapping_mul(97).wrapping_add(13);
    }
    out
}

#[test]
fn pem_body_drops_armour_and_joins_lines() {
    assert_eq!(pem_body("-----BEGIN X-----\r\nAB\r\nCD\n-----END X-----"), "ABCD");
    assert_eq!(pem_body("AB\nCD\n"), "ABCD");
    assert_eq!(pem_body(""), "");
    assert_eq!(pem_body("----x\n-----\n"), "----x");
    assert_eq!(pem_body("A\r"), "A\r");
    for pem in [
        "-----BEGIN TEST KEY-----\nMC4C\nAQAw\n-----END TEST KEY-----\n",
        "a\r\n\r\nb\r",
        "\n\n-----\nx",
        "x\ry\n",
        "",
    ] {
        let expected: String = pem.lines().filter(|l| !l.starts_with("-----")).collect();
        assert_eq!(pem_body(pem), expected);
    }
}

/// The PEM document that ed25519-dalek itself writes for `secret`, in
/// 64-character lines.
fn pem_of(secret: &[u8; 32]) -> String {
    let der = SigningKey::from_bytes(secret).to_pkcs8_der().unwrap();
    let b64 = base64::engine::general_purpose::STANDARD.encode(der.as_bytes());
    let mut pem = String::from("-----BEGIN TEST KEY-----\n");
    for chunk in b64.as_bytes().chunks(64) {
        pem.push_str(std::str::from_utf8(chunk).unwrap());
        pem.push('\n');
    }
    pem.push_str("-----END TEST KEY-----\n");
    pem
}

#[test]
fn key_is_read_from_pkcs8_pem() {
    let pem = pem_of(&secret());
    match signing_key_from_pem(&pem) {
        Ok(key) => assert_eq!(key.secret(), secret()),
        Err(KeyError::Base64(e)) => panic!("Base64 refused: {:?}", e),
        Err(KeyError::Pkcs8(e)) => panic!("PKCS#8 refused: {:?}", e),
    }
}

#[test]
fn key_read_from_pem_signs_like_the_original_key() {
    let other: [u8; 32] = [7u8; 32];
    let key = match signing_key_from_pem(&pem_of(&other).replace('\n', "\r\n")) {
        Ok(key) => key,
        Err(_) => panic!("the key was refused"),
    };
    let sig = sign_request(&key, "GET", "/balances", "", "", 42);
    let expected = base64::engine::general_purpose::STANDARD
        .encode(SigningKey::from_bytes(&other).sign(b"42GET/balances").to_bytes());
    assert_eq!(sig, expected);
}

#[test]
fn bad_base64_is_refused() {
    assert!(matches!(signing_key_from_pem("-----BEGIN-----\n!!!!\n-----END-----\n"), Err(KeyError::Base64(_))));
}

#[test]
fn non_pkcs8_is_refused() {
    assert!(matches!(signing_key_from_pem("-----BEGIN-----\nAAAA\n-----END-----\n"), Err(KeyError::Pkcs8(_))));
}

#[test]
fn signature_is_base64_ed25519_of_the_message() {
    let key = PrivateKey::from_secret(secret());
    let sig = sign_request(&key, "POST", "/api/1.0/orders", "", "{\"a\":1}", 1725029869000);
    let dalek = SigningKey::from_bytes(&secret());
    let message = "1725029869000POST/api/1.0/orders{\"a\":1}";
    let expected = base64::engine::general_purpose::STANDARD.encode(dalek.sign(message.as_bytes()).to_bytes());
    assert_eq!(sig, expected);
    assert_eq!(sig.len(), 88);
    assert_ne!(sig, message);
}

#[test]
fn signatures_differ_with_the_timestamp() {
    let key = PrivateKey::from_secret(secret());
    let a = sign_request(&key, "GET", "/p", "", "", 1);
    let b = sign_request(&key, "GET", "/p", "", "", 2);
    assert_ne!(a, b);
    assert_eq!(a, sign_request(&key, "GET", "/p", "", "", 1));
}
