use xitter_txid::encoding::base64_decode;
use xitter_txid::encoding::base64_encode;
use xitter_txid::ClientTransaction;
use xitter_txid::Error;

#[test]
fn base64_roundtrip() {
    let original = b"The quick brown fox jumps over the lazy dog";
    let encoded = base64_encode(original);
    let decoded = base64_decode(&encoded).unwrap();
    assert_eq!(decoded, original);
}

#[test]
fn base64_empty() {
    let encoded = base64_encode(b"");
    assert_eq!(encoded, "");
    let decoded = base64_decode("").unwrap();
    assert!(decoded.is_empty());
}

#[test]
fn base64_invalid() {
    base64_decode("not valid base64!!!").unwrap_err();
}

#[test]
fn decode_key_known_value() {
    let bytes = ClientTransaction::decode_key("aGVsbG8=").unwrap();
    assert_eq!(bytes, b"hello");
}

#[test]
fn decode_key_invalid_is_base64_error() {
    let err = ClientTransaction::decode_key("???").unwrap_err();
    assert!(matches!(err, Error::Base64(_)));
}

#[test]
fn client_stores_key_material() {
    let ct = ClientTransaction::new(vec![9, 8, 7], "anim".to_string());
    assert_eq!(ct.key_bytes, vec![9, 8, 7]);
    assert_eq!(ct.animation_key, "anim");
}

#[test]
fn transaction_id_matches_direct_computation() {
    let key_bytes = vec![11u8, 22, 33, 44, 55, 66, 77, 88];
    let anim = "0b10fff";
    let time: u32 = 123456;
    let ct = ClientTransaction::new(key_bytes.clone(), anim.to_string());
    let token = ct.generate_transaction_id_at("GET", "/i/api/1.1/jot/client_event.json", time);

    let hash_input = format!(
        "GET!/i/api/1.1/jot/client_event.json!{}obfiowerehiring{}",
        time, anim
    );
    let digest = hmac_sha256::Hash::hash(hash_input.as_bytes());
    let mut payload = key_bytes.clone();
    payload.extend_from_slice(&time.to_le_bytes());
    payload.extend_from_slice(&digest[..16]);
    payload.push(3);
    let mask = digest[16];
    let mut encoded = vec![mask];
    encoded.extend(payload.iter().map(|&b| b ^ mask));
    let expected = data_encoding::BASE64
        .encode(&encoded)
        .trim_end_matches('=')
        .to_string();

    assert_eq!(token, expected);
}

#[test]
fn transaction_id_has_no_padding() {
    let ct = ClientTransaction::new(vec![1, 2, 3], "k".to_string());
    let token = ct.generate_transaction_id_at("POST", "/path", 7);
    assert!(!token.contains('='));
    assert!(!token.is_empty());
}

#[test]
fn transaction_id_depends_on_time() {
    let ct = ClientTransaction::new(vec![1, 2, 3], "k".to_string());
    let a = ct.generate_transaction_id_at("GET", "/p", 1);
    let b = ct.generate_transaction_id_at("GET", "/p", 2);
    assert_ne!(a, b);
}

#[test]
fn transaction_id_from_clock_is_well_formed() {
    let ct = ClientTransaction::new(vec![4, 5, 6], "anim".to_string());
    let token = ct.generate_transaction_id("GET", "/p");
    assert!(!token.is_empty());
    assert!(!token.contains('='));
}

#[test]
fn derive_material_end_to_end() {
    // "aGVsbG8gd29ybGQh" is base64 for "hello world!" (12 key bytes).
    let html = "<meta name=\"twitter-site-verification\" content=\"aGVsbG8gd29ybGQh\"/><svg id=\"loading-x-anim-a\"><path d=\"M0 0 0 0C1 2 3 4 5 6C7 8 9 10\"/></svg>";
    let js = "f(e[5], 16)g(e[0],16)h(e[1], 16) trailing padding";
    let material = ClientTransaction::derive_material(html, js).unwrap();
    assert_eq!(material.key_bytes, b"hello world!");
    // Row index 5 selects the space byte (32); 32 % 16 = 0 picks the first
    // of the frame's two coordinate segments.
    assert_eq!(material.inputs.frame, vec![1, 2, 3, 4, 5, 6]);
    // Key bytes 'h' (104) and 'e' (101) give factors 8 and 5.
    assert_eq!(material.inputs.factors, vec![8, 5]);
}

#[test]
fn derive_material_row_out_of_bounds() {
    let html = "<meta name=\"twitter-site-verification\" content=\"aGVsbG8gd29ybGQh\"/><svg id=\"loading-x-anim-a\"><path d=\"M0 0 0 0C1 2 3 4 5 6C7 8 9 10\"/></svg>";
    let js = "f(e[7], 16)g(e[0],16)";
    let err = ClientTransaction::derive_material(html, js).unwrap_err();
    assert!(matches!(err, Error::Parse(_)));
}

#[test]
fn derive_material_without_indices_is_missing_key() {
    let err = ClientTransaction::derive_material("<html></html>", "no patterns").unwrap_err();
    assert!(matches!(err, Error::MissingKey(_)));
}

#[test]
fn derive_material_bad_key_is_base64_error() {
    let html = "<meta name=\"twitter-site-verification\" content=\"!!!not base64!!!\"/><svg id=\"loading-x-anim-a\"><path d=\"M0 0 0 0C1 2\"/></svg>";
    let err = ClientTransaction::derive_material(html, "f(e[0], 16) padding").unwrap_err();
    assert!(matches!(err, Error::Base64(_)));
}

#[test]
fn animation_key_inputs_factors() {
    let html = "id=\"loading-x-anim\"><path d=\"M0 0 0 0C1 2\"/></svg>";
    // Key byte 0 is 0x21: row 0 -> 0x21 % 16 = 1 ... out of bounds for a
    // one-segment frame; use row byte 0x20 so the row is 0.
    let key = [0x20u8, 0x1f, 2, 3, 4, 0, 6, 7];
    let inputs =
        ClientTransaction::animation_key_inputs(&key, html, 0, &[1, 99, 2]).unwrap();
    assert_eq!(inputs.frame, vec![1, 2]);
    // Index 99 is out of range and skipped; 0x1f % 16 = 15, 2 % 16 = 2.
    assert_eq!(inputs.factors, vec![15, 2]);
}
