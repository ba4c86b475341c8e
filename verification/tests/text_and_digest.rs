use order_api::digest::hash_body;
use order_api::text::{decimal_string, hex_encode, push_text};

#[test]
fn decimal_rendering() {
    assert_eq!(decimal_string(0), "0");
    assert_eq!(decimal_string(7), "7");
    assert_eq!(decimal_string(10), "10");
    assert_eq!(decimal_string(429), "429");
    assert_eq!(decimal_string(u64::MAX), "18446744073709551615");
}

#[test]
fn hex_rendering() {
    assert_eq!(hex_encode(&[]), "");
    assert_eq!(hex_encode(&[0x00, 0x0f, 0xa0, 0xff]), "000fa0ff");
}

#[test]
fn push_text_appends() {
    let mut s = String::from("ab");
    push_text(&mut s, "cé");
    assert_eq!(s, "abcé");
}

#[test]
fn body_hash_is_sha256_hex() {
    assert_eq!(hash_body(""), "e3b0c44298fc1c149afbf4c8996fb92427ae41e4649b934ca495991b7852b855");
    assert_eq!(hash_body("abc"), "ba7816bf8f01cfea414140de5dae2223b00361a396177a9cb410ff61f20015ad");
}

#[test]
fn body_hash_depends_on_every_byte() {
    let a = hash_body("{\"customer_id\":\"cust-1\",\"item_id\":\"item-1\",\"quantity\":3}");
    let b = hash_body("{\"customer_id\":\"cust-1\",\"item_id\":\"item-1\",\"quantity\":4}");
    assert_eq!(a.len(), 64);
    assert_ne!(a, b);
    assert_eq!(a, hash_body("{\"customer_id\":\"cust-1\",\"item_id\":\"item-1\",\"quantity\":3}"));
}

#[test]
fn body_hash_is_lower_case_hex() {
    for body in ["", "a", "{\"quantity\":1}", "é"] {
        let h = hash_body(body);
        assert_eq!(h.len(), 64);
        assert!(h.chars().all(|c| c.is_ascii_digit() || ('a'..='f').contains(&c)));
    }
    assert_ne!(hash_body("a"), hash_body("b"));
}

#[test]
fn hex_rendering_tells_bytes_apart() {
    assert_ne!(hex_encode(&[0x01, 0x23]), hex_encode(&[0x12, 0x03]));
    assert_ne!(hex_encode(&[0x00]), hex_encode(&[0x00, 0x00]));
}
