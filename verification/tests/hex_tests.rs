use william3::hex::bytes_to_hex;
use william3::Digest;

#[test]
fn hex_of_no_bytes_is_empty() {
    assert_eq!(bytes_to_hex(&[]), "");
}

#[test]
fn hex_has_two_lowercase_digits_per_byte() {
    assert_eq!(bytes_to_hex(&[0x00]), "00");
    assert_eq!(bytes_to_hex(&[0x0a]), "0a");
    assert_eq!(bytes_to_hex(&[0xa0]), "a0");
    assert_eq!(bytes_to_hex(&[0xff]), "ff");
    assert_eq!(bytes_to_hex(&[0x01, 0x23, 0x45, 0x67, 0x89, 0xab, 0xcd, 0xef]), "0123456789abcdef");
}

#[test]
fn hex_puts_the_high_nibble_first() {
    assert_eq!(bytes_to_hex(&[0x1f]), "1f");
    assert_eq!(bytes_to_hex(&[0xf1]), "f1");
}

#[test]
fn hex_agrees_with_std_formatting_on_every_byte() {
    for b in 0u16..256 {
        let b = b as u8;
        assert_eq!(bytes_to_hex(&[b]), format!("{:02x}", b));
    }
}

#[test]
fn hex_keeps_the_order_of_the_bytes() {
    let bytes: Vec<u8> = (0u16..256).map(|b| b as u8).collect();
    let expected: String = bytes.iter().map(|b| format!("{:02x}", b)).collect();
    let text = bytes_to_hex(&bytes);
    assert_eq!(text.len(), 512);
    assert_eq!(text, expected);
}

#[test]
fn hex_of_different_bytes_differs() {
    assert_ne!(bytes_to_hex(&[0x12, 0x34]), bytes_to_hex(&[0x12, 0x35]));
    assert_ne!(bytes_to_hex(&[0x12, 0x34]), bytes_to_hex(&[0x34, 0x12]));
    assert_ne!(bytes_to_hex(&[0x00]), bytes_to_hex(&[0x00, 0x00]));
}

#[test]
fn hex_uses_no_separators_and_no_upper_case() {
    let text = bytes_to_hex(&[0xde, 0xad, 0xbe, 0xef, 0x00, 0x7f]);
    assert_eq!(text, "deadbeef007f");
    assert!(text.chars().all(|c| matches!(c, '0'..='9' | 'a'..='f')));
}

#[test]
fn digest_keeps_its_bytes() {
    let mut bytes = [0u8; 32];
    for (i, b) in bytes.iter_mut().enumerate() {
        *b = (i * 7 + 1) as u8;
    }
    let d = Digest::from_bytes(bytes);
    assert_eq!(d.as_bytes(), &bytes);
    assert_eq!(d.into_bytes(), bytes);
    assert_eq!(d, Digest::from_bytes(bytes));
    let mut other = bytes;
    other[31] ^= 1;
    assert_ne!(d, Digest::from_bytes(other));
}

#[test]
fn digest_text_form_has_sixty_four_digits() {
    let d = Digest::from_bytes([0xab; 32]);
    let text = d.to_hex();
    assert_eq!(text.len(), 64);
    assert_eq!(text, "ab".repeat(32));
    assert_eq!(text, bytes_to_hex(d.as_bytes()));
}
