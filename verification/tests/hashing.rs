use rsdkv6_extract::hasher::{content_hash, hash_text, to_hex};

#[test]
fn hex_renders_two_lowercase_digits_per_byte() {
    assert_eq!(to_hex(&[0x00, 0xff, 0x1a, 0x09, 0xa0]), "00ff1a09a0");
    assert_eq!(to_hex(&[]), "");
}

#[test]
fn digest_of_empty_input() {
    assert_eq!(content_hash(b""), "d41d8cd98f00b204e9800998ecf8427e");
}

#[test]
fn digest_of_abc() {
    assert_eq!(content_hash(b"abc"), "900150983cd24fb0d6963f7d28e17f72");
    assert_eq!(hash_text("abc"), "900150983cd24fb0d6963f7d28e17f72");
}

#[test]
fn digest_agrees_with_the_md5_crate() {
    let expected = format!("{:x}", md5::compute("sounds/jump.wav"));
    assert_eq!(hash_text("sounds/jump.wav"), expected);
    assert_eq!(expected.len(), 32);
}

#[test]
fn hasher_does_not_fold_case() {
    assert_ne!(hash_text("ABC"), hash_text("abc"));
}

#[test]
fn digest_text_is_thirty_two_lowercase_hex_digits() {
    for data in [&b""[..], b"abc", b"Sounds/Jump.wav", &[0u8, 255, 128, 7]] {
        let text = content_hash(data);
        assert_eq!(text.len(), 32);
        assert!(text.chars().all(|c| matches!(c, '0'..='9' | 'a'..='f')));
    }
}

#[test]
fn digest_bytes_come_in_their_own_order() {
    let digest = md5::compute(b"abc").0;
    assert_eq!(content_hash(b"abc"), to_hex(&digest));
    assert_eq!(&content_hash(b"abc")[0..2], format!("{:02x}", digest[0]));
    assert_eq!(&content_hash(b"abc")[30..32], format!("{:02x}", digest[15]));
}
