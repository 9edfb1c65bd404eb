use nifi_tls_gen::jks::{
    encode_body_at, keyed_hash, truststore_bytes, truststore_bytes_at, write_utf, JksError,
    TrustedCertEntry,
};

#[test]
fn write_utf_ascii() {
    let mut out = vec![9u8];
    write_utf(&mut out, "X.509").unwrap();
    assert_eq!(out, vec![9, 0, 5, b'X', b'.', b'5', b'0', b'9']);
}

#[test]
fn write_utf_nul_two_and_three_byte_forms() {
    let mut out = Vec::new();
    write_utf(&mut out, "\u{0}\u{e9}\u{20ac}").unwrap();
    assert_eq!(out, vec![0, 7, 0xC0, 0x80, 0xC3, 0xA9, 0xE2, 0x82, 0xAC]);
}

#[test]
fn write_utf_encodes_surrogate_halves_separately() {
    let mut out = Vec::new();
    write_utf(&mut out, "\u{1F600}").unwrap();
    assert_eq!(out, vec![0, 6, 0xED, 0xA0, 0xBD, 0xED, 0xB8, 0x80]);
}

#[test]
fn write_utf_rejects_long_strings_and_leaves_output_alone() {
    let long = "\u{20ac}".repeat(21846);
    let mut out = vec![1u8, 2];
    assert_eq!(write_utf(&mut out, &long), Err(JksError::StringTooLong));
    assert_eq!(out, vec![1, 2]);
    let fits = "a".repeat(65535);
    let mut out = Vec::new();
    write_utf(&mut out, &fits).unwrap();
    assert_eq!(out.len(), 65537);
    assert_eq!(&out[..2], &[0xFF, 0xFF]);
}

#[test]
fn body_layout_for_one_entry() {
    let entries = [TrustedCertEntry {
        alias: "ca",
        cert_der: &[0xAA, 0xBB],
    }];
    let body = encode_body_at(&entries, 0x0102030405060708).unwrap();
    let mut expected = vec![0xFE, 0xED, 0xFE, 0xED, 0, 0, 0, 2, 0, 0, 0, 1];
    expected.extend_from_slice(&[0, 0, 0, 2]);
    expected.extend_from_slice(&[0, 2, b'c', b'a']);
    expected.extend_from_slice(&[1, 2, 3, 4, 5, 6, 7, 8]);
    expected.extend_from_slice(&[0, 5, b'X', b'.', b'5', b'0', b'9']);
    expected.extend_from_slice(&[0, 0, 0, 2, 0xAA, 0xBB]);
    assert_eq!(body, expected);
}

#[test]
fn empty_truststore_body() {
    let body = encode_body_at(&[], -1).unwrap();
    assert_eq!(body, vec![0xFE, 0xED, 0xFE, 0xED, 0, 0, 0, 2, 0, 0, 0, 0]);
}

#[test]
fn long_alias_is_refused() {
    let alias = "\u{20ac}".repeat(30000);
    let entries = [TrustedCertEntry {
        alias: &alias,
        cert_der: &[1],
    }];
    assert_eq!(encode_body_at(&entries, 0), Err(JksError::StringTooLong));
    assert_eq!(truststore_bytes(&entries, "pw"), Err(JksError::StringTooLong));
}

#[test]
fn keyed_hash_concatenates_password_salt_and_body() {
    let digest = keyed_hash("changeit123", b"body");
    assert_eq!(
        digest,
        [
            134, 117, 119, 21, 84, 77, 240, 228, 141, 220, 168, 213, 195, 224, 87, 10, 88, 174, 62,
            135
        ]
    );
}

#[test]
fn truststore_is_body_then_keyed_hash() {
    let entries = [TrustedCertEntry {
        alias: "ca.nifi",
        cert_der: &[0x30, 0x03, 0x02, 0x01, 0x01],
    }];
    let file = truststore_bytes_at(&entries, "changeit123", 1700000000000).unwrap();
    let body = encode_body_at(&entries, 1700000000000).unwrap();
    assert_eq!(file.len(), body.len() + 20);
    assert_eq!(&file[..body.len()], &body[..]);
    assert_eq!(&file[body.len()..], &keyed_hash("changeit123", &body)[..]);
}

#[test]
fn truststore_with_current_time_has_the_expected_shape() {
    let entries = [TrustedCertEntry {
        alias: "ca.nifi",
        cert_der: &[1, 2, 3],
    }];
    let file = truststore_bytes(&entries, "pw").unwrap();
    assert_eq!(&file[..12], &[0xFE, 0xED, 0xFE, 0xED, 0, 0, 0, 2, 0, 0, 0, 1]);
    assert_eq!(file.len(), 12 + 4 + 9 + 8 + 7 + 4 + 3 + 20);
}
