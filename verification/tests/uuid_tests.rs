use crewgame::uuid::UUID;

fn sample_bytes() -> [u8; 16] {
    [0x00, 0x01, 0x0a, 0x0f, 0x10, 0x2b, 0x3c, 0x4d, 0x5e, 0x6f, 0x80, 0x9a, 0xab, 0xbc, 0xcd, 0xff]
}

#[test]
fn to_hex_writes_two_lowercase_digits_per_byte() {
    let u = UUID { v: sample_bytes() };
    let hex = u.to_hex();
    assert_eq!(hex, b"00010a0f102b3c4d5e6f809aabbccdff".to_vec());
}

#[test]
fn from_hex_round_trips_all_sample_bytes() {
    let u = UUID { v: sample_bytes() };
    let hex = u.to_hex();
    let back = UUID::from_hex(&hex).expect("the encoding of a UUID must parse");
    assert_eq!(back.v, sample_bytes());
}

#[test]
fn from_hex_accepts_upper_case() {
    let u = UUID::from_hex(b"00010A0F102B3C4D5E6F809AABBCCDFF").expect("upper case hex parses");
    assert_eq!(u.v, sample_bytes());
}

#[test]
fn from_hex_rejects_31_characters() {
    assert!(UUID::from_hex(b"00010a0f102b3c4d5e6f809aabbccdf").is_none());
}

#[test]
fn from_hex_rejects_33_characters() {
    assert!(UUID::from_hex(b"00010a0f102b3c4d5e6f809aabbccdff0").is_none());
}

#[test]
fn from_hex_rejects_a_non_hex_character() {
    assert!(UUID::from_hex(b"00010a0f102b3c4d5e6f809aabbccdfg").is_none());
    assert!(UUID::from_hex(b"+0010a0f102b3c4d5e6f809aabbccdff").is_none());
}

#[test]
fn random_uuid_encodes_to_32_characters_and_round_trips() {
    let u = UUID::random();
    let hex = u.to_hex();
    assert_eq!(hex.len(), 32);
    let back = UUID::from_hex(&hex).expect("the encoding of a random UUID must parse");
    assert_eq!(back.v, u.v);
}
