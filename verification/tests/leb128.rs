use asciinema::leb128::encode;

#[test]
fn test_encode() {
    assert_eq!(encode(0u64), [0x00]);
    assert_eq!(encode(1u64), [0x01]);
    assert_eq!(encode(127u64), [0x7F]);
    assert_eq!(encode(128u64), [0x80, 0x01]);
    assert_eq!(encode(255u64), [0xFF, 0x01]);
    assert_eq!(encode(256u64), [0x80, 0x02]);
    assert_eq!(encode(16383u64), [0xFF, 0x7F]);
    assert_eq!(encode(16384u64), [0x80, 0x80, 0x01]);
}

#[test]
fn encode_max_value_takes_ten_bytes() {
    let bytes = encode(u64::MAX);
    assert_eq!(bytes.len(), 10);
    assert_eq!(bytes[9], 0x01);
    assert!(bytes[..9].iter().all(|b| *b == 0xFF));
}

fn decode(bytes: &[u8]) -> u64 {
    bytes
        .iter()
        .rev()
        .fold(0u64, |acc, b| (acc << 7) | (*b as u64 & 0x7f))
}

#[test]
fn encode_then_decode_gives_the_value_back() {
    for v in [0u64, 5, 127, 128, 300, 1_000_000, 1 << 40, u64::MAX] {
        assert_eq!(decode(&encode(v)), v);
    }
}
