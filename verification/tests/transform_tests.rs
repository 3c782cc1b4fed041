use microservice::transform::{reverse_bytes, uppercase_chunk};

#[test]
fn uppercase_maps_ascii_letters_only() {
    assert_eq!(uppercase_chunk(b"hello, World! 123"), b"HELLO, WORLD! 123".to_vec());
    assert_eq!(uppercase_chunk(b""), Vec::<u8>::new());
    assert_eq!(uppercase_chunk(&[0x61, 0x7a, 0x60, 0x7b, 0xff]), vec![0x41, 0x5a, 0x60, 0x7b, 0xff]);
}

#[test]
fn uppercase_is_chunk_order_preserving() {
    let body = b"streaming bodies stay in order";
    let whole = uppercase_chunk(body);
    for split in [0usize, 1, 7, body.len()] {
        let mut pieces = uppercase_chunk(&body[..split]);
        pieces.extend_from_slice(&uppercase_chunk(&body[split..]));
        assert_eq!(pieces, whole);
    }
}

#[test]
fn reverse_reverses_bytes() {
    assert_eq!(reverse_bytes(b"abc"), b"cba".to_vec());
    assert_eq!(reverse_bytes(b""), Vec::<u8>::new());
    assert_eq!(reverse_bytes(b"x"), b"x".to_vec());
}

#[test]
fn reverse_twice_is_identity() {
    for body in [&b""[..], b"a", b"ab", b"hello world", &[0u8, 255, 3, 3, 9]] {
        assert_eq!(reverse_bytes(&reverse_bytes(body)), body.to_vec());
    }
}
