use dlnzb::yenc::{decode_yenc, encode_yenc};

// Round trip: decoding an encoded body restores the payload exactly.
#[test]
fn test_round_trip_all_byte_values() {
    let mut payload: Vec<u8> = Vec::new();
    for b in 0..=255u8 {
        payload.push(b);
    }
    let encoded = encode_yenc(&payload);
    assert_eq!(decode_yenc(&encoded), payload);
}

#[test]
fn test_round_trip_empty() {
    let encoded = encode_yenc(b"");
    assert_eq!(decode_yenc(&encoded), b"".to_vec());
}

#[test]
fn test_decode_plain_body() {
    // "abc" shifted by +42 on the wire.
    let mut body = b"=ybegin line=128 size=3 name=x\n".to_vec();
    body.extend_from_slice(&[b'a' + 42, b'b' + 42, b'c' + 42]);
    body.push(b'\n');
    body.extend_from_slice(b"=yend size=3\n");
    assert_eq!(decode_yenc(&body), b"abc".to_vec());
}

#[test]
fn test_decode_escape_and_cr() {
    // An escaped byte contributes (next - 64 - 42) mod 256; CRs are
    // skipped; =ypart lines are ignored; decoding stops at =yend.
    let mut body = b"=ybegin part=1 line=128 size=2 name=x\n".to_vec();
    body.extend_from_slice(b"=ypart begin=1 end=2\n");
    body.push(b'=');
    body.push(0x4A); // escaped: (0x4A - 64 - 42) mod 256 = 224
    body.push(b'\r');
    body.push(b'a' + 42);
    body.push(b'\n');
    body.extend_from_slice(b"=yend size=2\n");
    body.extend_from_slice(b"ignored trailing line\n");
    assert_eq!(decode_yenc(&body), vec![224u8, b'a']);
}

#[test]
fn test_encode_escapes_critical_bytes() {
    // Bytes whose shifted value hits '\n', '\r' or '=' must be
    // escaped: 224 shifts to '\n', 227 to '\r', 19 to '='.
    let payload = vec![224u8, 227u8, 19u8];
    let encoded = encode_yenc(&payload);
    // Layout: "=ybegin\n" ++ escaped pairs ++ "\n=yend\n"
    let mut expected = b"=ybegin\n".to_vec();
    expected.extend_from_slice(&[b'=', 10 + 64, b'=', 13 + 64, b'=', b'=' as u8 + 64]);
    expected.push(b'\n');
    expected.extend_from_slice(b"=yend\n");
    assert_eq!(encoded, expected);
    assert_eq!(decode_yenc(&encoded), payload);
}
