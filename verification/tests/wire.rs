//! Wire-format tests: the 48-byte pose datagram.

use head_tracker::emitter::{decode, emit, WIRE_LEN};

#[test]
fn test_socket_network() {
    // The payload the emitter produces for the pose [1.0 .. 6.0] decodes
    // back to the same six values.
    let pose: [f64; 6] = [1.0, 2.0, 3.0, 4.0, 5.0, 6.0];
    let bits: [u64; 6] = [
        pose[0].to_bits(),
        pose[1].to_bits(),
        pose[2].to_bits(),
        pose[3].to_bits(),
        pose[4].to_bits(),
        pose[5].to_bits(),
    ];
    let bytes = emit(&bits);
    assert_eq!(bytes.len(), 48);
    assert_eq!(bytes.len(), WIRE_LEN);
    let words = decode(&bytes);
    assert_eq!(words.len(), 6);
    for i in 0..6 {
        assert_eq!(f64::from_bits(words[i]), pose[i]);
    }
}

#[test]
fn emit_exact_little_endian_bytes() {
    // 1.0f64 is 0x3FF0000000000000: little-endian low bytes first.
    let bits: [u64; 6] = [1.0f64.to_bits(), 0, 0, 0, 0, 0];
    let bytes = emit(&bits);
    assert_eq!(&bytes[0..8], &[0, 0, 0, 0, 0, 0, 0xF0, 0x3F]);
    for b in &bytes[8..48] {
        assert_eq!(*b, 0u8);
    }
}

#[test]
fn emit_round_trip_varied_bits() {
    let bits: [u64; 6] = [
        0,
        u64::MAX,
        0x0123_4567_89AB_CDEF,
        42,
        (-3.5f64).to_bits(),
        f64::INFINITY.to_bits(),
    ];
    let bytes = emit(&bits);
    assert_eq!(bytes.len(), 48);
    let words = decode(&bytes);
    for i in 0..6 {
        assert_eq!(words[i], bits[i]);
    }
}
