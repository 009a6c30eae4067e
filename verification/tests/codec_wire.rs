use parity_codec::{Compact, Encode};
use yee_node::codec::{
    byte_width_u64, decode_byte_vec, decode_compact_u128, decode_compact_u32, decode_compact_u64,
    encode_byte_vec, encode_compact_u64,
};

fn my_compact(v: u64) -> Vec<u8> {
    let mut out = Vec::new();
    encode_compact_u64(&mut out, v);
    out
}

#[test]
fn compact_encoding_matches_the_reference_codec() {
    for v in [
        0u64,
        1,
        63,
        64,
        16383,
        16384,
        0x3fffffff,
        0x40000000,
        0xffffffff,
        0x100000000,
        0xffffffffffff,
        u64::MAX,
    ] {
        assert_eq!(my_compact(v), Compact(v).encode(), "value {v}");
    }
}

#[test]
fn compact_round_trips_through_the_decoder() {
    for v in [0u64, 5, 63, 64, 1000, 16384, 1 << 30, 1 << 40, u64::MAX] {
        let bytes = my_compact(v);
        let (got, p) = decode_compact_u64(&bytes, 0).unwrap();
        assert_eq!((got, p), (v, bytes.len()));
    }
}

#[test]
fn compact_u32_refuses_wide_runs() {
    // A five-byte run exceeds the 32-bit reading.
    let bytes = my_compact(0x100000000);
    assert!(decode_compact_u32(&bytes, 0).is_none());
    assert!(decode_compact_u64(&bytes, 0).is_some());
}

#[test]
fn compact_u128_reads_the_reference_encoding() {
    let v: u128 = 1 << 100;
    let bytes = Compact(v).encode();
    let (got, p) = decode_compact_u128(&bytes, 0).unwrap();
    assert_eq!((got, p), (v, bytes.len()));
}

#[test]
fn byte_vec_round_trips() {
    let payload: Vec<u8> = (0..200u16).map(|x| x as u8).collect();
    let mut out = vec![0xee];
    encode_byte_vec(&mut out, &payload);
    let (got, p) = decode_byte_vec(&out, 1).unwrap();
    assert_eq!(got, payload);
    assert_eq!(p, out.len());
    assert_eq!(&out[1..], Encode::encode(&payload).as_slice());
}

#[test]
fn truncated_inputs_are_refused() {
    let bytes = my_compact(u64::MAX);
    for cut in 0..bytes.len() {
        assert!(decode_compact_u64(&bytes[..cut], 0).is_none());
    }
}

#[test]
fn widths_follow_the_value() {
    assert_eq!(byte_width_u64(0xff), 1);
    assert_eq!(byte_width_u64(0x100), 2);
    assert_eq!(byte_width_u64(u64::MAX), 8);
}
