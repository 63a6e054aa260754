use audio_io::codec::{decode, encode, is_handled, limit};

#[test]
fn limit_at_each_depth() {
    assert_eq!(limit(8), 127);
    assert_eq!(limit(16), 32767);
    assert_eq!(limit(24), 16777215);
    assert_eq!(limit(32), 2147483647);
}

#[test]
fn limit_of_other_depths_is_zero() {
    assert_eq!(limit(0), 0);
    assert_eq!(limit(12), 0);
    assert_eq!(limit(64), 0);
    assert!(!is_handled(12));
    assert!(is_handled(24));
}

#[test]
fn decode_reads_most_significant_byte_first() {
    assert_eq!(decode(&[0x12, 0x34], 16), Some(0x1234));
    assert_eq!(decode(&[0x01, 0x02, 0x03], 24), Some(0x010203));
    assert_eq!(decode(&[0x01, 0x02, 0x03, 0x04], 32), Some(0x01020304));
    assert_eq!(decode(&[0x7f], 8), Some(127));
}

#[test]
fn decode_counts_negative_levels_down_from_the_limit() {
    assert_eq!(decode(&[128], 8), Some(-1));
    assert_eq!(decode(&[129], 8), Some(-2));
    assert_eq!(decode(&[255], 8), Some(-128));
    assert_eq!(decode(&[0x80, 0x00], 16), Some(-1));
    assert_eq!(decode(&[0xff, 0xff], 16), Some(-32768));
    assert_eq!(decode(&[0x80, 0, 0, 0], 32), Some(-1));
    assert_eq!(decode(&[0xff, 0xff, 0xff, 0xff], 32), Some(i32::MIN));
}

#[test]
fn decode_at_24_bits_is_never_negative() {
    assert_eq!(decode(&[0xff, 0xff, 0xff], 24), Some(16777215));
    assert_eq!(decode(&[0x80, 0x00, 0x00], 24), Some(0x800000));
}

#[test]
fn decode_refuses_wrong_width_and_unhandled_depth() {
    assert_eq!(decode(&[1, 2], 8), None);
    assert_eq!(decode(&[1], 16), None);
    assert_eq!(decode(&[], 8), None);
    assert_eq!(decode(&[1], 12), None);
    assert_eq!(decode(&[], 0), None);
    assert_eq!(decode(&[1, 2, 3, 4, 5], 40), None);
}

#[test]
fn encode_packs_least_significant_byte_first() {
    assert_eq!(encode(1, 16), Some(vec![1, 0]));
    assert_eq!(encode(0x1234, 16), Some(vec![0x34, 0x12]));
    assert_eq!(encode(0x123456, 24), Some(vec![0x56, 0x34, 0x12]));
    assert_eq!(encode(0x01020304, 32), Some(vec![4, 3, 2, 1]));
    assert_eq!(encode(100, 8), Some(vec![100]));
}

#[test]
fn encode_takes_the_low_bytes_of_twos_complement() {
    assert_eq!(encode(-127, 8), Some(vec![0x81]));
    assert_eq!(encode(-1, 16), Some(vec![0xff, 0xff]));
    assert_eq!(encode(-2, 24), Some(vec![0xfe, 0xff, 0xff]));
    assert_eq!(encode(i32::MIN, 32), Some(vec![0, 0, 0, 0x80]));
    assert_eq!(encode(0x1ff, 8), Some(vec![0xff]));
}

#[test]
fn encode_refuses_unhandled_depth() {
    assert_eq!(encode(1, 0), None);
    assert_eq!(encode(1, 12), None);
    assert_eq!(encode(1, 64), None);
}

fn there_and_back(level: i32, bit_depth: u32) -> i32 {
    let mut bytes = encode(level, bit_depth).unwrap();
    bytes.reverse();
    decode(&bytes, bit_depth).unwrap()
}

#[test]
fn round_trip_of_levels_from_zero_to_the_limit() {
    for bit_depth in [8u32, 16, 24, 32] {
        let top = limit(bit_depth) as i32;
        for level in [0, 1, 2, 63, 64, 100, top / 2, top - 1, top] {
            assert_eq!(there_and_back(level, bit_depth), level);
        }
    }
}

#[test]
fn round_trip_at_8_bits_needs_no_turning() {
    for level in 0..=127 {
        let bytes = encode(level, 8).unwrap();
        assert_eq!(decode(&bytes, 8), Some(level));
    }
}

#[test]
fn round_trip_of_amplitudes_stays_within_one_step() {
    for bit_depth in [8u32, 16, 32] {
        let top = limit(bit_depth) as f64;
        for v in [0.0f64, 0.1, 0.25, 0.5, 0.75, 0.999, 1.0] {
            let level = (v * top).round() as i32;
            let back = there_and_back(level, bit_depth) as f64 / top;
            assert!((back - v).abs() <= 1.0 / top);
        }
    }
}

#[test]
fn negative_levels_come_back_folded() {
    assert_eq!(there_and_back(-127, 8), -2);
    assert_eq!(there_and_back(-1, 8), -128);
    assert_eq!(there_and_back(-32767, 16), -2);
    assert_eq!(there_and_back(-1, 32), i32::MIN);
    assert_eq!(there_and_back(-1, 24), 16777215);
}

#[test]
fn bytes_of_more_than_one_byte_do_not_read_back_unturned() {
    let bytes = encode(1, 16).unwrap();
    assert_eq!(decode(&bytes, 16), Some(256));
}
