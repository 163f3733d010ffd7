use fee_history::quantity::{decode_u128, decode_u64, encode_u128, encode_u64};

#[test]
fn zero_is_written_with_one_digit() {
    assert_eq!(encode_u128(0), "0x0");
    assert_eq!(encode_u64(0), "0x0");
}

#[test]
fn quantities_are_written_without_leading_zeros() {
    assert_eq!(encode_u128(1), "0x1");
    assert_eq!(encode_u128(15), "0xf");
    assert_eq!(encode_u128(16), "0x10");
    assert_eq!(encode_u128(255), "0xff");
    assert_eq!(encode_u128(256), "0x100");
    assert_eq!(encode_u128(875000000), "0x342770c0");
    assert_eq!(encode_u128(765625000), "0x2da282a8");
    assert_eq!(encode_u64(5896527), "0x59f94f");
}

#[test]
fn the_largest_quantities_are_written_in_full() {
    assert_eq!(encode_u64(u64::MAX), "0xffffffffffffffff");
    assert_eq!(encode_u128(u64::MAX as u128 + 1), "0x10000000000000000");
    assert_eq!(encode_u128(u128::MAX), "0xffffffffffffffffffffffffffffffff");
}

#[test]
fn written_digits_are_lower_case() {
    assert_eq!(encode_u128(0xABCDEF), "0xabcdef");
}

#[test]
fn canonical_text_is_read() {
    assert_eq!(decode_u128("0x0"), Some(0));
    assert_eq!(decode_u128("0x1"), Some(1));
    assert_eq!(decode_u128("0x342770c0"), Some(875000000));
    assert_eq!(decode_u128("0x2da282a8"), Some(765625000));
    assert_eq!(decode_u128("0x4cb8cf181"), Some(20594880897));
    assert_eq!(decode_u64("0x59f94f"), Some(5896527));
}

#[test]
fn digits_of_either_case_are_read() {
    assert_eq!(decode_u128("0xff"), Some(255));
    assert_eq!(decode_u128("0xFF"), Some(255));
    assert_eq!(decode_u128("0xaBcDeF"), Some(0xabcdef));
    assert_eq!(decode_u64("0xA"), Some(10));
}

#[test]
fn leading_zeros_are_read() {
    assert_eq!(decode_u128("0x00"), Some(0));
    assert_eq!(decode_u128("0x00ff"), Some(255));
    assert_eq!(
        decode_u128("0x0000ffffffffffffffffffffffffffffffff"),
        Some(u128::MAX)
    );
    assert_eq!(decode_u64("0x000000000000000000001"), Some(1));
}

#[test]
fn text_without_the_prefix_is_not_read() {
    assert_eq!(decode_u128(""), None);
    assert_eq!(decode_u128("0"), None);
    assert_eq!(decode_u128("1f"), None);
    assert_eq!(decode_u128("x1f"), None);
    assert_eq!(decode_u128("0X1f"), None);
    assert_eq!(decode_u128("1x1f"), None);
    assert_eq!(decode_u128("875000000"), None);
}

#[test]
fn a_prefix_without_digits_is_not_read() {
    assert_eq!(decode_u128("0x"), None);
    assert_eq!(decode_u64("0x"), None);
}

#[test]
fn other_characters_are_not_read() {
    assert_eq!(decode_u128("0x1g"), None);
    assert_eq!(decode_u128("0xg1"), None);
    assert_eq!(decode_u128("0x 1"), None);
    assert_eq!(decode_u128(" 0x1"), None);
    assert_eq!(decode_u128("0x1 "), None);
    assert_eq!(decode_u128("0x-1"), None);
    assert_eq!(decode_u128("0x1_0"), None);
    assert_eq!(decode_u128("0x0x1"), None);
    assert_eq!(decode_u128("0x/"), None);
    assert_eq!(decode_u128("0x:"), None);
    assert_eq!(decode_u128("0x@"), None);
    assert_eq!(decode_u128("0xG"), None);
    assert_eq!(decode_u128("0x`"), None);
}

#[test]
fn text_outside_ascii_is_not_read() {
    assert_eq!(decode_u128("0x\u{ff11}"), None);
    assert_eq!(decode_u128("0x1\u{e9}"), None);
    assert_eq!(decode_u64("\u{ff10}x1"), None);
}

#[test]
fn the_width_bounds_what_is_read() {
    assert_eq!(decode_u64("0xffffffffffffffff"), Some(u64::MAX));
    assert_eq!(decode_u64("0x10000000000000000"), None);
    assert_eq!(decode_u64("0xfffffffffffffffff"), None);
    assert_eq!(
        decode_u128("0xffffffffffffffffffffffffffffffff"),
        Some(u128::MAX)
    );
    assert_eq!(decode_u128("0x100000000000000000000000000000000"), None);
    assert_eq!(decode_u128("0xfffffffffffffffffffffffffffffffff"), None);
    assert_eq!(decode_u128("0x10000000000000000"), Some(1u128 << 64));
}

#[test]
fn too_large_a_number_is_not_read_whatever_follows() {
    assert_eq!(decode_u64("0xffffffffffffffffffffg"), None);
    assert_eq!(decode_u64("0xfffffffffffffffff0000"), None);
}

#[test]
fn what_is_written_is_read_back() {
    let samples: Vec<u128> = vec![
        0,
        1,
        9,
        10,
        15,
        16,
        17,
        255,
        256,
        4095,
        4096,
        875000000,
        u64::MAX as u128,
        u64::MAX as u128 + 1,
        u128::MAX - 1,
        u128::MAX,
    ];
    for v in samples {
        assert_eq!(decode_u128(&encode_u128(v)), Some(v));
    }
    let narrow: Vec<u64> = vec![0, 1, 15, 16, 5896527, u64::MAX - 1, u64::MAX];
    for v in narrow {
        assert_eq!(decode_u64(&encode_u64(v)), Some(v));
        assert_eq!(encode_u64(v), encode_u128(v as u128));
    }
}
