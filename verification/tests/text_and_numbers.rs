use rbuilder::text::{push_decimal, push_hex, push_hex_bytes, push_uuid};
use rbuilder::uint::U256;

#[test]
fn decimal_numerals() {
    for n in [0u64, 1, 9, 10, 11, 99, 100, 101, 1_234_567_890, u64::MAX - 1, u64::MAX] {
        let mut out = String::from("n=");
        push_decimal(&mut out, n);
        assert_eq!(out, format!("n={}", n));
    }
}

#[test]
fn wide_numbers_from_narrow_ones() {
    assert_eq!(U256::from_u128(0).limbs, [0, 0, 0, 0]);
    assert_eq!(U256::from_u128(7).limbs, [7, 0, 0, 0]);
    assert_eq!(U256::from_u128(u128::MAX).limbs, [u64::MAX, u64::MAX, 0, 0]);
    assert_eq!(U256::from_u128(1 << 64).limbs, [0, 1, 0, 0]);
}

#[test]
fn narrow_numbers_from_wide_ones() {
    assert_eq!(U256 { limbs: [u64::MAX, 0, 0, 0] }.to_u64(), Some(u64::MAX));
    assert_eq!(U256 { limbs: [5, 0, 0, 0] }.to_u64(), Some(5));
    assert_eq!(U256 { limbs: [5, 1, 0, 0] }.to_u64(), None);
    assert_eq!(U256 { limbs: [5, 0, 1, 0] }.to_u64(), None);
    assert_eq!(U256 { limbs: [0, 0, 0, 1] }.to_u64(), None);
}

#[test]
fn hexadecimal_digits() {
    let mut out = String::new();
    push_hex(&mut out, 0x1234_5678_9abc_def0, 16);
    push_hex(&mut out, 0x1234, 2);
    push_hex(&mut out, 5, 0);
    push_hex(&mut out, 5, 3);
    assert_eq!(out, "123456789abcdef034005");
    let mut out = String::from("0x");
    push_hex_bytes(&mut out, &[0, 1, 0x7f, 0x80, 0xff]);
    push_hex_bytes(&mut out, &[]);
    assert_eq!(out, "0x00017f80ff");
}

#[test]
fn uuids_show_as_the_uuid_crate_shows_them() {
    for n in [0, 1, 0xa1a2a3a4b1b2c1c2d1d2d3d4d5d6d7d8, u128::MAX] {
        let mut out = String::new();
        push_uuid(&mut out, n);
        assert_eq!(out, format!("{:?}", uuid::Uuid::from_u128(n)));
    }
}

#[test]
fn addresses_show_as_alloy_shows_them() {
    let bytes = [0xd8, 0xda, 0x6b, 0xf2, 0, 1, 2, 3, 4, 5, 6, 7, 8, 9, 10, 11, 12, 13, 14, 0xff];
    let mut out = String::from("0x");
    push_hex_bytes(&mut out, &bytes);
    assert_eq!(out, format!("{:?}", alloy_primitives::Address::from(bytes)));
}
