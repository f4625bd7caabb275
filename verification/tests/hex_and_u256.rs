use afn::hex::{decode, encode};
use afn::u256::U256;

#[test]
fn hex_round_trip() {
    let bytes = vec![0x00u8, 0x01, 0xab, 0xff];
    let s = encode(&bytes);
    assert_eq!(s, "0x0001abff");
    assert_eq!(decode(&s), Some(bytes));
}

#[test]
fn u256_be_bytes_round_trip() {
    let x = U256::new(0x0102_0304_0506_0708_090a_0b0c_0d0e_0f10u128);
    let b = x.to_be_bytes();
    assert_eq!(b[31], 0x10);
    assert_eq!(b[0], 0);
    let y = U256::from_be_bytes(b);
    assert_eq!(y.lo, x.lo);
    assert_eq!(y.hi, x.hi);
}

#[test]
fn u256_text_of_small_values() {
    assert_eq!(U256::new(255).to_string(), "0xff");
    assert_eq!(U256::new(0).to_string(), "0x0");
    assert_eq!(afn::hex::hex_number(4096), "0x1000");
}

#[test]
fn u256_text_joins_the_halves() {
    let x = U256 { hi: 1, lo: 1 };
    assert_eq!(x.to_string(), "0x11");
    let y = U256 { hi: 1, lo: 0x1000_0000_0000_0000_0000_0000_0000_0000u128 };
    let t = y.to_string();
    assert_eq!(t, "0x110000000000000000000000000000000");
    let back = U256::from_str(&t).unwrap();
    assert_eq!(back.hi, 1);
    assert_eq!(back.lo, y.lo);
}

#[test]
fn u256_from_text() {
    let x = U256::from_str("0x0100").unwrap();
    assert_eq!(x.lo, 256);
    assert_eq!(x.hi, 0);
    let y = U256::from_str("ff").unwrap();
    assert_eq!(y.lo, 255);
    let long = format!("0x{}", "11".repeat(33));
    assert_eq!(U256::from_str(&long).err(), Some(afn::bytes::BytesDecodeError::InvalidSize));
    assert_eq!(U256::from_str("0xzz").err(), Some(afn::bytes::BytesDecodeError::InvalidHex));
    let full = format!("0x{}", "ff".repeat(32));
    let m = U256::from_str(&full).unwrap();
    assert_eq!(m.hi, u128::MAX);
    assert_eq!(m.lo, u128::MAX);
}
