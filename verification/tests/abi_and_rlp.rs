use afn::abi_decode::AbiDecodeError;
use afn::abi_encode::{pad_right_to_multiple_of_32_bytes, AbiEncode};
use afn::abi_types::{Type, Value};
use afn::bytes::{prepend, Bytes, Bytes32, BytesDecodeError, SizedBytes};
use afn::hex::{decode, encode, hex_number};
use afn::rlp::{minimal_be_bytes, rlp_encode_bytes, rlp_encode_list, trim_bytes, RlpEncodable, RlpStream};
use afn::u256::{TryFromU256Error, U256};

fn word(n: u8) -> Vec<u8> {
    let mut w = vec![0u8; 32];
    w[31] = n;
    w
}

#[test]
fn abi_encodes_a_tuple_with_a_dynamic_field() {
    let v = Value::Tuple(vec![
        Value::U256(U256::new(1)),
        Value::Bytes(Bytes(vec![0xab])),
        Value::Bool(true),
    ]);
    let enc = v.abi_encode();
    let mut expected = Vec::new();
    expected.extend(word(1));
    expected.extend(word(0x60));
    expected.extend(word(1));
    expected.extend(word(1));
    let mut data = vec![0u8; 32];
    data[0] = 0xab;
    expected.extend(data);
    assert_eq!(enc.0, expected);
}

#[test]
fn abi_decode_gives_back_what_was_encoded() {
    let t = Type::Tuple(vec![
        Type::U64,
        Type::Bytes,
        Type::DynamicArray(Box::new(Type::Address)),
        Type::String,
        Type::Bytes32,
    ]);
    let v = Value::Tuple(vec![
        Value::U64(77),
        Value::Bytes(Bytes(vec![1, 2, 3])),
        Value::DynamicArray(vec![
            Value::Address(SizedBytes([0x11; 20])),
            Value::Address(SizedBytes([0x22; 20])),
        ]),
        Value::String("hello".to_string()),
        Value::Bytes32(SizedBytes([7; 32])),
    ]);
    let expected = Value::Tuple(vec![
        Value::U64(77),
        Value::Bytes(Bytes(vec![1, 2, 3])),
        Value::DynamicArray(vec![
            Value::Address(SizedBytes([0x11; 20])),
            Value::Address(SizedBytes([0x22; 20])),
        ]),
        Value::String("hello".to_string()),
        Value::Bytes32(SizedBytes([7; 32])),
    ]);
    let enc = v.abi_encode();
    assert_eq!(t.decode(&enc.0), Ok(expected));
}

#[test]
fn abi_single_bytes_value_is_wrapped_as_a_tuple() {
    let enc = Value::Bytes(Bytes(vec![9])).abi_encode();
    assert_eq!(enc.0.len(), 96);
    assert_eq!(&enc.0[0..32], word(0x20).as_slice());
    assert_eq!(Type::Bytes.decode(&enc.0), Ok(Value::Bytes(Bytes(vec![9]))));
}

#[test]
fn abi_decode_errors() {
    assert_eq!(Type::Bool.decode(&word(2)), Err(AbiDecodeError::InvalidBoolEncoding));
    let mut big = vec![0u8; 32];
    big[30] = 1;
    assert_eq!(Type::U8.decode(&big), Err(AbiDecodeError::InvalidUintEncoding));
    assert_eq!(Type::U256.decode(&[0u8; 31]), Err(AbiDecodeError::InvalidEncodingSize));
    let mut two = word(5);
    two.extend(word(6));
    assert_eq!(Type::U256.decode(&two), Err(AbiDecodeError::InvalidEncodingSize));
    let mut addr = vec![0u8; 32];
    addr[0] = 1;
    assert_eq!(Type::Address.decode(&addr), Err(AbiDecodeError::InvalidAddressEncoding));
    assert_eq!(Type::Bool.decode(&word(1)), Ok(Value::Bool(true)));
}

#[test]
fn abi_pads_to_words() {
    assert_eq!(pad_right_to_multiple_of_32_bytes(&[1, 2]).len(), 32);
    assert_eq!(pad_right_to_multiple_of_32_bytes(&[]).len(), 0);
    assert_eq!(pad_right_to_multiple_of_32_bytes(&[0u8; 33]).len(), 64);
}

#[test]
fn rlp_known_encodings() {
    assert_eq!(rlp_encode_bytes(&[]), vec![0x80]);
    assert_eq!(rlp_encode_bytes(&[0x7f]), vec![0x7f]);
    assert_eq!(rlp_encode_bytes(&[0x80]), vec![0x81, 0x80]);
    assert_eq!(rlp_encode_bytes(b"dog"), vec![0x83, b'd', b'o', b'g']);
    let long = vec![0x61u8; 56];
    let enc = rlp_encode_bytes(&long);
    assert_eq!(&enc[0..2], &[0xb8, 56]);
    assert_eq!(rlp_encode_list(&[]), vec![0xc0]);
    assert_eq!(minimal_be_bytes(0), Vec::<u8>::new());
    assert_eq!(minimal_be_bytes(1024), vec![0x04, 0x00]);
    assert_eq!(trim_bytes(&[0, 0, 5, 0]), &[5, 0]);
    assert_eq!(1024u64.to_rlp_bytes(), vec![0x82, 0x04, 0x00]);
    assert_eq!(U256::new(0).to_rlp_bytes(), vec![0x80]);
    assert_eq!(U256::new(15).to_rlp_bytes(), vec![0x0f]);
}

#[test]
fn rlp_stream_of_a_list() {
    let mut s = RlpStream::new();
    s.push(&Bytes(b"cat".to_vec()));
    s.push(&Bytes(b"dog".to_vec()));
    assert_eq!(
        s.finalize_with_length_prefix(),
        vec![0xc8, 0x83, b'c', b'a', b't', 0x83, b'd', b'o', b'g']
    );
    assert_eq!(s.finalize_without_length_prefix().len(), 8);
    let v: Vec<u64> = vec![1, 2, 3];
    assert_eq!(v.to_rlp_bytes(), vec![0xc3, 1, 2, 3]);
    assert_eq!(prepend(2, &[5, 6]), vec![2, 5, 6]);
}

#[test]
fn hex_encode_decode() {
    assert_eq!(encode(&[]), "0x");
    assert_eq!(decode("0xABcd"), Some(vec![0xab, 0xcd]));
    assert_eq!(decode("abc"), Some(vec![0x0a, 0xbc]));
    assert_eq!(decode("0xg0"), None);
    assert_eq!(hex_number(255), "0xff");
    assert_eq!(hex_number(0), "0x0");
    let bytes: Vec<u8> = (0u8..=255).collect();
    assert_eq!(decode(&encode(&bytes)), Some(bytes));
}

#[test]
fn sized_bytes_from_text() {
    let b = Bytes32::from_str(&format!("0x{}", "ab".repeat(32))).unwrap();
    assert_eq!(b.0, [0xab; 32]);
    assert_eq!(b.to_string(), format!("0x{}", "ab".repeat(32)));
    assert_eq!(Bytes32::from_str("0x01").err(), Some(BytesDecodeError::InvalidSize));
    assert_eq!(Bytes32::from_str("0xzz").err(), Some(BytesDecodeError::InvalidHex));
    assert_eq!(Bytes::from_str("0x0102").unwrap(), Bytes(vec![1, 2]));
    assert_eq!(Bytes::from_str("q").err(), Some(BytesDecodeError::InvalidHex));
    assert_eq!(Bytes(vec![1, 255]).to_string(), "0x01ff");
}

#[test]
fn u256_conversions() {
    let max = U256::max_value();
    assert_eq!(max.to_u128(), Err(TryFromU256Error::Overflow));
    assert_eq!(U256::new(300).to_u8(), Err(TryFromU256Error::Overflow));
    assert_eq!(U256::new(300).to_u16(), Ok(300));
    assert_eq!(U256::new(u64::MAX as u128).to_u64(), Ok(u64::MAX));
    assert_eq!(U256::new(u64::MAX as u128 + 1).to_u64(), Err(TryFromU256Error::Overflow));
    assert_eq!(U256::min_value(), U256::new(0));
    let w = U256::new(258).to_word();
    assert_eq!(w.len(), 32);
    assert_eq!(&w[30..], &[1, 2]);
    assert_eq!(max.to_be_bytes(), [0xff; 32]);
}
