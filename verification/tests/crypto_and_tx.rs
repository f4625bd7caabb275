use afn::bytes::{Address, Bytes, SizedBytes};
use afn::ecdsa::{EthereumSignature, EthereumSigner, InvalidSecretKey, LocalSigner, SecretKey};
use afn::keccak::keccak256;
use afn::rlp::RlpEncodable;
use afn::tx::{AccessListRecord, Eip1559TransactionRequest, LegacyTransaction, LegacyTransactionRequest};
use afn::tx_sender::{FeeUnit, TransactionRequest, TransactionSender, TransactionSenderFeeConfig};
use afn::u256::U256;

fn hex_of(bytes: &[u8]) -> String {
    afn::hex::encode(bytes)
}

const EIP155_KEY: &str = "4646464646464646464646464646464646464646464646464646464646464646";

fn eip155_request() -> LegacyTransactionRequest {
    LegacyTransactionRequest {
        chain_id: 1,
        nonce: U256::new(9),
        gas_price: U256::new(20_000_000_000),
        gas: U256::new(21000),
        to: Address::from_str("0x3535353535353535353535353535353535353535").unwrap(),
        value: U256::new(1_000_000_000_000_000_000),
        data: Bytes(vec![]),
    }
}

#[test]
fn keccak_of_empty_input() {
    assert_eq!(
        hex_of(&keccak256(&[])),
        "0xc5d2460186f7233c927e7db2dcc703c0e500b653ca82273b7bfad8045d85a470"
    );
}

#[test]
fn keccak_differs_from_its_input() {
    let input = [0u8; 32];
    assert_ne!(keccak256(&input), input);
}

#[test]
fn legacy_request_encoding_and_signing_hash() {
    let req = eip155_request();
    assert_eq!(
        hex_of(&req.to_rlp_bytes()),
        "0x098504a817c800825208943535353535353535353535353535353535353535880de0b6b3a764000080"
    );
    assert_eq!(
        hex_of(&req.to_signing_hash()),
        "0xdaf5a779ae972f972197303d7b574746c7ef83eadac0f2791ad23db92e4c8e53"
    );
}

#[test]
fn legacy_transaction_signed_as_in_eip155() {
    let signer = LocalSigner::from_str(EIP155_KEY).unwrap();
    let tx: LegacyTransaction = eip155_request().sign(&signer);
    assert_eq!(
        hex_of(&tx.to_rlp_bytes()),
        "0xf86c098504a817c800825208943535353535353535353535353535353535353535880de0b6b3a76400008025a028ef61340bd939bc2195fe537567866003e1a15d3c71ff63e1590620aa636276a067cbe9d8997f761aecb703304b3800ccf555c9f3dc64214b297fb1966a3b6d83"
    );
}

#[test]
fn local_signer_address() {
    let signer = LocalSigner::from_str(EIP155_KEY).unwrap();
    assert_eq!(
        signer.address().to_string(),
        "0x9d8a62f656a8d1615c1294fd71e9cfb3e4855a4f"
    );
}

#[test]
fn signing_is_deterministic() {
    let signer = LocalSigner::from_str(EIP155_KEY).unwrap();
    let a = signer.sign(b"hello");
    let b = signer.sign_hashed(keccak256(b"hello"));
    assert_eq!(a.v, b.v);
    assert_eq!(a.r, b.r);
    assert_eq!(a.s, b.s);
    assert!(a.v.lo <= 1 && a.v.hi == 0);
}

#[test]
fn secret_key_text_is_refused_when_invalid() {
    assert_eq!(LocalSigner::from_str("zz").err(), Some(InvalidSecretKey::InvalidSecretKey));
    assert_eq!(LocalSigner::from_str(&"0".repeat(64)).err(), Some(InvalidSecretKey::InvalidSecretKey));
    assert_eq!(
        LocalSigner::from_str(&format!("0x{}", EIP155_KEY)).err(),
        Some(InvalidSecretKey::InvalidSecretKey)
    );
    // the curve order itself is not a secret key
    let order = "fffffffffffffffffffffffffffffffebaaedce6af48a03bbfd25e8cd0364141";
    assert!(LocalSigner::from_str(order).is_err());
    let below = "fffffffffffffffffffffffffffffffebaaedce6af48a03bbfd25e8cd0364140";
    assert!(LocalSigner::from_str(below).is_ok());
    assert!(LocalSigner::from_str(&EIP155_KEY.to_uppercase()).is_ok());
}

#[test]
fn secret_key_from_slice() {
    assert!(SecretKey::from_slice(&[0u8; 32]).is_none());
    assert!(SecretKey::from_slice(&[1u8; 31]).is_none());
    let k = SecretKey::from_slice(&[0xcdu8; 32]).unwrap();
    assert_eq!(k.secret_bytes(), [0xcdu8; 32]);
}

#[test]
fn generated_keys_differ() {
    let a = afn::ecdsa::generate_secret_key();
    let b = afn::ecdsa::generate_secret_key();
    assert_ne!(a.secret_bytes(), b.secret_bytes());
}

#[test]
fn signature_to_legacy() {
    let sig = EthereumSignature { v: U256::new(1), r: U256::new(5), s: U256::new(6) };
    let l = sig.to_legacy(1);
    assert_eq!(l.v, U256::new(38));
    assert_eq!(l.r, U256::new(5));
    let other = EthereumSignature { v: U256::new(27), r: U256::new(5), s: U256::new(6) };
    assert_eq!(other.to_legacy(1).v, U256::new(27));
}

#[test]
fn signature_from_compact() {
    let mut compact = [0u8; 64];
    compact[31] = 7;
    compact[63] = 9;
    let sig = EthereumSignature::from_compact(1, &compact);
    assert_eq!(sig.v, U256::new(1));
    assert_eq!(sig.r, U256::new(7));
    assert_eq!(sig.s, U256::new(9));
    assert_eq!(hex_of(&sig.to_rlp_bytes()), "0x010709");
}

#[test]
fn eip1559_transaction_encoding() {
    let key = SizedBytes::<32>::from_str("0x0101010101010101010101010101010101010101010101010101010101010101").unwrap();
    let req = Eip1559TransactionRequest {
        chain_id: 1,
        nonce: U256::new(0),
        max_priority_fee_per_gas: U256::new(1),
        max_fee_per_gas: U256::new(2),
        gas: U256::new(21000),
        to: Address::from_str("0x3535353535353535353535353535353535353535").unwrap(),
        value: U256::new(0),
        data: Bytes(vec![0xab]),
        access_list: vec![AccessListRecord {
            address: Address::from_str("0x1111111111111111111111111111111111111111").unwrap(),
            storage_keys: vec![key],
        }],
    };
    let fields = req.to_rlp_bytes();
    assert_eq!(
        hex_of(&fields),
        "0x01800102825208943535353535353535353535353535353535353535\
80\
81ab\
f838f7941111111111111111111111111111111111111111e1a00101010101010101010101010101010101010101010101010101010101010101"
            .replace(' ', "")
    );
    let signer = LocalSigner::from_str(EIP155_KEY).unwrap();
    let tx = req.sign(&signer);
    let raw = tx.to_rlp_bytes();
    assert_eq!(raw[0], 2);
    let expected_sig = signer.sign_hashed(req.to_signing_hash());
    assert_eq!(tx.sig.r, expected_sig.r);
    assert_eq!(tx.req.nonce, req.nonce);
    assert_eq!(tx.req.data, req.data);
}

#[test]
fn transaction_sender_nonce_tracking() {
    let mut s = TransactionSender::new(1, TransactionSenderFeeConfig::Legacy { gas_price: FeeUnit::Gwei(1) });
    // no nonce remembered: the latest count is the nonce
    assert_eq!(s.choose_nonce(5, 5, 0), Some(5));
    assert_eq!(s.previous_transaction_count_with_timestamp, Some((5, 0)));
    s.after_sent(5);
    assert_eq!(s.nonce, Some(6));
    // the remembered nonce is used while the count moves on
    assert_eq!(s.choose_nonce(5, 6, 1000), Some(6));
    // too many transactions in flight: wait
    assert_eq!(s.choose_nonce(5, 5 + 17, 2000), None);
    assert_eq!(s.choose_nonce(5, 5 + 16, 2000), Some(6));
    // the latest count stalls too long: read the nonce from the chain again
    assert_eq!(s.choose_nonce(5, 6, 20_001), Some(5));
    assert_eq!(s.previous_transaction_count_with_timestamp, Some((5, 20_001)));
    s.after_refused(9);
    assert_eq!(s.nonce, Some(9));
    // the count went back: forget the nonce
    assert_eq!(s.choose_nonce(4, 4, 20_002), Some(4));
    assert!(TransactionSender::can_retry(119_999));
    assert!(!TransactionSender::can_retry(120_000));
    assert_eq!(TransactionSender::gas_limit(100, 50), 110);
    assert_eq!(TransactionSender::gas_limit(100, 200), 200);
    assert_eq!(TransactionSender::gas_limit(u64::MAX, 0), u64::MAX / 100);
}

#[test]
fn transaction_sender_signs_as_configured() {
    let signer = LocalSigner::from_str(EIP155_KEY).unwrap();
    let req = TransactionRequest {
        gas: 21000,
        to: Address::from_str("0x3535353535353535353535353535353535353535").unwrap(),
        value: U256::new(1_000_000_000_000_000_000),
        data: Bytes(vec![]),
    };
    let legacy = TransactionSender::new(1, TransactionSenderFeeConfig::Legacy { gas_price: FeeUnit::Gwei(20) });
    assert_eq!(
        hex_of(&legacy.signed_transaction(&signer, &req, 9, 21000)),
        "0xf86c098504a817c800825208943535353535353535353535353535353535353535880de0b6b3a76400008025a028ef61340bd939bc2195fe537567866003e1a15d3c71ff63e1590620aa636276a067cbe9d8997f761aecb703304b3800ccf555c9f3dc64214b297fb1966a3b6d83"
    );
    let eip1559 = TransactionSender::new(
        1,
        TransactionSenderFeeConfig::Eip1559 { max_fee_per_gas: FeeUnit::Wei(2), max_priority_fee_per_gas: FeeUnit::Wei(1) },
    );
    let raw = eip1559.signed_transaction(&signer, &req, 0, 21000);
    assert_eq!(raw[0], 2);
}
