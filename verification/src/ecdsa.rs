use crate::bytes::{Address, SizedBytes};
use crate::keccak::{keccak256, keccak256_spec};
use crate::rlp::{RlpEncodable, RlpStream};
use crate::u256::{be_nat, U256};
use crate::hex::{all_hex_digits, hex_digits_to_bytes};
use secp256k1::rand::rngs::OsRng;
use std::str::FromStr;
use vstd::prelude::*;
use vstd::string::StringSliceAdditionalSpecFns;

verus! {

/// The order of the group of secp256k1 points.
pub open spec fn curve_order() -> nat {
    0xFFFFFFFFFFFFFFFFFFFFFFFFFFFFFFFEBAAEDCE6AF48A03BBFD25E8CD0364141nat
}

/// Whether 32 bytes, read as a big-endian number, are a secp256k1 secret key:
/// not zero and below the curve order.
pub open spec fn is_valid_secret(b: Seq<u8>) -> bool {
    &&& b.len() == 32
    &&& 0 < be_nat(b)
    &&& be_nat(b) < curve_order()
}

/// The uncompressed 65-byte serialization of the public key of a secret key,
/// as secp256k1 computes it.
pub uninterp spec fn public_key_spec(secret: Seq<u8>) -> Seq<u8>;

/// The recoverable ECDSA signature (recovery id and 64 compact bytes) that
/// secp256k1 computes for a 32-byte digest and a secret key, with its
/// deterministic (RFC 6979) nonce.
pub uninterp spec fn recoverable_signature_spec(digest: Seq<u8>, secret: Seq<u8>) -> (i32, Seq<u8>);

/// Calls `secp256k1::SecretKey::from_slice`. Trusted: the key is accepted
/// exactly when the slice holds 32 bytes that make a valid secret (as the
/// library's documentation of `secp256k1_ec_seckey_verify` states), and then
/// its bytes are the slice's.
#[verifier::external_body]
fn secret_from_slice(data: &[u8]) -> (r: Option<[u8; 32]>)
    ensures
        r.is_some() <==> is_valid_secret(data@),
        r matches Some(b) ==> b@ == data@,
{
    match secp256k1::SecretKey::from_slice(data) {
        Ok(k) => Some(k.secret_bytes()),
        Err(_) => None,
    }
}

/// Whether a text is exactly 64 hexadecimal digits (no `0x`) that spell a
/// valid secret.
pub open spec fn is_secret_hex(s: Seq<u8>) -> bool {
    &&& s.len() == 64
    &&& all_hex_digits(s)
    &&& is_valid_secret(hex_digits_to_bytes(s))
}

/// Calls `secp256k1::SecretKey::from_str`. Trusted, as its source shows: the
/// text is read as exactly 64 hexadecimal digits of either case, two per
/// byte, and the bytes must make a valid secret; otherwise it is refused.
#[verifier::external_body]
fn secret_from_hex(s: &str) -> (r: Option<[u8; 32]>)
    ensures
        r.is_some() <==> is_secret_hex(s.spec_bytes()),
        r matches Some(b) ==> b@ == hex_digits_to_bytes(s.spec_bytes()),
{
    match secp256k1::SecretKey::from_str(s) {
        Ok(k) => Some(k.secret_bytes()),
        Err(_) => None,
    }
}

/// Calls `secp256k1::generate_keypair` with the operating system's random
/// source and keeps the secret key's bytes. Trusted: whatever the random
/// draw, the bytes are a valid secret.
#[verifier::external_body]
fn random_secret() -> (r: [u8; 32])
    ensures
        is_valid_secret(r@),
{
    let (secret_key, _) = secp256k1::generate_keypair(&mut OsRng);
    secret_key.secret_bytes()
}

/// Calls `secp256k1::SecretKey::public_key` on the global context, then
/// `PublicKey::serialize_uncompressed`. Trusted: the 65 bytes are the named
/// function `public_key_spec` of the secret.
#[verifier::external_body]
fn public_key_of(secret: &[u8; 32]) -> (r: [u8; 65])
    requires
        is_valid_secret(secret@),
    ensures
        r@ == public_key_spec(secret@),
{
    let secret_key = secp256k1::SecretKey::from_slice(secret).expect("a valid secret");
    secret_key.public_key(secp256k1::SECP256K1).serialize_uncompressed()
}

/// Calls `Secp256k1::sign_ecdsa_recoverable` on the global context with the
/// digest as message, then `RecoverableSignature::serialize_compact`.
/// Trusted: the result is the named function `recoverable_signature_spec` of
/// the digest and the secret, and the recovery id is one of 0 to 3.
#[verifier::external_body]
fn sign_recoverable(digest: [u8; 32], secret: &[u8; 32]) -> (r: (i32, [u8; 64]))
    requires
        is_valid_secret(secret@),
    ensures
        (r.0, r.1@) == recoverable_signature_spec(digest@, secret@),
        0 <= r.0 <= 3,
{
    let secret_key = secp256k1::SecretKey::from_slice(secret).expect("a valid secret");
    let message = secp256k1::Message::from_digest(digest);
    let sig = secp256k1::SECP256K1.sign_ecdsa_recoverable(&message, &secret_key);
    let (recovery_id, compact) = sig.serialize_compact();
    (recovery_id.to_i32(), compact)
}

/// A secp256k1 secret key: 32 bytes whose number is not zero and below the
/// curve order. It has no `Debug`, so that its bytes are not printed.
#[derive(Clone, Copy, PartialEq, Eq)]
pub struct SecretKey {
    bytes: [u8; 32],
}

impl SecretKey {
    #[verifier::type_invariant]
    spec fn key_inv(self) -> bool {
        is_valid_secret(self.bytes@)
    }

    /// The secret's bytes, big-endian.
    pub closed spec fn spec_bytes(self) -> Seq<u8> {
        self.bytes@
    }

    /// Reads a secret key from a slice; `None` unless the slice holds 32 bytes
    /// that make a valid secret.
    pub fn from_slice(data: &[u8]) -> (r: Option<SecretKey>)
        ensures
            r.is_some() <==> is_valid_secret(data@),
            r matches Some(k) ==> k.spec_bytes() == data@,
    {
        match secret_from_slice(data) {
            Some(bytes) => Some(SecretKey { bytes }),
            None => None,
        }
    }

    /// The secret's 32 bytes.
    pub fn secret_bytes(&self) -> (r: [u8; 32])
        ensures
            r@ == self.spec_bytes(),
            is_valid_secret(r@),
    {
        proof {
            use_type_invariant(self);
        }
        self.bytes
    }
}

/// A secp256k1 public key, held as its uncompressed 65-byte serialization.
#[derive(Clone, Copy, Debug)]
pub struct PublicKey {
    pub uncompressed: [u8; 65],
}

impl View for PublicKey {
    type V = Seq<u8>;

    open spec fn view(&self) -> Seq<u8> {
        self.uncompressed@
    }
}

/// The address of an account whose uncompressed public key is `pk`: the last
/// 20 bytes of the Keccak-256 digest of the key without its leading tag byte.
pub open spec fn address_of_public_key_spec(pk: Seq<u8>) -> Seq<u8> {
    keccak256_spec(pk.subrange(1, 65)).subrange(12, 32)
}

impl PublicKey {
    /// The account address of the key.
    pub fn to_address(&self) -> (r: Address)
        ensures
            r@ == address_of_public_key_spec(self@),
    {
        let digest = keccak256(vstd::slice::slice_subrange(self.uncompressed.as_slice(), 1, 65));
        let tail = vstd::slice::slice_subrange(digest.as_slice(), 12, 32);
        SizedBytes::<20>::from_slice(tail)
    }
}

/// A fresh random secret key.
pub fn generate_secret_key() -> (r: SecretKey)
    ensures
        is_valid_secret(r.spec_bytes()),
{
    SecretKey { bytes: random_secret() }
}

/// The public key of a secret key.
pub fn secret_key_to_public_key(sk: &SecretKey) -> (r: PublicKey)
    ensures
        r@ == public_key_spec(sk.spec_bytes()),
{
    proof {
        use_type_invariant(sk);
    }
    PublicKey { uncompressed: public_key_of(&sk.bytes) }
}

/// The signature of an Ethereum transaction or message: recovery value `v`
/// and the two ECDSA scalars `r` and `s`.
#[derive(Clone, Copy, Debug)]
pub struct EthereumSignature {
    pub v: U256,
    pub r: U256,
    pub s: U256,
}

impl RlpEncodable for EthereumSignature {
    open spec fn rlp_spec(&self) -> Seq<u8> {
        self.v.rlp_spec() + self.r.rlp_spec() + self.s.rlp_spec()
    }

    fn to_rlp_bytes(&self) -> (out: Vec<u8>) {
        let mut rlp = RlpStream::new();
        rlp.push(&self.v);
        rlp.push(&self.r);
        rlp.push(&self.s);
        rlp.finalize_without_length_prefix()
    }
}

/// The recovery value of a signature in the legacy (EIP-155) form for a
/// chain: a plain recovery id 0 or 1 becomes `chain_id * 2 + 35 + v`; any
/// other value stays.
pub open spec fn legacy_v(v: nat, chain_id: nat) -> nat {
    if v <= 1 {
        chain_id * 2 + 35 + v
    } else {
        v
    }
}

impl EthereumSignature {
    /// The signature with its recovery value in the legacy (EIP-155) form
    /// for `chain_id`.
    pub fn to_legacy(self, chain_id: u64) -> (out: EthereumSignature)
        requires
            chain_id * 2 + 36 <= u64::MAX,
        ensures
            out.v.value() == legacy_v(self.v.value(), chain_id as nat),
            out.r == self.r,
            out.s == self.s,
    {
        match self.v.to_u64() {
            Ok(v) => {
                if v <= 1 {
                    let nv: u64 = chain_id * 2 + 35 + v;
                    EthereumSignature { v: U256::new(nv as u128), r: self.r, s: self.s }
                } else {
                    self
                }
            },
            Err(_) => self,
        }
    }

    /// The signature made of a recovery id and the 64 compact signature bytes
    /// (`r`, then `s`, each big-endian).
    pub fn from_compact(recovery_id: i32, compact: &[u8; 64]) -> (out: EthereumSignature)
        requires
            0 <= recovery_id,
        ensures
            out.v.value() == recovery_id as nat,
            out.r.value() == be_nat(compact@.subrange(0, 32)),
            out.s.value() == be_nat(compact@.subrange(32, 64)),
    {
        let v = U256::new(recovery_id as u128);
        let mut r_bytes = [0u8; 32];
        let mut s_bytes = [0u8; 32];
        let mut i: usize = 0;
        while i < 32
            invariant
                i <= 32,
                r_bytes@.len() == 32,
                s_bytes@.len() == 32,
                forall|j: int| 0 <= j < i ==> r_bytes@[j] == compact@[j],
                forall|j: int| 0 <= j < i ==> s_bytes@[j] == compact@[32 + j],
            decreases 32 - i,
        {
            r_bytes[i] = compact[i];
            s_bytes[i] = compact[32 + i];
            i = i + 1;
        }
        assert(r_bytes@ =~= compact@.subrange(0, 32));
        assert(s_bytes@ =~= compact@.subrange(32, 64));
        let r = U256::from_be_bytes(r_bytes);
        let s = U256::from_be_bytes(s_bytes);
        EthereumSignature { v, r, s }
    }
}

/// Something that signs 32-byte digests for an Ethereum account.
pub trait EthereumSigner {
    /// Whether `sig` is a signature that the signer may give for `hashed`.
    spec fn is_signature_for(&self, hashed: Seq<u8>, sig: EthereumSignature) -> bool;

    /// The account address that the signer signs for.
    spec fn address_spec(&self) -> Seq<u8>;

    /// Signs a 32-byte digest.
    fn sign_hashed(&self, hashed: [u8; 32]) -> (r: EthereumSignature)
        ensures
            self.is_signature_for(hashed@, r),
    ;

    /// Signs the Keccak-256 digest of `data`.
    fn sign(&self, data: &[u8]) -> (r: EthereumSignature)
        ensures
            self.is_signature_for(keccak256_spec(data@), r),
    ;

    /// The account address that the signer signs for.
    fn address(&self) -> (r: Address)
        ensures
            r@ == self.address_spec(),
    ;
}

/// The signature that a local secret key gives for a digest.
pub open spec fn local_signature(hashed: Seq<u8>, secret: Seq<u8>) -> (nat, nat, nat) {
    let (recovery_id, compact) = recoverable_signature_spec(hashed, secret);
    (recovery_id as nat, be_nat(compact.subrange(0, 32)), be_nat(compact.subrange(32, 64)))
}

/// Error of reading a secret key from text.
#[derive(Debug, PartialEq, Eq, Structural)]
pub enum InvalidSecretKey {
    InvalidSecretKey,
}

/// A signer that holds its secret key in memory.
pub struct LocalSigner {
    secret_key: SecretKey,
}

impl LocalSigner {
    /// The signer's secret bytes.
    pub closed spec fn secret(&self) -> Seq<u8> {
        self.secret_key.spec_bytes()
    }

    /// A signer with a fresh random secret key.
    pub fn generate() -> (r: LocalSigner)
        ensures
            is_valid_secret(r.secret()),
    {
        LocalSigner { secret_key: generate_secret_key() }
    }

    /// A signer with the given secret key.
    pub fn from_secret_key(secret_key: SecretKey) -> (r: LocalSigner)
        ensures
            r.secret() == secret_key.spec_bytes(),
    {
        LocalSigner { secret_key }
    }

    /// Reads a signer's secret key from 64 hexadecimal digits.
    pub fn from_str(s: &str) -> (r: Result<LocalSigner, InvalidSecretKey>)
        ensures
            r is Ok <==> is_secret_hex(s.spec_bytes()),
            r matches Ok(signer) ==> signer.secret() == hex_digits_to_bytes(s.spec_bytes()),
    {
        match secret_from_hex(s) {
            Some(bytes) => Ok(LocalSigner { secret_key: SecretKey { bytes } }),
            None => Err(InvalidSecretKey::InvalidSecretKey),
        }
    }
}

impl EthereumSigner for LocalSigner {
    open spec fn is_signature_for(&self, hashed: Seq<u8>, sig: EthereumSignature) -> bool {
        local_signature(hashed, self.secret()) == (sig.v.value(), sig.r.value(), sig.s.value())
    }

    open spec fn address_spec(&self) -> Seq<u8> {
        address_of_public_key_spec(public_key_spec(self.secret()))
    }

    fn sign_hashed(&self, hashed: [u8; 32]) -> (r: EthereumSignature) {
        let secret = self.secret_key.secret_bytes();
        let (recovery_id, compact) = sign_recoverable(hashed, &secret);
        EthereumSignature::from_compact(recovery_id, &compact)
    }

    fn sign(&self, data: &[u8]) -> (r: EthereumSignature) {
        self.sign_hashed(keccak256(data))
    }

    fn address(&self) -> (r: Address) {
        secret_key_to_public_key(&self.secret_key).to_address()
    }
}

} // verus!
