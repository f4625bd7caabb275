use crate::bytes::{Bytes, SizedBytes};
use vstd::prelude::*;
use vstd::string::StringSliceAdditionalSpecFns;
use vstd::utf8::encode_utf8;

verus! {

/// The initialisation vector of the cipher.
pub type Iv = SizedBytes<32>;

/// The size of the authentication tag.
pub const TAG_SIZE_IN_BYTES: usize = 16;

/// The authentication tag of the cipher.
pub type Tag = SizedBytes<16>;

/// The salt of the key derivation.
pub type Salt = SizedBytes<32>;

/// The scrypt cost parameter.
pub const SCRYPT_N: u64 = 262144u64;

/// The scrypt parallelisation parameter.
pub const SCRYPT_P: u64 = 1u64;

/// The scrypt block size parameter.
pub const SCRYPT_R: u64 = 8u64;

/// The memory that scrypt may use with these parameters.
pub const SCRYPT_MAXMEM: u64 = (SCRYPT_P * 128 * SCRYPT_R) + 32 * SCRYPT_R * (SCRYPT_N + 2) * 4;

/// The format version that this code writes and reads.
pub const EXPECTED_VERSION: u64 = 1u64;

/// What scrypt gives for a passphrase, a salt, the cost parameters and the
/// memory bound: the 16-byte key, or `None` where OpenSSL refuses (such as
/// parameters that need more memory than the bound).
pub uninterp spec fn scrypt_spec(passphrase: Seq<u8>, salt: Seq<u8>, n: u64, r: u64, p: u64, maxmem: u64) -> Option<
    Seq<u8>,
>;

/// What AES-128-GCM sealing gives for a key, an initialisation vector,
/// additional authenticated data and a plaintext: the ciphertext and the
/// 16-byte tag, or `None` where OpenSSL refuses.
pub uninterp spec fn aes_128_gcm_seal_spec(key: Seq<u8>, iv: Seq<u8>, aad: Seq<u8>, plaintext: Seq<u8>) -> Option<
    (Seq<u8>, Seq<u8>),
>;

/// What AES-128-GCM opening gives for a key, an initialisation vector,
/// additional authenticated data, a ciphertext and a tag: the plaintext where
/// the tag authenticates the data, `None` otherwise.
pub uninterp spec fn aes_128_gcm_open_spec(key: Seq<u8>, iv: Seq<u8>, aad: Seq<u8>, ciphertext: Seq<u8>, tag: Seq<u8>) -> Option<
    Seq<u8>,
>;

/// Calls `openssl::pkcs5::scrypt` with a 16-byte output. Trusted: the outcome,
/// the key or the refusal, is the named function `scrypt_spec` of the
/// passphrase, the salt, the cost parameters and the memory bound: OpenSSL
/// checks the parameters against the bound and then computes the key from
/// its inputs. The crate converts `maxmem` to `usize` and panics where it
/// does not fit, so that input is left out.
#[verifier::external_body]
fn scrypt_16(passphrase: &[u8], salt: &[u8], n: u64, r: u64, p: u64, maxmem: u64) -> (out: Option<[u8; 16]>)
    requires
        maxmem <= usize::MAX,
    ensures
        match scrypt_spec(passphrase@, salt@, n, r, p, maxmem) {
            Some(k) => out matches Some(o) && o@ == k,
            None => out is None,
        },
{
    let mut derived_key = [0u8; 16];
    match openssl::pkcs5::scrypt(passphrase, salt, n, r, p, maxmem, &mut derived_key) {
        Ok(()) => Some(derived_key),
        Err(_) => None,
    }
}

/// Calls `openssl::symm::encrypt_aead` with AES-128-GCM and a 16-byte tag.
/// Trusted: the outcome, the ciphertext and tag or the refusal, is the named
/// function `aes_128_gcm_seal_spec` of the inputs; and what it seals opens,
/// under the same key, vector and data, to the plaintext (what an AEAD cipher
/// is for). The crate panics on an IV, data or plaintext longer than
/// `i32::MAX` bytes, so those inputs are left out.
#[verifier::external_body]
fn aes_128_gcm_encrypt(key: &[u8; 16], iv: &[u8], aad: &[u8], plaintext: &[u8]) -> (out: Option<(Vec<u8>, [u8; 16])>)
    requires
        iv@.len() <= i32::MAX,
        aad@.len() <= i32::MAX,
        plaintext@.len() <= i32::MAX,
    ensures
        match aes_128_gcm_seal_spec(key@, iv@, aad@, plaintext@) {
            Some((c, t)) => out matches Some(ct) && ct.0@ == c && ct.1@ == t,
            None => out is None,
        },
        out matches Some(ct) ==> aes_128_gcm_open_spec(key@, iv@, aad@, ct.0@, ct.1@) == Some(plaintext@),
{
    let mut tag = [0u8; 16];
    match openssl::symm::encrypt_aead(openssl::symm::Cipher::aes_128_gcm(), key, Some(iv), aad, plaintext, &mut tag) {
        Ok(ciphertext) => Some((ciphertext, tag)),
        Err(_) => None,
    }
}

/// Calls `openssl::symm::decrypt_aead` with AES-128-GCM. Trusted: the outcome,
/// the plaintext or the refusal (a tag that does not authenticate the data),
/// is the named function `aes_128_gcm_open_spec` of the inputs. The crate
/// panics on an IV, data, ciphertext or tag longer than `i32::MAX` bytes, so
/// those inputs are left out.
#[verifier::external_body]
fn aes_128_gcm_decrypt(key: &[u8; 16], iv: &[u8], aad: &[u8], ciphertext: &[u8], tag: &[u8]) -> (out: Option<Vec<u8>>)
    requires
        iv@.len() <= i32::MAX,
        aad@.len() <= i32::MAX,
        ciphertext@.len() <= i32::MAX,
        tag@.len() <= i32::MAX,
    ensures
        match aes_128_gcm_open_spec(key@, iv@, aad@, ciphertext@, tag@) {
            Some(p) => out matches Some(o) && o@ == p,
            None => out is None,
        },
{
    match openssl::symm::decrypt_aead(openssl::symm::Cipher::aes_128_gcm(), key, Some(iv), aad, ciphertext, tag) {
        Ok(plaintext) => Some(plaintext),
        Err(_) => None,
    }
}

/// Calls `openssl::rand::rand_bytes` on 32 bytes: the bytes where it
/// succeeds. Nothing is claimed of them: they are random.
#[verifier::external_body]
pub(crate) fn random_bytes_32() -> (r: Option<[u8; 32]>) {
    let mut b = [0u8; 32];
    match openssl::rand::rand_bytes(&mut b) {
        Ok(()) => Some(b),
        Err(_) => None,
    }
}

/// Why encrypting or decrypting secrets failed.
#[derive(Debug, PartialEq, Eq, Structural)]
pub enum EncryptionError {
    /// The stored format version is not the one this code reads.
    UnsupportedVersion(u64),
    /// scrypt could not derive the key.
    KeyDerivation,
    /// The cipher refused the data (for decryption: a wrong passphrase or
    /// tampered data).
    Cipher,
    /// No random bytes could be drawn.
    Randomness,
}

/// The key that encrypts secrets under a passphrase and a salt, or `None`
/// where scrypt refuses.
pub open spec fn derived_key_spec(salt: Seq<u8>, passphrase: Seq<u8>) -> Option<Seq<u8>> {
    scrypt_spec(passphrase, salt, SCRYPT_N, SCRYPT_R, SCRYPT_P, SCRYPT_MAXMEM)
}

fn derive_key(salt: Salt, passphrase: &str) -> (r: Result<[u8; 16], EncryptionError>)
    ensures
        match derived_key_spec(salt@, passphrase.spec_bytes()) {
            Some(k) => r matches Ok(o) && o@ == k,
            None => r == Err::<[u8; 16], EncryptionError>(EncryptionError::KeyDerivation),
        },
{
    assert(SCRYPT_N == 262144u64 && SCRYPT_R == 8u64 && SCRYPT_P == 1u64);
    assert(SCRYPT_MAXMEM == 268438528u64) by (nonlinear_arith)
        requires
            SCRYPT_N == 262144u64 && SCRYPT_R == 8u64 && SCRYPT_P == 1u64,
            SCRYPT_MAXMEM == (SCRYPT_P * 128 * SCRYPT_R) + 32 * SCRYPT_R * (SCRYPT_N + 2) * 4,
    ;
    assert(SCRYPT_MAXMEM <= usize::MAX);
    match scrypt_16(passphrase.as_bytes(), salt.as_slice(), SCRYPT_N, SCRYPT_R, SCRYPT_P, SCRYPT_MAXMEM) {
        Some(k) => Ok(k),
        None => Err(EncryptionError::KeyDerivation),
    }
}

/// Secrets encrypted with AES-128-GCM under a key that scrypt derives from a
/// passphrase.
#[derive(Debug)]
pub struct EncryptedSecrets {
    pub iv: Iv,
    pub ciphertext: Bytes,
    pub tag: Tag,
    pub associated_data: String,
    pub scrypt_salt: Salt,
    pub version: u64,
}

/// What decrypting `e` with `passphrase` gives.
pub open spec fn decrypt_spec(e: EncryptedSecrets, passphrase: Seq<u8>) -> Result<Seq<u8>, EncryptionError> {
    if e.version != EXPECTED_VERSION {
        Err(EncryptionError::UnsupportedVersion(e.version))
    } else {
        match derived_key_spec(e.scrypt_salt@, passphrase) {
            None => Err(EncryptionError::KeyDerivation),
            Some(k) => match aes_128_gcm_open_spec(
                k,
                e.iv@,
                encode_utf8(e.associated_data@),
                e.ciphertext@,
                e.tag@,
            ) {
                None => Err(EncryptionError::Cipher),
                Some(p) => Ok(p),
            },
        }
    }
}

impl EncryptedSecrets {
    /// Whether the record, read with `passphrase`, decrypts to `plaintext`.
    pub open spec fn decrypts_to(&self, passphrase: Seq<u8>, plaintext: Seq<u8>) -> bool {
        decrypt_spec(*self, passphrase) == Ok::<Seq<u8>, EncryptionError>(plaintext)
    }

    /// Decrypts the secrets with a passphrase.
    pub fn decrypt(&self, passphrase: &str) -> (r: Result<Vec<u8>, EncryptionError>)
        requires
            encode_utf8(self.associated_data@).len() <= i32::MAX,
            self.ciphertext@.len() <= i32::MAX,
        ensures
            match decrypt_spec(*self, passphrase.spec_bytes()) {
                Ok(p) => r matches Ok(v) && v@ == p,
                Err(e) => r == Err::<Vec<u8>, EncryptionError>(e),
            },
    {
        if self.version != EXPECTED_VERSION {
            return Err(EncryptionError::UnsupportedVersion(self.version));
        }
        let derived_key = match derive_key(self.scrypt_salt, passphrase) {
            Ok(k) => k,
            Err(e) => return Err(e),
        };
        match aes_128_gcm_decrypt(
            &derived_key,
            self.iv.as_slice(),
            self.associated_data.as_str().as_bytes(),
            self.ciphertext.as_slice(),
            self.tag.as_slice(),
        ) {
            Some(plaintext) => Ok(plaintext),
            None => Err(EncryptionError::Cipher),
        }
    }

    /// Encrypts `plaintext` under a passphrase with the given salt and
    /// initialisation vector, keeping `aad` as authenticated data.
    pub fn encrypt_internal(plaintext: &[u8], passphrase: &str, salt: Salt, iv: Iv, aad: &str) -> (r: Result<
        EncryptedSecrets,
        EncryptionError,
    >)
        requires
            aad.spec_bytes().len() <= i32::MAX,
            plaintext@.len() <= i32::MAX,
        ensures
            match derived_key_spec(salt@, passphrase.spec_bytes()) {
                None => r == Err::<EncryptedSecrets, EncryptionError>(EncryptionError::KeyDerivation),
                Some(k) => match aes_128_gcm_seal_spec(k, iv@, aad.spec_bytes(), plaintext@) {
                    None => r == Err::<EncryptedSecrets, EncryptionError>(EncryptionError::Cipher),
                    Some((c, t)) => r matches Ok(e) && {
                        &&& e.version == EXPECTED_VERSION
                        &&& e.iv == iv
                        &&& e.scrypt_salt == salt
                        &&& e.associated_data@ == aad@
                        &&& e.ciphertext@ == c
                        &&& e.tag@ == t
                        &&& e.decrypts_to(passphrase.spec_bytes(), plaintext@)
                    },
                },
            },
    {
        let version = EXPECTED_VERSION;
        let derived_key = match derive_key(salt, passphrase) {
            Ok(k) => k,
            Err(e) => return Err(e),
        };
        match aes_128_gcm_encrypt(&derived_key, iv.as_slice(), aad.as_bytes(), plaintext) {
            Some((ciphertext, tag)) => {
                let associated_data = aad.to_owned();
                Ok(
                    EncryptedSecrets {
                        iv,
                        ciphertext: Bytes(ciphertext),
                        associated_data,
                        tag: SizedBytes(tag),
                        scrypt_salt: salt,
                        version,
                    },
                )
            },
            None => Err(EncryptionError::Cipher),
        }
    }

    /// Encrypts `plaintext` under a passphrase with a fresh random salt and
    /// initialisation vector, keeping `associated_data` as authenticated
    /// data.
    pub fn encrypt(plaintext: &[u8], passphrase: &str, associated_data: &str) -> (r: Result<
        EncryptedSecrets,
        EncryptionError,
    >)
        requires
            associated_data.spec_bytes().len() <= i32::MAX,
            plaintext@.len() <= i32::MAX,
        ensures
            r matches Ok(e) ==> e.decrypts_to(passphrase.spec_bytes(), plaintext@)
                && e.associated_data@ == associated_data@ && e.version == EXPECTED_VERSION,
            r matches Err(e) ==> e == EncryptionError::Randomness || e == EncryptionError::KeyDerivation
                || e == EncryptionError::Cipher,
    {
        let salt = match random_bytes_32() {
            Some(b) => SizedBytes(b),
            None => return Err(EncryptionError::Randomness),
        };
        let iv = match random_bytes_32() {
            Some(b) => SizedBytes(b),
            None => return Err(EncryptionError::Randomness),
        };
        Self::encrypt_internal(plaintext, passphrase, salt, iv, associated_data)
    }
}

/// What is encrypted under a passphrase decrypts, with that passphrase, to
/// that plaintext and to no other: `decrypt` answers `Ok` with it.
pub proof fn law_decrypt_inverts_encrypt(e: EncryptedSecrets, passphrase: Seq<u8>, plaintext: Seq<u8>, other: Seq<u8>)
    requires
        e.decrypts_to(passphrase, plaintext),
        e.decrypts_to(passphrase, other),
    ensures
        plaintext == other,
        decrypt_spec(e, passphrase) == Ok::<Seq<u8>, EncryptionError>(plaintext),
{
}

} // verus!
