use afn::bytes::{Bytes, SizedBytes};
use afn::encryption::{EncryptedSecrets, EncryptionError, EXPECTED_VERSION};

#[test]
fn decrypt_gives_back_what_was_encrypted() {
    let e = EncryptedSecrets::encrypt_internal(
        b"top secret",
        "pass",
        SizedBytes([1; 32]),
        SizedBytes([2; 32]),
        "aad",
    )
    .unwrap();
    assert_eq!(e.version, EXPECTED_VERSION);
    assert_eq!(e.associated_data, "aad");
    assert_eq!(e.ciphertext.len(), 10);
    assert_eq!(e.decrypt("pass").unwrap(), b"top secret".to_vec());
    assert_eq!(e.decrypt("wrong").err(), Some(EncryptionError::Cipher));
}

#[test]
fn decrypt_refuses_other_versions() {
    let e = EncryptedSecrets {
        iv: SizedBytes([0; 32]),
        ciphertext: Bytes(vec![]),
        tag: SizedBytes([0; 16]),
        associated_data: String::new(),
        scrypt_salt: SizedBytes([0; 32]),
        version: 2,
    };
    assert_eq!(e.decrypt("pass").err(), Some(EncryptionError::UnsupportedVersion(2)));
}

#[test]
fn encrypted_secrets_decrypt_with_their_passphrase() {
    let e = EncryptedSecrets::encrypt(b"keys", "pass", "aad").unwrap();
    assert_eq!(e.version, 1);
    assert_eq!(e.decrypt("pass").unwrap(), b"keys".to_vec());
    assert_eq!(e.decrypt("other").err(), Some(EncryptionError::Cipher));
}
