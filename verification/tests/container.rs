use totpkeep::crpt::{decrypt, encrypt, RegistryFile};
use totpkeep::errors::Error;

#[test]
fn empty_payload_round_trip() {
    let buf = encrypt(b"", "secret");
    assert_eq!(buf.len(), 44);
    let back = decrypt(&buf, "secret").unwrap();
    assert_eq!(back, Vec::<u8>::new());
}

#[test]
fn small_payload_round_trip() {
    let buf = encrypt(&[0x41, 0x42, 0x43], "pw1");
    assert_eq!(buf.len(), 47);
    let back = decrypt(&buf, "pw1").unwrap();
    assert_eq!(back, vec![0x41, 0x42, 0x43]);
}

#[test]
fn larger_payload_round_trip() {
    let payload: Vec<u8> = (0..=255u8).cycle().take(1000).collect();
    let buf = encrypt(&payload, "a longer pass phrase");
    assert_eq!(buf.len(), payload.len() + 44);
    let back = decrypt(&buf, "a longer pass phrase").unwrap();
    assert_eq!(back, payload);
}

#[test]
fn length_invariant() {
    for n in [0usize, 1, 2, 31, 32, 33, 100] {
        let payload = vec![0x5Au8; n];
        let buf = encrypt(&payload, "w");
        assert_eq!(buf.len(), n + 44);
    }
}

#[test]
fn wrong_password_detected() {
    let buf = encrypt(&[1, 2, 3, 4], "pw1");
    match decrypt(&buf, "pw2") {
        Err(Error::WrongPassword) => (),
        other => panic!("expected WrongPassword, got {:?}", other),
    }
}

#[test]
fn truncated_buffers_rejected() {
    for n in [0usize, 1, 20, 40, 43] {
        let buf = vec![0u8; n];
        match decrypt(&buf, "pw") {
            Err(Error::CorruptedFileContent) => (),
            other => panic!("length {}: expected CorruptedFileContent, got {:?}", n, other),
        }
    }
}

#[test]
fn end_to_end_scenario() {
    let buf = encrypt(&[0x41, 0x42, 0x43], "pw1");
    assert_eq!(buf.len(), 47);
    assert_eq!(decrypt(&buf, "pw1").unwrap(), vec![0x41, 0x42, 0x43]);
    match decrypt(&buf, "pw2") {
        Err(Error::WrongPassword) => (),
        other => panic!("expected WrongPassword, got {:?}", other),
    }
    let short: Vec<u8> = buf[..40].to_vec();
    match decrypt(&short, "pw1") {
        Err(Error::CorruptedFileContent) => (),
        other => panic!("expected CorruptedFileContent, got {:?}", other),
    }
}

#[test]
fn tampered_ciphertext_detected() {
    let buf = encrypt(&[0x41, 0x42, 0x43], "pw");
    for byte in 28..31 {
        for bit in 0..8 {
            let mut tampered = buf.clone();
            tampered[byte] ^= 1u8 << bit;
            match decrypt(&tampered, "pw") {
                Err(Error::WrongPassword) => (),
                other => panic!("byte {} bit {}: expected WrongPassword, got {:?}", byte, bit, other),
            }
        }
    }
}

#[test]
fn tampered_tag_detected() {
    let buf = encrypt(&[9, 9, 9], "pw");
    let mut tampered = buf.clone();
    let last = tampered.len() - 1;
    tampered[last] ^= 0x80;
    match decrypt(&tampered, "pw") {
        Err(Error::WrongPassword) => (),
        other => panic!("expected WrongPassword, got {:?}", other),
    }
}

#[test]
fn fresh_salt_and_nonce_each_time() {
    let a = encrypt(&[7, 7, 7], "pw");
    let b = encrypt(&[7, 7, 7], "pw");
    assert_ne!(a[..16], b[..16]);
    assert_ne!(a[20..28], b[20..28]);
}

#[test]
fn ciphertext_is_masked() {
    let payload = [0u8; 16];
    let buf = encrypt(&payload, "pw");
    assert_ne!(&buf[28..44], &payload[..]);
}

#[test]
fn cost_field_is_big_endian_default() {
    let buf = encrypt(b"", "pw");
    assert_eq!(&buf[16..20], &[0, 0, 0, 16]);
}

#[test]
fn registry_file_lengths() {
    let f = RegistryFile::new_with_decrypted_length(10);
    assert_eq!(f.decrypted_len, 10);
    assert_eq!(f.encrypted_len(), 54);
    assert_eq!(f.key_salt(), (0, 16));
    assert_eq!(f.bcrypt_pbkdf(), (16, 20));
    assert_eq!(f.chacha_nonce(), (20, 28));
    assert_eq!(f.body(), (28, 38));
    assert_eq!(f.tag(), (38, 54));
}

#[test]
fn registry_file_from_encrypted_length() {
    match RegistryFile::new_with_encrypted_length(43) {
        Err(Error::CorruptedFileContent) => (),
        other => panic!("expected CorruptedFileContent, got {:?}", other.map(|f| f.decrypted_len)),
    }
    let f = RegistryFile::new_with_encrypted_length(44).unwrap();
    assert_eq!(f.decrypted_len, 0);
    let f = RegistryFile::new_with_encrypted_length(100).unwrap();
    assert_eq!(f.decrypted_len, 56);
}

#[test]
fn error_descriptions() {
    assert_eq!(Error::CorruptedFileContent.description(), "File is corrupted");
    assert_eq!(Error::WrongPassword.description(), "Wrong password");
    assert_eq!(Error::WrongServiceRecordData.description(), "Unable to parse TOTP secret");
    assert_eq!(Error::NoHomeDirectory.description(), "Unable to get home directory");
    assert_eq!(Error::FileNotFound.description(), "File not found");
    assert_eq!(Error::FileError.description(), "File operation error");
    assert_eq!(Error::UnknownCommand.description(), "Unknown Command");
}
