use password_vault::encryption_algorithms::{
    decrypt_password, encrypt_password, encrypt_with_iv, hash_master, pad_blocks, strip_padding,
    MAX_HASH_INPUT_LEN,
};
use password_vault::error::VaultError;

#[test]
fn test_hash_master() {
    let password = "supersecret";
    let salt = [0u8; 32];

    let hashed_password = hash_master(password, salt).unwrap();
    assert_eq!(hashed_password.len(), 32);

    let hashed_password_again = hash_master(password, salt).unwrap();
    assert_eq!(hashed_password, hashed_password_again);
}

#[test]
fn test_hash_master_with_different_salts() {
    let password = "supersecret";
    let salt1 = [0u8; 32];
    let salt2 = [1u8; 32];

    let hashed_password1 = hash_master(password, salt1).unwrap();
    let hashed_password2 = hash_master(password, salt2).unwrap();

    assert_ne!(hashed_password1, hashed_password2);
}

#[test]
fn test_hash_master_with_different_passwords() {
    let password1 = "supersecret";
    let password2 = "anothersecret";
    let salt = [0u8; 32];

    let hashed_password1 = hash_master(password1, salt).unwrap();
    let hashed_password2 = hash_master(password2, salt).unwrap();

    assert_ne!(hashed_password1, hashed_password2);
}

#[test]
fn test_encrypt_decrypt_password() {
    let password = "supersecret";
    let key = [0u8; 32];

    let encrypted_password = encrypt_password(password, &key);
    assert_ne!(password.as_bytes(), &encrypted_password[..]);

    let decrypted_password = decrypt_password(&encrypted_password, &key).unwrap();
    assert_eq!(password, decrypted_password);
}

#[test]
fn test_encrypt_decrypt_harder_password_with_real_key() {
    let password = "vjyuk32ropk'fmi34o;u[4";
    let key = "fhwebsdkfuyr1[23r4ibth34--";
    let salt = [0u8; 32];

    let hashed_key = hash_master(key, salt).unwrap();
    let encrypted_password = encrypt_password(password, &hashed_key);
    let decrypted_password = decrypt_password(&encrypted_password, &hashed_key).unwrap();

    assert_eq!(password, decrypted_password);
}

#[test]
fn hash_is_sha256_of_passphrase_then_salt() {
    // SHA-256 of "abc" followed by 32 zero bytes.
    let expected: [u8; 32] = [
        0x1b, 0x23, 0xf8, 0x60, 0xdb, 0x9b, 0xd9, 0xec, 0xcc, 0x26, 0xb3, 0x6e, 0xaa, 0x3b, 0x6c, 0x22, 0x3e, 0xf3, 0x45, 0x39, 0xcd, 0xef, 0x01, 0xb2, 0x40, 0xad, 0x76, 0xee, 0x45, 0xe1, 0x76, 0xc1,
    ];
    assert_eq!(hash_master("abc", [0u8; 32]).unwrap(), expected);
    // SHA-256 of "supersecret" followed by 32 bytes of value 1.
    let salted: [u8; 32] = [
        0x50, 0xbf, 0x0f, 0x81, 0x77, 0x15, 0x74, 0x9e, 0x67, 0x30, 0x7f, 0x8b, 0xb4, 0x67, 0x40, 0x9a, 0x05, 0x72, 0x74, 0x34, 0x06, 0xf7, 0x87, 0x3e, 0x2c, 0x40, 0x28, 0xea, 0x62, 0x03, 0x12, 0x6b,
    ];
    assert_eq!(hash_master("supersecret", [1u8; 32]).unwrap(), salted);
}

#[test]
fn hash_of_empty_passphrase_is_sha256_of_salt() {
    // SHA-256 of 32 zero bytes.
    let expected: [u8; 32] = [
        0x66, 0x68, 0x7a, 0xad, 0xf8, 0x62, 0xbd, 0x77, 0x6c, 0x8f, 0xc1, 0x8b, 0x8e, 0x9f, 0x8e,
        0x20, 0x08, 0x97, 0x14, 0x85, 0x6e, 0xe2, 0x33, 0xb3, 0x90, 0x2a, 0x59, 0x1d, 0x0d, 0x5f,
        0x29, 0x25,
    ];
    assert_eq!(hash_master("", [0u8; 32]).unwrap(), expected);
}

#[test]
fn padding_fills_to_whole_blocks() {
    assert_eq!(pad_blocks(b""), vec![16u8; 16]);
    let padded = pad_blocks(b"abc");
    assert_eq!(padded.len(), 16);
    assert_eq!(&padded[..3], b"abc");
    assert_eq!(&padded[3..], &[13u8; 13][..]);
    let full = pad_blocks(&[7u8; 16]);
    assert_eq!(full.len(), 32);
    assert_eq!(&full[16..], &[16u8; 16][..]);
}

#[test]
fn strip_padding_inverts_padding() {
    assert_eq!(strip_padding(pad_blocks(b"hello")), Some(b"hello".to_vec()));
    assert_eq!(strip_padding(pad_blocks(b"")), Some(Vec::new()));
    assert_eq!(strip_padding(pad_blocks(&[1u8; 16])), Some(vec![1u8; 16]));
}

#[test]
fn strip_padding_rejects_malformed_padding() {
    assert_eq!(strip_padding(Vec::new()), None);
    assert_eq!(strip_padding(vec![5u8, 0]), None);
    assert_eq!(strip_padding(vec![1u8, 2, 3]), None);
    assert_eq!(strip_padding(vec![9u8, 2, 2, 3, 3]), None);
    assert_eq!(strip_padding(vec![17u8; 32]), None);
    assert_eq!(strip_padding(vec![4u8, 3, 3, 3]), Some(vec![4u8]));
}

#[test]
fn encryption_with_a_fixed_vector_is_repeatable() {
    let key = [3u8; 32];
    let iv = [9u8; 16];
    let first = encrypt_with_iv("correct horse", &key, &iv);
    let second = encrypt_with_iv("correct horse", &key, &iv);
    assert_eq!(first, second);
    assert_eq!(&first[..16], &iv[..]);
    // AES-256-CBC of the padded text under this key and vector.
    let cipher: [u8; 16] = [
        0xd5, 0x63, 0xaf, 0x05, 0xbd, 0x37, 0x08, 0xf4, 0x97, 0x49, 0x48, 0xb7, 0xb8, 0x51, 0x72, 0xae,
    ];
    assert_eq!(&first[16..], &cipher[..]);
    assert_eq!(decrypt_password(&first, &key).unwrap(), "correct horse");
}

#[test]
fn encryption_of_a_whole_block_adds_a_block_of_padding() {
    let key: [u8; 32] = [
        0x60, 0x3d, 0xeb, 0x10, 0x15, 0xca, 0x71, 0xbe, 0x2b, 0x73, 0xae, 0xf0, 0x85, 0x7d, 0x77, 0x81, 0x1f, 0x35, 0x2c, 0x07, 0x3b, 0x61, 0x08, 0xd7, 0x2d, 0x98, 0x10, 0xa3, 0x09, 0x14, 0xdf, 0xf4,
    ];
    let iv: [u8; 16] = [
        0x00, 0x01, 0x02, 0x03, 0x04, 0x05, 0x06, 0x07, 0x08, 0x09, 0x0a, 0x0b, 0x0c, 0x0d, 0x0e, 0x0f,
    ];
    let blob = encrypt_with_iv("0123456789abcdef", &key, &iv);
    let cipher: [u8; 32] = [
        0xaf, 0x79, 0x82, 0xf6, 0x78, 0xf4, 0x98, 0xbe, 0x05, 0x3f, 0x0e, 0xc0, 0x6b, 0xc5, 0x47, 0xca, 0xf8, 0x1d, 0xab, 0x90, 0x22, 0xf1, 0x00, 0x99, 0x91, 0xcd, 0xf5, 0xa0, 0x2a, 0x86, 0x4a, 0x5d,
    ];
    assert_eq!(&blob[..16], &iv[..]);
    assert_eq!(&blob[16..], &cipher[..]);
    assert_eq!(decrypt_password(&blob, &key).unwrap(), "0123456789abcdef");
}

#[test]
fn two_encryptions_differ_and_both_decrypt() {
    let key = [5u8; 32];
    let first = encrypt_password("same text", &key);
    let second = encrypt_password("same text", &key);
    assert_ne!(first, second);
    assert_eq!(decrypt_password(&first, &key).unwrap(), "same text");
    assert_eq!(decrypt_password(&second, &key).unwrap(), "same text");
}

#[test]
fn round_trip_of_empty_and_non_ascii_text() {
    let key = [0x42u8; 32];
    for text in ["", "a", "exactly16bytes!!", "pässwörd ✓ 密码", "x".repeat(5000).as_str()] {
        let blob = encrypt_password(text, &key);
        assert_eq!(blob.len() % 16, 0);
        assert!(blob.len() >= 32);
        assert_eq!(decrypt_password(&blob, &key).unwrap(), text);
    }
}

#[test]
fn decryption_under_another_key_fails() {
    let key = [1u8; 32];
    let other = [2u8; 32];
    let iv = [0u8; 16];
    let blob = encrypt_with_iv("the quick brown fox jumps over the lazy dog", &key, &iv);
    assert_eq!(decrypt_password(&blob, &other), Err(VaultError::DecryptionError));
}

#[test]
fn decryption_rejects_malformed_blobs_and_keys() {
    let key = [1u8; 32];
    let blob = encrypt_with_iv("secret", &key, &[0u8; 16]);
    assert_eq!(decrypt_password(&[], &key), Err(VaultError::DecryptionError));
    assert_eq!(decrypt_password(&blob[..16], &key), Err(VaultError::DecryptionError));
    assert_eq!(decrypt_password(&blob[..31], &key), Err(VaultError::DecryptionError));
    assert_eq!(decrypt_password(&blob, &key[..31]), Err(VaultError::DecryptionError));
    assert_eq!(decrypt_password(&blob, &[]), Err(VaultError::DecryptionError));
    let mut longer = blob.clone();
    longer.push(0);
    assert_eq!(decrypt_password(&longer, &key), Err(VaultError::DecryptionError));
}

fn blob_of(cipher_hex: &str) -> Vec<u8> {
    let mut blob = vec![0u8; 16];
    for i in (0..cipher_hex.len()).step_by(2) {
        blob.push(u8::from_str_radix(&cipher_hex[i..i + 2], 16).unwrap());
    }
    blob
}

#[test]
fn decryption_reads_blobs_made_by_other_software() {
    // AES-256-CBC with PKCS padding, key of 32 bytes of value 1, zero vector.
    let key = [1u8; 32];
    assert_eq!(decrypt_password(&blob_of("0ef372c1f055fd661848fc4226f2018c"), &key).unwrap(), "ok");
    assert_eq!(decrypt_password(&blob_of("cce1a41155667587123071beb30ed5c8"), &key).unwrap(), "");
    assert_eq!(encrypt_with_iv("ok", &key, &[0; 16]), blob_of("0ef372c1f055fd661848fc4226f2018c"));
    assert_eq!(encrypt_with_iv("", &key, &[0; 16]), blob_of("cce1a41155667587123071beb30ed5c8"));
}

#[test]
fn decrypted_bytes_that_are_no_text_are_refused() {
    // The bytes ff fe 41, padded and encrypted under the same key and vector.
    let key = [1u8; 32];
    assert_eq!(
        decrypt_password(&blob_of("740b05312c97102bd0fa5a7d13ee5bbb"), &key),
        Err(VaultError::DecryptionError)
    );
}

#[test]
fn malformed_padding_is_refused() {
    let key = [1u8; 32];
    // A last byte of 0.
    assert_eq!(
        decrypt_password(&blob_of("77885d400061fb24aa8dd6f30150a7a7"), &key),
        Err(VaultError::DecryptionError)
    );
    // Sixteen bytes of 17.
    assert_eq!(
        decrypt_password(&blob_of("b9d390e1818f101f7eda574b08551cec"), &key),
        Err(VaultError::DecryptionError)
    );
    // A last byte of 3 after bytes of 1 and 2.
    assert_eq!(
        decrypt_password(&blob_of("3ce39e613ea5dffcd1193bd184d76d9f"), &key),
        Err(VaultError::DecryptionError)
    );
}

#[test]
fn a_vector_alone_is_no_blob() {
    // Without padding there is no empty ciphertext: the empty text takes a block.
    let key = [1u8; 32];
    assert_eq!(decrypt_password(&[0u8; 16], &key), Err(VaultError::DecryptionError));
    assert_eq!(encrypt_password("", &key).len(), 32);
}

#[test]
fn a_blob_is_the_vector_and_the_padded_text() {
    let key = [0u8; 32];
    assert_eq!(encrypt_password("supersecret", &key).len(), 32);
    assert_eq!(encrypt_password("", &key).len(), 32);
    assert_eq!(encrypt_password("fifteen chars!!", &key).len(), 32);
    assert_eq!(encrypt_password("exactly16bytes!!", &key).len(), 48);
    assert_eq!(encrypt_password("seventeen chars!!", &key).len(), 48);
    assert_eq!(encrypt_password(&"a".repeat(5000), &key).len(), 5024);
    // Two bytes for each character.
    assert_eq!(encrypt_password("éééééééé", &key).len(), 48);
    assert_eq!(encrypt_with_iv("supersecret", &key, &[7; 16]).len(), 32);
    assert_eq!(encrypt_with_iv(&"a".repeat(4096), &key, &[7; 16]).len(), 16 + 4096 + 16);
}

#[test]
fn blobs_with_different_vectors_differ() {
    let key = [5u8; 32];
    let first = encrypt_with_iv("same text", &key, &[1; 16]);
    let mut other = [1u8; 16];
    other[15] = 2;
    let second = encrypt_with_iv("same text", &key, &other);
    assert_ne!(first, second);
    assert_ne!(first[..16], second[..16]);
    assert_ne!(first[16..], second[16..]);
}

#[test]
fn the_hash_bound_counts_the_salt() {
    // With the 32 bytes of the salt the longest passphrase is hashed from
    // 2^61 - 1 bytes, the most whose length in bits fits in 64 bits.
    assert_eq!(MAX_HASH_INPUT_LEN, (1u64 << 61) - 33);
    assert_eq!(MAX_HASH_INPUT_LEN + 32, (1u64 << 61) - 1);
    assert!((MAX_HASH_INPUT_LEN + 32).checked_mul(8).is_some());
    assert!((MAX_HASH_INPUT_LEN + 1 + 32).checked_mul(8).is_none());
    assert!(hash_master(&"a".repeat(100_000), [0u8; 32]).is_ok());
}
