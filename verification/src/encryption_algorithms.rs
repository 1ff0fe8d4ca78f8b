//! Hashing of the master passphrase and encryption of single fields.
//!
//! A field is stored as a blob: a random 16-byte initialisation vector, then
//! the AES-256-CBC encryption of the PKCS-padded UTF-8 bytes of the text.

use crate::error::VaultError;
use crypto::aes::{cbc_decryptor, cbc_encryptor, KeySize};
use crypto::blockmodes::NoPadding;
use crypto::buffer::{BufferResult, ReadBuffer, RefReadBuffer, RefWriteBuffer, WriteBuffer};
use rand::Rng;
use sha2::{Digest, Sha256};
use vstd::prelude::*;
use vstd::slice::{slice_subrange, slice_to_vec};
use vstd::utf8::{decode_utf8, encode_utf8, encode_utf8_decode_utf8, encode_utf8_valid_utf8, valid_utf8};

verus! {

/// The longest passphrase, in bytes, that `hash_master` accepts: with the 32
/// bytes of the salt behind it, what is hashed stays below 2^61 bytes, so
/// that its length in bits still fits the 64 bits in which SHA-256 writes
/// it.
pub const MAX_HASH_INPUT_LEN: u64 = 0x1FFF_FFFF_FFFF_FFDF;

/// Whether a passphrase of `passphrase_len` bytes and a salt are together too
/// long to hash: their length in bits does not fit in 64 bits.
pub open spec fn too_long_to_hash(passphrase_len: nat) -> bool {
    (passphrase_len + 32) * 8 >= 0x1_0000_0000_0000_0000
}

/// A passphrase is longer than `MAX_HASH_INPUT_LEN` exactly where it is too
/// long to hash.
pub proof fn lemma_hash_bound(passphrase_len: nat)
    ensures
        passphrase_len > MAX_HASH_INPUT_LEN <==> too_long_to_hash(passphrase_len),
{
}

/// The SHA-256 digest of a byte string.
pub uninterp spec fn sha256(data: Seq<u8>) -> Seq<u8>;

/// AES-256 in CBC mode, without padding, applied to whole blocks.
pub uninterp spec fn aes256_cbc_encrypt(key: Seq<u8>, iv: Seq<u8>, blocks: Seq<u8>) -> Seq<u8>;

/// The inverse direction of `aes256_cbc_encrypt`, on whole blocks.
pub uninterp spec fn aes256_cbc_decrypt(key: Seq<u8>, iv: Seq<u8>, blocks: Seq<u8>) -> Seq<u8>;

/// The digest stored for, or derived from, a passphrase and a salt: the
/// SHA-256 of the passphrase's UTF-8 bytes followed by the salt.
pub open spec fn master_hash(password: Seq<char>, salt: Seq<u8>) -> Seq<u8> {
    sha256(encode_utf8(password) + salt)
}

/// The digest depends on nothing but the passphrase and the salt: the same
/// two always give the same digest.
pub proof fn lemma_hash_is_deterministic(
    password1: Seq<char>,
    salt1: Seq<u8>,
    password2: Seq<char>,
    salt2: Seq<u8>,
)
    requires
        password1 == password2,
        salt1 == salt2,
    ensures
        master_hash(password1, salt1) == master_hash(password2, salt2),
{
}

/// Two passphrases with salts of one length are hashed from different bytes
/// unless both the passphrases and the salts are the same, so that their
/// digests agree only where SHA-256 gives one digest to two inputs.
pub proof fn lemma_hash_inputs_differ(
    password1: Seq<char>,
    salt1: Seq<u8>,
    password2: Seq<char>,
    salt2: Seq<u8>,
)
    requires
        salt1.len() == salt2.len(),
        password1 != password2 || salt1 != salt2,
    ensures
        encode_utf8(password1) + salt1 != encode_utf8(password2) + salt2,
{
    let first = encode_utf8(password1);
    let second = encode_utf8(password2);
    if first + salt1 == second + salt2 {
        assert((first + salt1).len() == first.len() + salt1.len());
        assert((second + salt2).len() == second.len() + salt2.len());
        assert((first + salt1).take(first.len() as int) =~= first);
        assert((second + salt2).take(second.len() as int) =~= second);
        assert((first + salt1).skip(first.len() as int) =~= salt1);
        assert((second + salt2).skip(second.len() as int) =~= salt2);
        encode_utf8_decode_utf8(password1);
        encode_utf8_decode_utf8(password2);
    }
}

/// Calls `sha2::Sha256::digest` on `data`. Trusted: the 32 bytes returned are
/// the SHA-256 digest of `data`, a function of `data` alone.
#[verifier::external_body]
fn sha256_digest(data: &[u8]) -> (digest: [u8; 32])
    ensures
        digest@ == sha256(data@),
{
    let mut digest = [0u8; 32];
    digest.copy_from_slice(&Sha256::digest(data));
    digest
}

/// Hashes a passphrase together with a salt.
///
/// Fails with `InputTooLarge` where passphrase and salt are together too long
/// to hash, which is where the passphrase has more than `MAX_HASH_INPUT_LEN`
/// bytes.
pub fn hash_master(password: &str, salt: [u8; 32]) -> (result: Result<[u8; 32], VaultError>)
    ensures
        too_long_to_hash(encode_utf8(password@).len()) ==> result == Err::<[u8; 32], VaultError>(
            VaultError::InputTooLarge,
        ),
        !too_long_to_hash(encode_utf8(password@).len()) ==> result is Ok && result->Ok_0@
            == master_hash(password@, salt@),
{
    let bytes = password.as_bytes();
    if bytes.len() as u64 > MAX_HASH_INPUT_LEN {
        return Err(VaultError::InputTooLarge);
    }
    let mut input = slice_to_vec(bytes);
    let mut i: usize = 0;
    while i < 32
        invariant
            i <= 32,
            input@ == encode_utf8(password@) + salt@.take(i as int),
        decreases 32 - i,
    {
        input.push(salt[i]);
        assert(salt@.take(i + 1) == salt@.take(i as int).push(salt@[i as int]));
        i += 1;
    }
    assert(salt@.take(32) == salt@);
    Ok(sha256_digest(input.as_slice()))
}

/// The PKCS padding of `data` to whole blocks: between 1 and 16 bytes are
/// appended, each holding their number.
pub open spec fn pkcs_pad(data: Seq<u8>) -> Seq<u8> {
    let n = 16 - data.len() % 16;
    data + Seq::new(n as nat, |i: int| n as u8)
}

/// Whether `padded` ends in a well-formed PKCS padding of `n` bytes.
pub open spec fn ends_in_padding(padded: Seq<u8>, n: int) -> bool {
    &&& 1 <= n <= 16
    &&& n <= padded.len()
    &&& forall|i: int| padded.len() - n <= i < padded.len() ==> padded[i] == n
}

/// What is left of `padded` once its PKCS padding is taken off, or `None`
/// where it does not end in one.
pub open spec fn pkcs_unpad(padded: Seq<u8>) -> Option<Seq<u8>> {
    if padded.len() > 0 && ends_in_padding(padded, padded.last() as int) {
        Some(padded.take(padded.len() - padded.last()))
    } else {
        None
    }
}

/// The blob that holds `text` encrypted under `key` with the vector `iv`.
pub open spec fn sealed(key: Seq<u8>, iv: Seq<u8>, text: Seq<char>) -> Seq<u8> {
    iv + aes256_cbc_encrypt(key, iv, pkcs_pad(encode_utf8(text)))
}

/// The text that `blob` holds for `key`, or `None` where the key has the
/// wrong length, the blob is no vector followed by whole blocks, the padding
/// is malformed or the bytes are no UTF-8.
pub open spec fn opened(blob: Seq<u8>, key: Seq<u8>) -> Option<Seq<char>> {
    if key.len() != 32 || blob.len() < 32 || blob.len() % 16 != 0 {
        None
    } else {
        match pkcs_unpad(aes256_cbc_decrypt(key, blob.take(16), blob.skip(16))) {
            Some(bytes) => if valid_utf8(bytes) {
                Some(decode_utf8(bytes))
            } else {
                None
            },
            None => None,
        }
    }
}

/// The length of the blob that holds a text of `text_len` bytes: the vector,
/// then the whole blocks of the text, then one more block, which the
/// padding fills or completes.
pub open spec fn blob_len(text_len: nat) -> nat {
    16 + 16 * (text_len / 16 + 1)
}

/// Padded data is the next whole number of blocks above the data, and taking
/// the padding off gives the data back.
pub proof fn lemma_unpad_pad(data: Seq<u8>)
    ensures
        pkcs_pad(data).len() % 16 == 0,
        pkcs_pad(data).len() >= 16,
        pkcs_pad(data).len() == 16 * (data.len() / 16 + 1),
        pkcs_unpad(pkcs_pad(data)) == Some(data),
{
    let n = 16 - data.len() % 16;
    let padded = pkcs_pad(data);
    assert(padded.len() == data.len() + n);
    assert(padded.last() == n as u8);
    assert(ends_in_padding(padded, n));
    assert(padded.take(padded.len() - n) =~= data);
}

/// Blobs made with different vectors differ, whatever they hold.
pub proof fn lemma_vectors_tell_blobs_apart(
    key: Seq<u8>,
    iv1: Seq<u8>,
    text1: Seq<char>,
    iv2: Seq<u8>,
    text2: Seq<char>,
)
    requires
        iv1.len() == 16,
        iv2.len() == 16,
        iv1 != iv2,
    ensures
        sealed(key, iv1, text1) != sealed(key, iv2, text2),
{
    assert(sealed(key, iv1, text1).take(16) =~= iv1);
    assert(sealed(key, iv2, text2).take(16) =~= iv2);
}

/// Runs `crypto::aes::cbc_encryptor` for AES-256 without padding over
/// `blocks`, feeding the encryptor until it reports that the input is used up.
/// Trusted: the output is the CBC encryption of `blocks`, a function of key,
/// vector and input alone; it is as long as the input; and CBC decryption
/// under the same key and vector turns it back into `blocks`.
#[verifier::external_body]
fn cbc_encrypt_blocks(blocks: &[u8], key: &[u8], iv: &[u8]) -> (out: Vec<u8>)
    requires
        key@.len() == 32,
        iv@.len() == 16,
        blocks@.len() % 16 == 0,
    ensures
        out@ == aes256_cbc_encrypt(key@, iv@, blocks@),
        out@.len() == blocks@.len(),
        aes256_cbc_decrypt(key@, iv@, out@) == blocks@,
{
    let mut encryptor = cbc_encryptor(KeySize::KeySize256, key, iv, NoPadding);
    let mut read_buffer = RefReadBuffer::new(blocks);
    let mut buffer = [0; 4096];
    let mut write_buffer = RefWriteBuffer::new(&mut buffer);
    let mut out = Vec::new();
    loop {
        let result = encryptor.encrypt(&mut read_buffer, &mut write_buffer, true).unwrap();
        out.extend(write_buffer.take_read_buffer().take_remaining().iter().copied());
        match result {
            BufferResult::BufferUnderflow => break,
            BufferResult::BufferOverflow => {},
        }
    }
    out
}

/// Runs `crypto::aes::cbc_decryptor` for AES-256 without padding over
/// `blocks`, feeding the decryptor until it reports that the input is used up.
/// Trusted: the output is the CBC decryption of `blocks`, a function of key,
/// vector and input alone, and as long as the input.
#[verifier::external_body]
fn cbc_decrypt_blocks(blocks: &[u8], key: &[u8], iv: &[u8]) -> (out: Vec<u8>)
    requires
        key@.len() == 32,
        iv@.len() == 16,
        blocks@.len() % 16 == 0,
    ensures
        out@ == aes256_cbc_decrypt(key@, iv@, blocks@),
        out@.len() == blocks@.len(),
{
    let mut decryptor = cbc_decryptor(KeySize::KeySize256, key, iv, NoPadding);
    let mut read_buffer = RefReadBuffer::new(blocks);
    let mut buffer = [0; 4096];
    let mut write_buffer = RefWriteBuffer::new(&mut buffer);
    let mut out = Vec::new();
    loop {
        let result = decryptor.decrypt(&mut read_buffer, &mut write_buffer, true).unwrap();
        out.extend(write_buffer.take_read_buffer().take_remaining().iter().copied());
        match result {
            BufferResult::BufferUnderflow => break,
            BufferResult::BufferOverflow => {},
        }
    }
    out
}

/// Draws an initialisation vector from `rand::thread_rng`. Nothing is
/// promised of the bytes.
#[verifier::external_body]
fn random_iv() -> [u8; 16] {
    rand::thread_rng().gen()
}

/// Calls `String::from_utf8`. Trusted: it succeeds exactly on well-formed
/// UTF-8 and then yields the text that the bytes encode.
#[verifier::external_body]
fn string_from_utf8(bytes: Vec<u8>) -> (text: Option<String>)
    ensures
        text is Some <==> valid_utf8(bytes@),
        text is Some ==> text->0@ == decode_utf8(bytes@),
{
    String::from_utf8(bytes).ok()
}

/// Appends the PKCS padding to `data`.
pub fn pad_blocks(data: &[u8]) -> (padded: Vec<u8>)
    ensures
        padded@ == pkcs_pad(data@),
{
    let n: u8 = (16 - data.len() % 16) as u8;
    let mut padded = slice_to_vec(data);
    let mut i: u8 = 0;
    while i < n
        invariant
            i <= n,
            n == 16 - data@.len() % 16,
            padded@ == data@ + Seq::new(i as nat, |j: int| n),
        decreases n - i,
    {
        padded.push(n);
        i += 1;
        assert(padded@ =~= data@ + Seq::new(i as nat, |j: int| n));
    }
    assert(padded@ =~= pkcs_pad(data@));
    padded
}

/// Takes the PKCS padding off `padded`, or returns `None` where it does not
/// end in a well-formed one.
pub fn strip_padding(padded: Vec<u8>) -> (data: Option<Vec<u8>>)
    ensures
        data is Some <==> pkcs_unpad(padded@) is Some,
        data is Some ==> Some(data->0@) == pkcs_unpad(padded@),
{
    let len = padded.len();
    if len == 0 {
        return None;
    }
    let last = padded[len - 1];
    let n = last as usize;
    if n < 1 || n > 16 || n > len {
        return None;
    }
    let mut i: usize = len - n;
    while i < len
        invariant
            len == padded@.len(),
            last == padded@.last(),
            n == last,
            1 <= n <= 16,
            n <= len,
            len - n <= i <= len,
            forall|j: int| len - n <= j < i ==> padded@[j] == last,
        decreases len - i,
    {
        if padded[i] != last {
            assert(!ends_in_padding(padded@, last as int));
            return None;
        }
        i += 1;
    }
    assert(ends_in_padding(padded@, last as int));
    let mut data = padded;
    data.truncate(len - n);
    Some(data)
}

/// Encrypts `password` under `key` with the given initialisation vector.
///
/// The blob is the vector followed by as many bytes of ciphertext as the
/// padded text has.
pub fn encrypt_with_iv(password: &str, key: &[u8; 32], iv: &[u8; 16]) -> (blob: Vec<u8>)
    ensures
        blob@ == sealed(key@, iv@, password@),
        blob@.len() == 16 + pkcs_pad(encode_utf8(password@)).len(),
        blob@.len() == blob_len(encode_utf8(password@).len()),
        opened(blob@, key@) == Some(password@),
{
    let padded = pad_blocks(password.as_bytes());
    proof {
        lemma_unpad_pad(encode_utf8(password@));
        encode_utf8_valid_utf8(password@);
        encode_utf8_decode_utf8(password@);
    }
    let mut cipher = cbc_encrypt_blocks(padded.as_slice(), key.as_slice(), iv.as_slice());
    let mut blob = slice_to_vec(iv.as_slice());
    blob.append(&mut cipher);
    assert(blob@.take(16) =~= iv@);
    assert(blob@.skip(16) =~= aes256_cbc_encrypt(key@, iv@, padded@));
    blob
}

/// Encrypts a password, an account name or a website name under `key`, with
/// a fresh random initialisation vector in front of the ciphertext.
///
/// Whatever vector was drawn, decrypting the blob under `key` gives
/// `password` back.
pub fn encrypt_password(password: &str, key: &[u8; 32]) -> (blob: Vec<u8>)
    ensures
        blob@ == sealed(key@, blob@.take(16), password@),
        blob@.len() == 16 + pkcs_pad(encode_utf8(password@)).len(),
        blob@.len() == blob_len(encode_utf8(password@).len()),
        opened(blob@, key@) == Some(password@),
{
    let iv = random_iv();
    let blob = encrypt_with_iv(password, key, &iv);
    assert(blob@.take(16) =~= iv@);
    blob
}

/// Decrypts a blob made by `encrypt_password`.
///
/// Fails with `DecryptionError` where the key is not 32 bytes long, the blob
/// is not a vector followed by whole blocks, the padding is malformed or the
/// decrypted bytes are not UTF-8: the signs of a wrong key or damaged data.
pub fn decrypt_password(encrypted_data: &[u8], key: &[u8]) -> (result: Result<String, VaultError>)
    ensures
        match opened(encrypted_data@, key@) {
            Some(text) => result is Ok && result->Ok_0@ == text,
            None => result == Err::<String, VaultError>(VaultError::DecryptionError),
        },
{
    let len = encrypted_data.len();
    if key.len() != 32 || len < 32 || len % 16 != 0 {
        return Err(VaultError::DecryptionError);
    }
    let iv = slice_subrange(encrypted_data, 0, 16);
    let cipher = slice_subrange(encrypted_data, 16, len);
    assert(iv@ =~= encrypted_data@.take(16));
    assert(cipher@ =~= encrypted_data@.skip(16));
    let padded = cbc_decrypt_blocks(cipher, key, iv);
    match strip_padding(padded) {
        Some(bytes) => match string_from_utf8(bytes) {
            Some(text) => Ok(text),
            None => Err(VaultError::DecryptionError),
        },
        None => Err(VaultError::DecryptionError),
    }
}

} // verus!
