//! The envelope: key derivation, sealing a record set into a blob, and
//! opening a blob.
//!
//! A blob is a 12-byte nonce, a 32-byte integrity tag, and a ciphertext. The
//! ciphertext is the encoded record set under AES-256-GCM with that nonce; the
//! tag is the HMAC-SHA256 of nonce and ciphertext under the same key. A blob
//! is opened only after its tag has been checked.

use crate::codec::append;
use crate::codec::decode;
use crate::codec::decoding;
use crate::codec::encodable;
use crate::codec::encode;
use crate::codec::encoding;
use crate::codec::lemma_decode_encode;
use crate::error::VaultError;
use crate::primitives::aes_gcm_open;
use crate::primitives::aes_gcm_opened;
use crate::primitives::aes_gcm_seal;
use crate::primitives::aes_gcm_sealed;
use crate::primitives::aes_gcm_takes;
use crate::primitives::argon2_takes;
use crate::primitives::argon2id;
use crate::primitives::argon2id_tag;
use crate::primitives::hmac_sha256;
use crate::primitives::hmac_sha256_tag;
use crate::primitives::hmac_sha256_verify;
use crate::primitives::random_bytes;
use crate::vault::EntryView;
use crate::vault::Vault;
use vstd::prelude::*;
use vstd::slice::*;
use vstd::utf8::*;

verus! {

/// The length of a key, in bytes.
pub const KEY_LEN: usize = 32;

/// The length of a nonce, in bytes.
pub const NONCE_LEN: usize = 12;

/// The length of an integrity tag, in bytes.
pub const TAG_LEN: usize = 32;

/// The length of the shortest blob: a nonce and a tag.
pub const HEADER_LEN: usize = 44;

/// The length of the salt of a store, in bytes.
pub const SALT_LEN: usize = 16;

/// The key that a password and a salt give, or the failure where Argon2
/// does not take them.
pub open spec fn derived_key(password: Seq<char>, salt: Seq<u8>) -> Result<Seq<u8>, VaultError> {
    if argon2_takes(encode_utf8(password).len() as int, salt.len() as int) {
        Ok(argon2id_tag(encode_utf8(password), salt))
    } else {
        Err(VaultError::KeyDerivationFailure)
    }
}

/// What a call of [`derive_key`] may return for a password and a salt.
pub open spec fn derives(password: Seq<char>, salt: Seq<u8>, r: Result<[u8; 32], VaultError>) -> bool {
    match r {
        Ok(key) => derived_key(password, salt) == Ok::<Seq<u8>, VaultError>(key@),
        Err(e) => derived_key(password, salt) == Err::<Seq<u8>, VaultError>(e),
    }
}

/// The nonce field of a blob.
pub open spec fn blob_nonce(blob: Seq<u8>) -> Seq<u8> {
    blob.subrange(0, 12)
}

/// The tag field of a blob.
pub open spec fn blob_tag(blob: Seq<u8>) -> Seq<u8> {
    blob.subrange(12, 44)
}

/// The ciphertext field of a blob.
pub open spec fn blob_ciphertext(blob: Seq<u8>) -> Seq<u8> {
    blob.skip(44)
}

/// What the tag of a blob vouches for: the nonce followed by the ciphertext.
pub open spec fn authenticated(blob: Seq<u8>) -> Seq<u8> {
    blob_nonce(blob) + blob_ciphertext(blob)
}

/// The blob is long enough, and its tag is the tag of its nonce and
/// ciphertext under `key`.
pub open spec fn authentic(blob: Seq<u8>, key: Seq<u8>) -> bool {
    blob.len() >= 44 && blob_tag(blob) == hmac_sha256(key, authenticated(blob))
}

/// The plaintext can be sealed: the cipher takes its length, and plaintext
/// and tag together are no longer than an allocation may be.
pub open spec fn can_seal(plaintext_len: int) -> bool {
    plaintext_len + 16 <= isize::MAX && aes_gcm_takes(plaintext_len)
}

/// The blob with one bit turned over: bit `bit` of the byte at `index`.
pub open spec fn flip_bit(blob: Seq<u8>, index: int, bit: u8) -> Seq<u8> {
    blob.update(index, blob[index] ^ (1u8 << bit))
}

/// The blob that holds `plaintext` under `key` and `nonce`.
pub open spec fn sealed_blob(plaintext: Seq<u8>, key: Seq<u8>, nonce: Seq<u8>) -> Seq<u8> {
    let ciphertext = aes_gcm_sealed(key, nonce, plaintext);
    nonce + hmac_sha256(key, nonce + ciphertext) + ciphertext
}

/// What opening a blob under a key gives: the plaintext, or the first check
/// that fails, in the order length, integrity tag, cipher.
pub open spec fn opened_blob(blob: Seq<u8>, key: Seq<u8>) -> Result<Seq<u8>, VaultError> {
    if blob.len() < 44 {
        Err(VaultError::InvalidBlobLength)
    } else if blob_tag(blob) != hmac_sha256(key, authenticated(blob)) {
        Err(VaultError::IntegrityMismatch)
    } else {
        match aes_gcm_opened(key, blob_nonce(blob), blob_ciphertext(blob)) {
            Some(plaintext) => Ok(plaintext),
            None => Err(VaultError::DecryptionFailure),
        }
    }
}

/// What decrypting a blob under a key gives: the record set that its
/// plaintext encodes, or the first check that fails.
pub open spec fn decrypted(blob: Seq<u8>, key: Seq<u8>) -> Result<Seq<EntryView>, VaultError> {
    match opened_blob(blob, key) {
        Ok(plaintext) => match decoding(plaintext) {
            Some(entries) => Ok(entries),
            None => Err(VaultError::DeserializationFailure),
        },
        Err(e) => Err(e),
    }
}

/// The fields of a sealed blob are the nonce, the tag and the ciphertext
/// that it was made of.
pub proof fn lemma_sealed_fields(plaintext: Seq<u8>, key: Seq<u8>, nonce: Seq<u8>)
    requires
        nonce.len() == 12,
        hmac_sha256(key, nonce + aes_gcm_sealed(key, nonce, plaintext)).len() == 32,
    ensures
        blob_nonce(sealed_blob(plaintext, key, nonce)) == nonce,
        blob_tag(sealed_blob(plaintext, key, nonce)) == hmac_sha256(
            key,
            nonce + aes_gcm_sealed(key, nonce, plaintext),
        ),
        blob_ciphertext(sealed_blob(plaintext, key, nonce)) == aes_gcm_sealed(
            key,
            nonce,
            plaintext,
        ),
        authentic(sealed_blob(plaintext, key, nonce), key),
{
    let blob = sealed_blob(plaintext, key, nonce);
    let ciphertext = aes_gcm_sealed(key, nonce, plaintext);
    let tag = hmac_sha256(key, nonce + ciphertext);
    assert(blob_nonce(blob) =~= nonce);
    assert(blob_tag(blob) =~= tag);
    assert(blob_ciphertext(blob) =~= ciphertext);
}

/// A store as it is kept: its salt, then its blob.
pub open spec fn stored(salt: Seq<u8>, blob: Seq<u8>) -> Seq<u8> {
    salt + blob
}

/// A fresh random salt for a new store.
///
/// Fails with `KeyDerivationFailure` where the system gave no random bytes,
/// and nowhere else. The salt is kept with the store: without it the key
/// cannot be derived again.
pub fn new_salt() -> (r: Result<[u8; 16], VaultError>)
    ensures
        r is Err ==> r->Err_0 == VaultError::KeyDerivationFailure,
{
    match random_bytes::<16>() {
        Ok(salt) => Ok(salt),
        Err(_) => Err(VaultError::KeyDerivationFailure),
    }
}

/// Puts the salt of a store in front of its blob.
pub fn join_salt(salt: &[u8; 16], blob: &[u8]) -> (file: Vec<u8>)
    ensures
        file@ == stored(salt@, blob@),
{
    let mut file: Vec<u8> = Vec::new();
    append(&mut file, salt.as_slice());
    append(&mut file, blob);
    file
}

/// Parts a stored file into its salt, the first 16 bytes, and its blob, the
/// rest. Fails with `InvalidBlobLength` exactly where the file is shorter
/// than a salt.
pub fn split_salt(file: &[u8]) -> (r: Result<(&[u8], &[u8]), VaultError>)
    ensures
        file@.len() >= 16 <==> r is Ok,
        r is Ok ==> r->Ok_0.0@ == file@.subrange(0, 16) && r->Ok_0.1@ == file@.skip(16),
        r is Ok ==> file@ == stored(r->Ok_0.0@, r->Ok_0.1@),
        r is Err ==> r->Err_0 == VaultError::InvalidBlobLength,
{
    if file.len() < SALT_LEN {
        return Err(VaultError::InvalidBlobLength);
    }
    let salt = slice_subrange(file, 0, SALT_LEN);
    let blob = slice_subrange(file, SALT_LEN, file.len());
    assert(blob@ =~= file@.skip(16));
    assert(file@ =~= salt@ + blob@);
    Ok((salt, blob))
}

/// Derives the key of a store from its password and its salt.
///
/// The key is the Argon2id tag of the password's UTF-8 form and the salt,
/// under the default work parameters: the same password and salt always give
/// the same key. The password may be empty. Fails with `KeyDerivationFailure`
/// exactly where the salt is shorter than 8 bytes, or the password or the
/// salt is longer than 2^32 - 1 bytes.
pub fn derive_key(password: &str, salt: &[u8]) -> (r: Result<[u8; 32], VaultError>)
    ensures
        derives(password@, salt@, r),
{
    match argon2id(password.as_bytes(), salt) {
        Ok(key) => Ok(key),
        Err(_) => Err(VaultError::KeyDerivationFailure),
    }
}

/// Seals `plaintext` under `key` with the given nonce.
///
/// The blob is the nonce, then the HMAC-SHA256 tag of nonce and ciphertext,
/// then the ciphertext. Fails with `EncryptionFailure` exactly where the
/// plaintext is too long to seal. A nonce must not be used twice with one
/// key.
pub fn seal(plaintext: &[u8], key: &[u8; 32], nonce: &[u8; 12]) -> (r: Result<Vec<u8>, VaultError>)
    ensures
        r is Ok <==> can_seal(plaintext@.len() as int),
        r is Ok ==> r->Ok_0@ == sealed_blob(plaintext@, key@, nonce@),
        r is Ok ==> opened_blob(r->Ok_0@, key@) == Ok::<Seq<u8>, VaultError>(plaintext@),
        r is Err ==> r->Err_0 == VaultError::EncryptionFailure,
{
    if plaintext.len() > isize::MAX as usize - 16 {
        return Err(VaultError::EncryptionFailure);
    }
    let ciphertext = match aes_gcm_seal(key, nonce.as_slice(), plaintext) {
        Ok(ciphertext) => ciphertext,
        Err(_) => {
            return Err(VaultError::EncryptionFailure);
        },
    };
    let mut message: Vec<u8> = Vec::new();
    append(&mut message, nonce.as_slice());
    append(&mut message, ciphertext.as_slice());
    assert(message@ =~= nonce@ + ciphertext@);
    let tag = match hmac_sha256_tag(key, message.as_slice()) {
        Ok(tag) => tag,
        Err(_) => {
            return Err(VaultError::EncryptionFailure);
        },
    };
    let mut blob: Vec<u8> = Vec::new();
    append(&mut blob, nonce.as_slice());
    append(&mut blob, tag.as_slice());
    append(&mut blob, ciphertext.as_slice());
    proof {
        lemma_sealed_fields(plaintext@, key@, nonce@);
    }
    Ok(blob)
}

/// Opens a blob under `key` and gives its plaintext.
///
/// The checks come in this order, and the first that fails decides:
/// `InvalidBlobLength` where the blob is shorter than 44 bytes;
/// `IntegrityMismatch` where its tag is not the tag of its nonce and
/// ciphertext under `key`; `DecryptionFailure` where the cipher rejects the
/// ciphertext. The cipher sees no blob whose tag did not match.
pub fn open(blob: &[u8], key: &[u8; 32]) -> (r: Result<Vec<u8>, VaultError>)
    ensures
        match r {
            Ok(plaintext) => opened_blob(blob@, key@) == Ok::<Seq<u8>, VaultError>(plaintext@),
            Err(e) => opened_blob(blob@, key@) == Err::<Seq<u8>, VaultError>(e),
        },
{
    if blob.len() < HEADER_LEN {
        return Err(VaultError::InvalidBlobLength);
    }
    let nonce = slice_subrange(blob, 0, NONCE_LEN);
    let tag = slice_subrange(blob, NONCE_LEN, HEADER_LEN);
    let ciphertext = slice_subrange(blob, HEADER_LEN, blob.len());
    assert(ciphertext@ =~= blob_ciphertext(blob@));
    let mut message: Vec<u8> = Vec::new();
    append(&mut message, nonce);
    append(&mut message, ciphertext);
    assert(message@ =~= authenticated(blob@));
    match hmac_sha256_verify(key, message.as_slice(), tag) {
        Ok(true) => {},
        _ => {
            return Err(VaultError::IntegrityMismatch);
        },
    }
    match aes_gcm_open(key, nonce, ciphertext) {
        Ok(plaintext) => Ok(plaintext),
        Err(_) => Err(VaultError::DecryptionFailure),
    }
}

/// Encrypts the record set under `key` with the given nonce.
///
/// The blob holds the encoding of the record set, sealed as [`seal`] says.
/// Decrypting it under the same key gives the record set back. Fails with
/// `EncryptionFailure` exactly where the encoding is too long to seal.
pub fn encrypt_vault_with_nonce(vault: &Vault, key: &[u8; 32], nonce: &[u8; 12]) -> (r: Result<
    Vec<u8>,
    VaultError,
>)
    ensures
        r is Ok <==> can_seal(encoding(vault@).len() as int),
        r is Ok ==> r->Ok_0@ == sealed_blob(encoding(vault@), key@, nonce@),
        r is Ok ==> decrypted(r->Ok_0@, key@) == Ok::<Seq<EntryView>, VaultError>(vault@),
        r is Err ==> r->Err_0 == VaultError::EncryptionFailure,
{
    let plaintext = encode(vault);
    seal(plaintext.as_slice(), key, nonce)
}

/// Encrypts the record set under `key` with a fresh random nonce.
///
/// Whatever nonce the system gave, the blob is the record set sealed with
/// it, and decrypting the blob under the same key gives the record set back.
/// Fails with `EncryptionFailure` where the encoding is too long to seal or
/// the system gave no random bytes, and nowhere else.
pub fn encrypt_vault(vault: &Vault, key: &[u8; 32]) -> (r: Result<Vec<u8>, VaultError>)
    ensures
        !can_seal(encoding(vault@).len() as int) ==> r is Err,
        r is Err ==> r->Err_0 == VaultError::EncryptionFailure,
        r is Ok ==> exists|nonce: Seq<u8>|
            nonce.len() == 12 && r->Ok_0@ == #[trigger] sealed_blob(encoding(vault@), key@, nonce),
        r is Ok ==> decrypted(r->Ok_0@, key@) == Ok::<Seq<EntryView>, VaultError>(vault@),
{
    match random_bytes::<12>() {
        Ok(nonce) => encrypt_vault_with_nonce(vault, key, &nonce),
        Err(_) => Err(VaultError::EncryptionFailure),
    }
}

/// Decrypts a blob under `key` and gives the record set that it holds.
///
/// The checks come in this order, and the first that fails decides:
/// `InvalidBlobLength` where the blob is shorter than 44 bytes;
/// `IntegrityMismatch` where its tag is not the tag of its nonce and
/// ciphertext under `key`; `DecryptionFailure` where the cipher rejects the
/// ciphertext; `DeserializationFailure` where the plaintext is not the
/// encoding of a record set. Nothing is returned of a blob that fails one.
pub fn decrypt_vault(data: &[u8], key: &[u8; 32]) -> (r: Result<Vault, VaultError>)
    ensures
        match r {
            Ok(vault) => decrypted(data@, key@) == Ok::<Seq<EntryView>, VaultError>(vault@),
            Err(e) => decrypted(data@, key@) == Err::<Seq<EntryView>, VaultError>(e),
        },
        data@.len() < 44 ==> r is Err && r->Err_0 == VaultError::InvalidBlobLength,
{
    match open(data, key) {
        Ok(plaintext) => decode(plaintext.as_slice()),
        Err(e) => Err(e),
    }
}

/// Parting undoes joining: a stored file parts into the salt and the blob
/// that it was joined from.
pub proof fn lemma_split_joined(salt: Seq<u8>, blob: Seq<u8>)
    requires
        salt.len() == 16,
    ensures
        stored(salt, blob).len() >= 16,
        stored(salt, blob).subrange(0, 16) == salt,
        stored(salt, blob).skip(16) == blob,
{
    assert(stored(salt, blob).subrange(0, 16) =~= salt);
    assert(stored(salt, blob).skip(16) =~= blob);
}

/// Key derivation is a function of password and salt: two calls on the same
/// password and salt return the same key, or the same failure.
pub proof fn lemma_derive_key_deterministic(
    password: Seq<char>,
    salt: Seq<u8>,
    first: Result<[u8; 32], VaultError>,
    second: Result<[u8; 32], VaultError>,
)
    requires
        derives(password, salt, first),
        derives(password, salt, second),
    ensures
        first == second,
{
    if first is Ok {
        assert(first->Ok_0@ =~= second->Ok_0@);
        assert(first->Ok_0 == second->Ok_0);
    }
}

/// Decryption undoes encryption: where the cipher opens what it sealed, the
/// blob that holds the encoding of a record set decrypts, under the same key,
/// to that record set.
pub proof fn lemma_decrypt_sealed(entries: Seq<EntryView>, key: Seq<u8>, nonce: Seq<u8>)
    requires
        encodable(entries),
        nonce.len() == 12,
        hmac_sha256(key, nonce + aes_gcm_sealed(key, nonce, encoding(entries))).len() == 32,
        aes_gcm_opened(key, nonce, aes_gcm_sealed(key, nonce, encoding(entries))) == Some(
            encoding(entries),
        ),
    ensures
        decrypted(sealed_blob(encoding(entries), key, nonce), key) == Ok::<
            Seq<EntryView>,
            VaultError,
        >(entries),
{
    lemma_sealed_fields(encoding(entries), key, nonce);
    lemma_decode_encode(entries);
}

/// A blob does not open under another key, unless the two keys give the same
/// tag: where the tag of nonce and ciphertext under the other key differs
/// from the tag in the blob, decryption under the other key fails with
/// `IntegrityMismatch`, and the cipher is not asked.
pub proof fn lemma_other_key_rejected(
    plaintext: Seq<u8>,
    key: Seq<u8>,
    other: Seq<u8>,
    nonce: Seq<u8>,
)
    requires
        nonce.len() == 12,
        hmac_sha256(key, nonce + aes_gcm_sealed(key, nonce, plaintext)).len() == 32,
        hmac_sha256(other, nonce + aes_gcm_sealed(key, nonce, plaintext)) != hmac_sha256(
            key,
            nonce + aes_gcm_sealed(key, nonce, plaintext),
        ),
    ensures
        decrypted(sealed_blob(plaintext, key, nonce), other) == Err::<Seq<EntryView>, VaultError>(
            VaultError::IntegrityMismatch,
        ),
{
    lemma_sealed_fields(plaintext, key, nonce);
}

/// Turning over a bit of a byte changes the byte.
proof fn lemma_bit_changes_byte(byte: u8, bit: u8)
    requires
        bit < 8,
    ensures
        byte ^ (1u8 << bit) != byte,
{
    assert(byte ^ (1u8 << bit) != byte) by (bit_vector)
        requires
            bit < 8,
    ;
}

/// Tampering is detected: a blob whose tag matched, with one bit turned
/// over, fails with `IntegrityMismatch`. For a bit of the tag this holds
/// always. For a bit of the nonce or the ciphertext it holds unless the
/// changed nonce and ciphertext have the tag of the unchanged ones.
pub proof fn lemma_bit_flip_rejected(blob: Seq<u8>, key: Seq<u8>, index: int, bit: u8)
    requires
        authentic(blob, key),
        0 <= index < blob.len(),
        bit < 8,
        12 <= index < 44 || hmac_sha256(key, authenticated(flip_bit(blob, index, bit)))
            != hmac_sha256(key, authenticated(blob)),
    ensures
        decrypted(flip_bit(blob, index, bit), key) == Err::<Seq<EntryView>, VaultError>(
            VaultError::IntegrityMismatch,
        ),
{
    let changed = flip_bit(blob, index, bit);
    lemma_bit_changes_byte(blob[index], bit);
    if 12 <= index < 44 {
        assert(authenticated(changed) =~= authenticated(blob));
        assert(blob_tag(changed)[index - 12] == changed[index]);
        assert(blob_tag(blob)[index - 12] == blob[index]);
    } else {
        assert(blob_tag(changed) =~= blob_tag(blob));
    }
}

/// Two nonces give two blobs: the same plaintext sealed under the same key
/// with different nonces gives different blobs.
pub proof fn lemma_nonce_distinguishes(
    plaintext: Seq<u8>,
    key: Seq<u8>,
    first: Seq<u8>,
    second: Seq<u8>,
)
    requires
        first.len() == 12,
        second.len() == 12,
        first != second,
    ensures
        sealed_blob(plaintext, key, first) != sealed_blob(plaintext, key, second),
{
    assert(sealed_blob(plaintext, key, first).subrange(0, 12) =~= first);
    assert(sealed_blob(plaintext, key, second).subrange(0, 12) =~= second);
}

/// A blob is refused for its length exactly where it is shorter than a nonce
/// and a tag, whatever the key.
pub proof fn lemma_short_blob(blob: Seq<u8>, key: Seq<u8>)
    ensures
        blob.len() < 44 <==> decrypted(blob, key) == Err::<Seq<EntryView>, VaultError>(
            VaultError::InvalidBlobLength,
        ),
{
}

} // verus!
