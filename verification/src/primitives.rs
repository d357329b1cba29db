//! The cryptographic primitives, which outside crates compute.
//!
//! Nothing here is proved. Each function states what the crate that it calls
//! documents of the call; the results that no short formula gives have a
//! name, and the contracts elsewhere in the library speak of those names.

use aes_gcm::aead::Aead;
use aes_gcm::aead::OsRng;
use aes_gcm::Aes256Gcm;
use aes_gcm::KeyInit;
use aes_gcm::Nonce;
use argon2::Argon2;
use hmac::Hmac;
use hmac::Mac;
use rand::RngCore;
use sha2::Sha256;
use vstd::prelude::*;

verus! {

/// `argon2::Error`: why Argon2 refused its inputs. Nothing is said of it.
#[verifier::external_type_specification]
#[verifier::external_body]
pub struct ExArgon2Error(argon2::Error);

/// `aes_gcm::Error`: the cipher's one failure. Nothing is said of it.
#[verifier::external_type_specification]
#[verifier::external_body]
pub struct ExAeadError(aes_gcm::Error);

/// `hmac::digest::InvalidLength`: a key of a length that a keyed algorithm
/// does not take. Nothing is said of it.
#[verifier::external_type_specification]
#[verifier::external_body]
pub struct ExInvalidLength(hmac::digest::InvalidLength);

/// `rand::Error`: why the system gave no random bytes. Nothing is said of it.
#[verifier::external_type_specification]
#[verifier::external_body]
pub struct ExRandError(rand::Error);

/// The 32 bytes that Argon2id, version 19, computes from a password and a
/// salt with the `argon2` crate's default parameters: 19 MiB of memory, two
/// passes, one lane, no secret key and no associated data.
pub uninterp spec fn argon2id_tag(password: Seq<u8>, salt: Seq<u8>) -> Seq<u8>;

/// The HMAC-SHA256 tag of a message under a key.
pub uninterp spec fn hmac_sha256(key: Seq<u8>, message: Seq<u8>) -> Seq<u8>;

/// What AES-256-GCM makes of a plaintext under a key and a 96-bit nonce, with
/// no associated data: the ciphertext followed by its 16-byte tag.
pub uninterp spec fn aes_gcm_sealed(key: Seq<u8>, nonce: Seq<u8>, plaintext: Seq<u8>) -> Seq<u8>;

/// The plaintext that AES-256-GCM recovers from a ciphertext and its tag
/// under a key and a 96-bit nonce, with no associated data, or `None` where
/// it rejects them.
pub uninterp spec fn aes_gcm_opened(key: Seq<u8>, nonce: Seq<u8>, sealed: Seq<u8>) -> Option<
    Seq<u8>,
>;

/// The lengths of password and salt that Argon2 takes: a password of at most
/// 2^32 - 1 bytes, and a salt of 8 to 2^32 - 1 bytes.
pub open spec fn argon2_takes(password_len: int, salt_len: int) -> bool {
    password_len <= 0xFFFF_FFFF && 8 <= salt_len <= 0xFFFF_FFFF
}

/// The largest plaintext that AES-GCM takes: 2^36 bytes.
pub open spec fn aes_gcm_takes(plaintext_len: int) -> bool {
    plaintext_len <= 0x10_0000_0000
}

/// `Argon2::hash_password_into` on `Argon2::default()`, with an output of 32
/// bytes. It checks the lengths of its inputs and nothing else about them, so
/// it succeeds exactly where `argon2_takes` holds; what it then returns
/// depends on the password and the salt alone.
#[verifier::external_body]
pub(crate) fn argon2id(password: &[u8], salt: &[u8]) -> (r: Result<[u8; 32], argon2::Error>)
    ensures
        r is Ok <==> argon2_takes(password@.len() as int, salt@.len() as int),
        r is Ok ==> r->Ok_0@ == argon2id_tag(password@, salt@),
{
    let mut tag = [0u8; 32];
    match Argon2::default().hash_password_into(password, salt, &mut tag) {
        Ok(()) => Ok(tag),
        Err(e) => Err(e),
    }
}

/// `Mac::new_from_slice`, `Mac::update` and `Mac::finalize` of
/// `Hmac<Sha256>`: the tag of `message` under `key`. HMAC takes a key of any
/// length, so the call never fails.
#[verifier::external_body]
pub(crate) fn hmac_sha256_tag(key: &[u8; 32], message: &[u8]) -> (r: Result<
    [u8; 32],
    hmac::digest::InvalidLength,
>)
    ensures
        r is Ok,
        r->Ok_0@ == hmac_sha256(key@, message@),
{
    let mut mac = <Hmac<Sha256> as Mac>::new_from_slice(key)?;
    mac.update(message);
    Ok(mac.finalize().into_bytes().into())
}

/// `Mac::new_from_slice`, `Mac::update` and `Mac::verify_slice` of
/// `Hmac<Sha256>`: whether `tag` is the tag of `message` under `key`. The
/// comparison takes the same time whatever the bytes are. HMAC takes a key
/// of any length, so the call never fails.
#[verifier::external_body]
pub(crate) fn hmac_sha256_verify(key: &[u8; 32], message: &[u8], tag: &[u8]) -> (r: Result<
    bool,
    hmac::digest::InvalidLength,
>)
    ensures
        r is Ok,
        r->Ok_0 == (tag@ == hmac_sha256(key@, message@)),
{
    let mut mac = <Hmac<Sha256> as Mac>::new_from_slice(key)?;
    mac.update(message);
    Ok(mac.verify_slice(tag).is_ok())
}

/// `Aead::encrypt` of `Aes256Gcm`, with no associated data. It refuses a
/// plaintext of more than 2^36 bytes and nothing else. What it returns is 16
/// bytes longer than the plaintext, and `Aead::decrypt` under the same key
/// and nonce gives the plaintext back.
///
/// The call reserves room for the plaintext and the tag at once, which
/// panics where their length is more than `isize::MAX`.
#[verifier::external_body]
pub(crate) fn aes_gcm_seal(key: &[u8; 32], nonce: &[u8], plaintext: &[u8]) -> (r: Result<
    Vec<u8>,
    aes_gcm::Error,
>)
    requires
        nonce@.len() == 12,
        plaintext@.len() + 16 <= isize::MAX,
    ensures
        r is Ok <==> aes_gcm_takes(plaintext@.len() as int),
        r is Ok ==> r->Ok_0@ == aes_gcm_sealed(key@, nonce@, plaintext@),
        r is Ok ==> r->Ok_0@.len() == plaintext@.len() + 16,
        r is Ok ==> aes_gcm_opened(key@, nonce@, r->Ok_0@) == Some(plaintext@),
{
    Aes256Gcm::new(key.into()).encrypt(Nonce::from_slice(nonce), plaintext)
}

/// `Aead::decrypt` of `Aes256Gcm`, with no associated data: the plaintext,
/// or an error where the tag at the end of `sealed` is not the tag of the
/// rest under this key and nonce.
#[verifier::external_body]
pub(crate) fn aes_gcm_open(key: &[u8; 32], nonce: &[u8], sealed: &[u8]) -> (r: Result<
    Vec<u8>,
    aes_gcm::Error,
>)
    requires
        nonce@.len() == 12,
    ensures
        r is Ok <==> aes_gcm_opened(key@, nonce@, sealed@) is Some,
        r is Ok ==> r->Ok_0@ == aes_gcm_opened(key@, nonce@, sealed@)->Some_0,
{
    Aes256Gcm::new(key.into()).decrypt(Nonce::from_slice(nonce), sealed)
}

/// `RngCore::try_fill_bytes` of `OsRng`: `N` bytes from the operating
/// system's random source, or its error. Nothing is known of the bytes.
#[verifier::external_body]
pub(crate) fn random_bytes<const N: usize>() -> (r: Result<[u8; N], rand::Error>) {
    let mut bytes = [0u8; N];
    match OsRng.try_fill_bytes(&mut bytes) {
        Ok(()) => Ok(bytes),
        Err(e) => Err(e),
    }
}

} // verus!
