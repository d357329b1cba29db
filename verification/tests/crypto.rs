use aes_gcm::aead::Aead;
use aes_gcm::Aes256Gcm;
use aes_gcm::KeyInit;
use aes_gcm::Nonce;
use argon2::Argon2;
use hmac::Hmac;
use hmac::Mac;
use secure_vault::codec::encode;
use secure_vault::crypto::decrypt_vault;
use secure_vault::crypto::derive_key;
use secure_vault::crypto::encrypt_vault;
use secure_vault::crypto::encrypt_vault_with_nonce;
use secure_vault::crypto::join_salt;
use secure_vault::crypto::new_salt;
use secure_vault::crypto::open;
use secure_vault::crypto::seal;
use secure_vault::crypto::split_salt;
use secure_vault::crypto::HEADER_LEN;
use secure_vault::crypto::KEY_LEN;
use secure_vault::crypto::NONCE_LEN;
use secure_vault::crypto::SALT_LEN;
use secure_vault::crypto::TAG_LEN;
use secure_vault::error::VaultError;
use secure_vault::vault::PasswordEntry;
use secure_vault::vault::Secret;
use secure_vault::vault::Vault;
use sha2::Sha256;

const KEY_A: [u8; 32] = [0x11; 32];
const KEY_B: [u8; 32] = [0x22; 32];
const NONCE: [u8; 12] = [1, 2, 3, 4, 5, 6, 7, 8, 9, 10, 11, 12];
const SALT: [u8; 16] = [0, 1, 2, 3, 4, 5, 6, 7, 8, 9, 10, 11, 12, 13, 14, 15];

fn sample() -> Vault {
    let mut vault = Vault::new();
    vault.entries.push(PasswordEntry {
        account: "github".to_string(),
        password: Secret::new("hunter2".to_string()),
    });
    vault.entries.push(PasswordEntry {
        account: "email".to_string(),
        password: Secret::new("p@ss".to_string()),
    });
    vault
}

fn pairs_of(vault: &Vault) -> Vec<(String, String)> {
    let mut pairs = Vec::new();
    for e in &vault.entries {
        pairs.push((e.account.clone(), e.password.as_str().to_string()));
    }
    pairs
}

fn sample_pairs() -> Vec<(String, String)> {
    vec![
        ("github".to_string(), "hunter2".to_string()),
        ("email".to_string(), "p@ss".to_string()),
    ]
}

fn tag_of(key: &[u8; 32], message: &[u8]) -> Vec<u8> {
    let mut mac = <Hmac<Sha256> as Mac>::new_from_slice(key).expect("any key length");
    mac.update(message);
    mac.finalize().into_bytes().to_vec()
}

#[test]
fn the_lengths_are_those_of_the_layout() {
    assert_eq!(KEY_LEN, 32);
    assert_eq!(NONCE_LEN, 12);
    assert_eq!(TAG_LEN, 32);
    assert_eq!(HEADER_LEN, 44);
    assert_eq!(SALT_LEN, 16);
}

#[test]
fn end_to_end_with_a_derived_key() {
    let key = derive_key("correct horse", &SALT).ok().expect("derives");
    let blob = encrypt_vault(&sample(), &key).ok().expect("encrypts");
    let back = decrypt_vault(&blob, &key).ok().expect("decrypts");
    assert_eq!(back.entries.len(), 2);
    assert_eq!(back.entries[0].account, "github");
    assert_eq!(back.entries[0].password.as_str(), "hunter2");
    assert_eq!(back.entries[1].account, "email");
    assert_eq!(back.entries[1].password.as_str(), "p@ss");
}

#[test]
fn decrypt_undoes_encrypt() {
    let blob = encrypt_vault(&sample(), &KEY_A).ok().expect("encrypts");
    let back = decrypt_vault(&blob, &KEY_A).ok().expect("decrypts");
    assert_eq!(pairs_of(&back), sample_pairs());
}

#[test]
fn decrypt_undoes_encrypt_on_an_empty_vault() {
    let blob = encrypt_vault(&Vault::new(), &KEY_A).ok().expect("encrypts");
    assert_eq!(blob.len(), 44 + 8 + 16);
    let back = decrypt_vault(&blob, &KEY_A).ok().expect("decrypts");
    assert_eq!(back.entries.len(), 0);
}

#[test]
fn decrypt_undoes_encrypt_with_a_given_nonce() {
    let blob = encrypt_vault_with_nonce(&sample(), &KEY_B, &NONCE).ok().expect("encrypts");
    let back = decrypt_vault(&blob, &KEY_B).ok().expect("decrypts");
    assert_eq!(pairs_of(&back), sample_pairs());
}

#[test]
fn a_blob_is_nonce_then_tag_then_ciphertext() {
    let vault = sample();
    let plaintext = encode(&vault);
    let blob = encrypt_vault_with_nonce(&vault, &KEY_A, &NONCE).ok().expect("encrypts");
    let cipher = Aes256Gcm::new_from_slice(&KEY_A).expect("32 bytes");
    let ciphertext =
        cipher.encrypt(Nonce::from_slice(&NONCE), plaintext.as_slice()).expect("encrypts");
    let mut message = NONCE.to_vec();
    message.extend_from_slice(&ciphertext);
    assert_eq!(blob.len(), 44 + plaintext.len() + 16);
    assert_eq!(&blob[..12], &NONCE[..]);
    assert_eq!(&blob[12..44], tag_of(&KEY_A, &message).as_slice());
    assert_eq!(&blob[44..], ciphertext.as_slice());
}

#[test]
fn seal_gives_the_same_blob_for_the_same_nonce() {
    let first = seal(b"plain", &KEY_A, &NONCE).ok().expect("seals");
    let second = seal(b"plain", &KEY_A, &NONCE).ok().expect("seals");
    assert_eq!(first, second);
    assert_eq!(first.len(), 44 + 5 + 16);
    assert_ne!(&first[44..49], b"plain");
}

#[test]
fn open_undoes_seal() {
    let blob = seal(b"some bytes", &KEY_A, &NONCE).ok().expect("seals");
    assert_eq!(open(&blob, &KEY_A).ok(), Some(b"some bytes".to_vec()));
    let empty = seal(b"", &KEY_A, &NONCE).ok().expect("seals");
    assert_eq!(empty.len(), 60);
    assert_eq!(open(&empty, &KEY_A).ok(), Some(Vec::new()));
}

#[test]
fn open_reads_what_the_outside_crates_wrote() {
    let cipher = Aes256Gcm::new_from_slice(&KEY_B).expect("32 bytes");
    let ciphertext = cipher.encrypt(Nonce::from_slice(&NONCE), &b"by hand"[..]).expect("encrypts");
    let mut message = NONCE.to_vec();
    message.extend_from_slice(&ciphertext);
    let mut blob = NONCE.to_vec();
    blob.extend_from_slice(&tag_of(&KEY_B, &message));
    blob.extend_from_slice(&ciphertext);
    assert_eq!(open(&blob, &KEY_B).ok(), Some(b"by hand".to_vec()));
}

#[test]
fn another_key_is_rejected() {
    let blob = encrypt_vault(&sample(), &KEY_A).ok().expect("encrypts");
    assert_eq!(decrypt_vault(&blob, &KEY_B).err(), Some(VaultError::IntegrityMismatch));
    let mut near = KEY_A;
    near[31] ^= 1;
    assert_eq!(decrypt_vault(&blob, &near).err(), Some(VaultError::IntegrityMismatch));
}

#[test]
fn a_key_from_another_password_is_rejected() {
    let right = derive_key("correct horse", &SALT).ok().expect("derives");
    let wrong = derive_key("correct horsf", &SALT).ok().expect("derives");
    let blob = encrypt_vault(&sample(), &right).ok().expect("encrypts");
    assert_eq!(decrypt_vault(&blob, &wrong).err(), Some(VaultError::IntegrityMismatch));
}

#[test]
fn every_flipped_bit_is_detected() {
    let blob = encrypt_vault_with_nonce(&sample(), &KEY_A, &NONCE).ok().expect("encrypts");
    for index in 0..blob.len() {
        for bit in 0..8u8 {
            let mut changed = blob.clone();
            changed[index] ^= 1u8 << bit;
            assert_eq!(
                decrypt_vault(&changed, &KEY_A).err(),
                Some(VaultError::IntegrityMismatch)
            );
        }
    }
}

#[test]
fn a_cut_or_lengthened_blob_is_rejected() {
    let blob = encrypt_vault_with_nonce(&sample(), &KEY_A, &NONCE).ok().expect("encrypts");
    let cut = &blob[..blob.len() - 1];
    assert_eq!(decrypt_vault(cut, &KEY_A).err(), Some(VaultError::IntegrityMismatch));
    let mut longer = blob.clone();
    longer.push(0);
    assert_eq!(decrypt_vault(&longer, &KEY_A).err(), Some(VaultError::IntegrityMismatch));
}

#[test]
fn a_matching_tag_over_a_bad_ciphertext_fails_in_the_cipher() {
    let ciphertext = vec![0u8; 20];
    let mut message = NONCE.to_vec();
    message.extend_from_slice(&ciphertext);
    let mut blob = NONCE.to_vec();
    blob.extend_from_slice(&tag_of(&KEY_A, &message));
    blob.extend_from_slice(&ciphertext);
    assert_eq!(decrypt_vault(&blob, &KEY_A).err(), Some(VaultError::DecryptionFailure));
    assert_eq!(open(&blob, &KEY_A).err(), Some(VaultError::DecryptionFailure));
}

#[test]
fn a_matching_tag_over_no_ciphertext_fails_in_the_cipher() {
    let mut blob = NONCE.to_vec();
    blob.extend_from_slice(&tag_of(&KEY_A, &NONCE));
    assert_eq!(blob.len(), 44);
    assert_eq!(decrypt_vault(&blob, &KEY_A).err(), Some(VaultError::DecryptionFailure));
}

#[test]
fn a_sealed_plaintext_that_is_no_record_set_fails_in_decoding() {
    let blob = seal(b"not a record set", &KEY_A, &NONCE).ok().expect("seals");
    assert_eq!(decrypt_vault(&blob, &KEY_A).err(), Some(VaultError::DeserializationFailure));
    let trailing = {
        let mut bytes = encode(&sample());
        bytes.push(0);
        seal(&bytes, &KEY_A, &NONCE).ok().expect("seals")
    };
    assert_eq!(decrypt_vault(&trailing, &KEY_A).err(), Some(VaultError::DeserializationFailure));
}

#[test]
fn successive_encryptions_differ() {
    let vault = sample();
    let first = encrypt_vault(&vault, &KEY_A).ok().expect("encrypts");
    let second = encrypt_vault(&vault, &KEY_A).ok().expect("encrypts");
    assert_ne!(first, second);
    assert_ne!(&first[..12], &second[..12]);
    assert_eq!(first.len(), second.len());
}

#[test]
fn different_nonces_give_different_blobs() {
    let mut other = NONCE;
    other[11] ^= 0x80;
    let first = seal(b"plain", &KEY_A, &NONCE).ok().expect("seals");
    let second = seal(b"plain", &KEY_A, &other).ok().expect("seals");
    assert_ne!(first, second);
}

#[test]
fn a_blob_shorter_than_nonce_and_tag_is_refused() {
    for len in 0..44usize {
        let blob = vec![0u8; len];
        assert_eq!(decrypt_vault(&blob, &KEY_A).err(), Some(VaultError::InvalidBlobLength));
        assert_eq!(open(&blob, &KEY_A).err(), Some(VaultError::InvalidBlobLength));
    }
}

#[test]
fn a_blob_of_44_bytes_is_not_refused_for_its_length() {
    let blob = vec![0u8; 44];
    assert_eq!(decrypt_vault(&blob, &KEY_A).err(), Some(VaultError::IntegrityMismatch));
}

#[test]
fn a_cut_produced_blob_is_refused_for_its_length() {
    let blob = encrypt_vault(&sample(), &KEY_A).ok().expect("encrypts");
    assert_eq!(decrypt_vault(&blob[..43], &KEY_A).err(), Some(VaultError::InvalidBlobLength));
}

#[test]
fn derive_key_is_deterministic() {
    let first = derive_key("correct horse", &SALT);
    let second = derive_key("correct horse", &SALT);
    assert!(first.is_ok());
    assert_eq!(first, second);
}

#[test]
fn derive_key_depends_on_the_salt() {
    let mut other = SALT;
    other[0] ^= 1;
    let first = derive_key("correct horse", &SALT).ok().expect("derives");
    let second = derive_key("correct horse", &other).ok().expect("derives");
    assert_ne!(first, second);
}

#[test]
fn derive_key_depends_on_the_password() {
    let first = derive_key("correct horse", &SALT).ok().expect("derives");
    let second = derive_key("Correct horse", &SALT).ok().expect("derives");
    assert_ne!(first, second);
}

#[test]
fn derive_key_is_argon2id_with_default_parameters() {
    let mut expected = [0u8; 32];
    Argon2::default()
        .hash_password_into("pässword".as_bytes(), &SALT, &mut expected)
        .expect("hashes");
    assert_eq!(derive_key("pässword", &SALT), Ok(expected));
    assert_ne!(expected, [0u8; 32]);
}

#[test]
fn derive_key_takes_an_empty_password() {
    let key = derive_key("", &SALT).ok().expect("derives");
    assert_ne!(key, [0u8; 32]);
}

#[test]
fn derive_key_takes_a_salt_of_eight_bytes_and_no_shorter() {
    assert!(derive_key("pw", &SALT[..8]).is_ok());
    assert_eq!(derive_key("pw", &SALT[..7]), Err(VaultError::KeyDerivationFailure));
    assert_eq!(derive_key("pw", &[]), Err(VaultError::KeyDerivationFailure));
}

#[test]
fn new_salt_gives_fresh_bytes() {
    let first = new_salt().ok().expect("random bytes");
    let second = new_salt().ok().expect("random bytes");
    assert_eq!(first.len(), 16);
    assert_ne!(first, second);
}

#[test]
fn split_salt_undoes_join_salt() {
    let file = join_salt(&SALT, &[9, 8, 7]);
    assert_eq!(file.len(), 19);
    assert_eq!(&file[..16], &SALT[..]);
    assert_eq!(split_salt(&file), Ok((&SALT[..], &[9u8, 8, 7][..])));
    let bare = join_salt(&SALT, &[]);
    assert_eq!(split_salt(&bare), Ok((&SALT[..], &[][..])));
}

#[test]
fn split_salt_refuses_a_file_shorter_than_a_salt() {
    for len in 0..16usize {
        let file = vec![1u8; len];
        assert_eq!(split_salt(&file), Err(VaultError::InvalidBlobLength));
    }
}

#[test]
fn a_stored_file_opens_again_with_the_password() {
    let salt = new_salt().ok().expect("random bytes");
    let key = derive_key("correct horse", &salt).ok().expect("derives");
    let blob = encrypt_vault(&sample(), &key).ok().expect("encrypts");
    let file = join_salt(&salt, &blob);
    let (read_salt, read_blob) = split_salt(&file).ok().expect("long enough");
    let again = derive_key("correct horse", read_salt).ok().expect("derives");
    assert_eq!(again, key);
    let back = decrypt_vault(read_blob, &again).ok().expect("decrypts");
    assert_eq!(pairs_of(&back), sample_pairs());
}

#[test]
fn every_error_has_its_message() {
    assert_eq!(VaultError::KeyDerivationFailure.message(), "Key derivation failed");
    assert_eq!(VaultError::InvalidBlobLength.message(), "Invalid data length");
    assert_eq!(VaultError::IntegrityMismatch.message(), "HMAC mismatch");
    assert_eq!(VaultError::DecryptionFailure.message(), "Decryption failed");
    assert_eq!(VaultError::EncryptionFailure.message(), "Encryption failed");
    assert_eq!(VaultError::SerializationFailure.message(), "Vault serialization failed");
    assert_eq!(VaultError::DeserializationFailure.message(), "Vault deserialization failed");
}
