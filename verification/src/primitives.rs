//! The cryptographic primitives, taken from the RustCrypto crates.
//!
//! Nothing in this file is verified. Each function makes one outside
//! computation and says which named value comes back; the names carry no
//! definition, so the rest of the library is verified for whatever these
//! primitives compute.

use aes::cipher::block_padding::Pkcs7;
use aes::cipher::{BlockDecryptMut, BlockEncryptMut, KeyIvInit};
use hmac::Mac;
use rand::{RngCore, SeedableRng};
use sha2::Digest;
use vstd::prelude::*;

verus! {

/// The first `length` bytes that PBKDF2 with HMAC-SHA256 derives from
/// `password` and `salt` in `rounds` iterations.
pub uninterp spec fn pbkdf2_hmac_sha256(
    password: Seq<u8>,
    salt: Seq<u8>,
    rounds: u32,
    length: nat,
) -> Seq<u8>;

/// The HMAC-SHA256 tag of `message` under `key`.
pub uninterp spec fn hmac_sha256(key: Seq<u8>, message: Seq<u8>) -> Seq<u8>;

/// The SHA-256 digest of `message`.
pub uninterp spec fn sha256(message: Seq<u8>) -> Seq<u8>;

/// The AES-128-CBC ciphertext of `plaintext` with PKCS#7 padding.
pub uninterp spec fn aes128_cbc_encrypted(key: Seq<u8>, iv: Seq<u8>, plaintext: Seq<u8>) -> Seq<
    u8,
>;

/// What AES-128-CBC decryption with PKCS#7 unpadding makes of `ciphertext`;
/// `None` where the length or the padding is wrong.
pub uninterp spec fn aes128_cbc_decrypted(key: Seq<u8>, iv: Seq<u8>, ciphertext: Seq<u8>) -> Option<
    Seq<u8>,
>;

/// What AES-256-CBC decryption with PKCS#7 unpadding makes of `ciphertext`;
/// `None` where the length or the padding is wrong.
pub uninterp spec fn aes256_cbc_decrypted(key: Seq<u8>, iv: Seq<u8>, ciphertext: Seq<u8>) -> Option<
    Seq<u8>,
>;

/// `hmac::digest::MacError`, the outcome of a tag that does not match. It is
/// carried through and not looked into.
#[verifier::external_type_specification]
#[verifier::external_body]
pub struct ExMacError(hmac::digest::MacError);

/// `block_padding::UnpadError`, the outcome of a ciphertext whose length or
/// padding is wrong. It is carried through and not looked into.
#[verifier::external_type_specification]
#[verifier::external_body]
pub struct ExUnpadError(aes::cipher::block_padding::UnpadError);

/// Calls `pbkdf2::pbkdf2_hmac` with SHA-256 on a 16-byte output buffer.
///
/// Trusted: the buffer then holds the value named by
/// [`pbkdf2_hmac_sha256`] for a length of 16.
#[verifier::external_body]
pub(crate) fn pbkdf2_hmac_sha256_128(password: &[u8], salt: &[u8], rounds: u32) -> (key: [u8; 16])
    ensures
        key@ == pbkdf2_hmac_sha256(password@, salt@, rounds, 16),
{
    let mut out = [0u8; 16];
    pbkdf2::pbkdf2_hmac::<sha2::Sha256>(password, salt, rounds, &mut out);
    out
}

/// Calls `Mac::new_from_slice`, `update` and `finalize` of
/// `hmac::Hmac<sha2::Sha256>`.
///
/// Trusted: the result is the tag named by [`hmac_sha256`], which is 32
/// bytes long. HMAC takes a key of any length, so the key is never refused.
#[verifier::external_body]
pub(crate) fn hmac_sha256_tag(key: &[u8], message: &[u8]) -> (tag: Vec<u8>)
    ensures
        tag@ == hmac_sha256(key@, message@),
        tag@.len() == 32,
{
    let mut mac =
        hmac::Hmac::<sha2::Sha256>::new_from_slice(key).expect("HMAC can take key of any size");
    mac.update(message);
    mac.finalize().into_bytes().to_vec()
}

/// Calls `Mac::new_from_slice`, `update` and `verify_slice` of
/// `hmac::Hmac<sha2::Sha256>`.
///
/// Trusted: the comparison, made in constant time, succeeds exactly when
/// `tag` is the tag named by [`hmac_sha256`].
#[verifier::external_body]
pub(crate) fn hmac_sha256_verify(key: &[u8], message: &[u8], tag: &[u8]) -> (res: Result<
    (),
    hmac::digest::MacError,
>)
    ensures
        res is Ok <==> tag@ == hmac_sha256(key@, message@),
{
    let mut mac =
        hmac::Hmac::<sha2::Sha256>::new_from_slice(key).expect("HMAC can take key of any size");
    mac.update(message);
    mac.verify_slice(tag)
}

/// Calls `Digest::new`, `update` and `finalize` of `sha2::Sha256`.
///
/// Trusted: the result is the digest named by [`sha256`], which is 32 bytes
/// long.
#[verifier::external_body]
pub(crate) fn sha256_digest(message: &[u8]) -> (digest: Vec<u8>)
    ensures
        digest@ == sha256(message@),
        digest@.len() == 32,
{
    let mut hasher = sha2::Sha256::new();
    hasher.update(message);
    hasher.finalize().to_vec()
}

/// Calls `KeyIvInit::new` and `encrypt_padded_vec_mut` of
/// `cbc::Encryptor<aes::Aes128>` with `Pkcs7` padding.
///
/// Trusted: the result is the ciphertext named by [`aes128_cbc_encrypted`];
/// it is the plaintext's whole blocks and one more block, which holds the
/// rest and the padding; and decryption under the same key and
/// initialisation vector gives the plaintext back.
#[verifier::external_body]
pub(crate) fn aes128_cbc_encrypt(key: &[u8; 16], iv: &[u8; 16], plaintext: &[u8]) -> (ciphertext:
    Vec<u8>)
    ensures
        ciphertext@ == aes128_cbc_encrypted(key@, iv@, plaintext@),
        ciphertext@.len() == 16 * (plaintext@.len() / 16 + 1),
        aes128_cbc_decrypted(key@, iv@, ciphertext@) == Some(plaintext@),
{
    cbc::Encryptor::<aes::Aes128>::new(key.into(), iv.into()).encrypt_padded_vec_mut::<Pkcs7>(
        plaintext,
    )
}

/// Calls `KeyIvInit::new` and `decrypt_padded_vec_mut` of
/// `cbc::Decryptor<aes::Aes128>` with `Pkcs7` padding.
///
/// Trusted: the outcome is the one named by [`aes128_cbc_decrypted`]. The
/// vector must be 16 bytes long, as the conversion to a block panics on any
/// other length.
#[verifier::external_body]
pub(crate) fn aes128_cbc_decrypt(key: &[u8; 16], iv: &[u8], ciphertext: &[u8]) -> (res: Result<
    Vec<u8>,
    aes::cipher::block_padding::UnpadError,
>)
    requires
        iv@.len() == 16,
    ensures
        match res {
            Ok(plaintext) => aes128_cbc_decrypted(key@, iv@, ciphertext@) == Some(plaintext@),
            Err(_) => aes128_cbc_decrypted(key@, iv@, ciphertext@) is None,
        },
{
    cbc::Decryptor::<aes::Aes128>::new(key.into(), iv.into()).decrypt_padded_vec_mut::<Pkcs7>(
        ciphertext,
    )
}

/// Calls `KeyIvInit::new` and `decrypt_padded_vec_mut` of
/// `cbc::Decryptor<aes::Aes256>` with `Pkcs7` padding.
///
/// Trusted: the outcome is the one named by [`aes256_cbc_decrypted`]. The
/// key must be 32 and the vector 16 bytes long, as the conversions to
/// blocks panic on any other length.
#[verifier::external_body]
pub(crate) fn aes256_cbc_decrypt(key: &[u8], iv: &[u8], ciphertext: &[u8]) -> (res: Result<
    Vec<u8>,
    aes::cipher::block_padding::UnpadError,
>)
    requires
        key@.len() == 32,
        iv@.len() == 16,
    ensures
        match res {
            Ok(plaintext) => aes256_cbc_decrypted(key@, iv@, ciphertext@) == Some(plaintext@),
            Err(_) => aes256_cbc_decrypted(key@, iv@, ciphertext@) is None,
        },
{
    cbc::Decryptor::<aes::Aes256>::new(key.into(), iv.into()).decrypt_padded_vec_mut::<Pkcs7>(
        ciphertext,
    )
}

/// Calls `SeedableRng::from_os_rng` of `rand::rngs::StdRng` and
/// `RngCore::fill_bytes` on a 16-byte buffer.
///
/// Nothing is promised of the bytes: they come from the operating system's
/// random source. The call panics only where that source fails.
#[verifier::external_body]
pub(crate) fn random_block() -> (block: [u8; 16]) {
    let mut block = [0u8; 16];
    rand::rngs::StdRng::from_os_rng().fill_bytes(&mut block);
    block
}

} // verus!
