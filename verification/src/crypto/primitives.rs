//! The cryptographic primitives, each a single call into the crate that implements it.
//!
//! Nothing in this file is proved: every contract here is taken from the documentation and
//! source of the crate that is called.

use vstd::prelude::*;

verus! {

/// `blake2b_simd::State`, the incremental BLAKE2b hasher, carried as an opaque value.
#[verifier::external_type_specification]
#[verifier::external_body]
pub struct ExBlake2bState(blake2b_simd::State);

/// The 64-byte BLAKE2b digest, with default parameters, of `input`.
pub uninterp spec fn blake2b(input: Seq<u8>) -> Seq<u8>;

/// Every byte that a hasher has been fed so far, in the order it was fed.
pub uninterp spec fn absorbed(state: blake2b_simd::State) -> Seq<u8>;

/// `blake2b_simd::State::new`: a hasher with default parameters that has been fed nothing.
#[verifier::external_body]
pub(crate) fn hasher_new() -> (state: blake2b_simd::State)
    ensures
        absorbed(state) == Seq::<u8>::empty(),
{
    blake2b_simd::State::new()
}

/// `blake2b_simd::State::update`: the hasher has been fed `input` after what it had before.
#[verifier::external_body]
pub(crate) fn hasher_update(state: &mut blake2b_simd::State, input: &[u8])
    ensures
        absorbed(*final(state)) == absorbed(*old(state)) + input@,
{
    state.update(input);
}

/// `blake2b_simd::State::finalize`: the digest of everything fed so far, which with default
/// parameters is 64 bytes long. The hasher is left as it was.
#[verifier::external_body]
pub(crate) fn hasher_finalize(state: &blake2b_simd::State) -> (digest: [u8; 64])
    ensures
        digest@ == blake2b(absorbed(*state)),
{
    *state.finalize().as_array()
}

/// `Clone::clone` of `blake2b_simd::State`: the copy has been fed the same bytes.
#[verifier::external_body]
pub(crate) fn hasher_clone(state: &blake2b_simd::State) -> (copy: blake2b_simd::State)
    ensures
        absorbed(copy) == absorbed(*state),
{
    state.clone()
}

/// The Ed25519 public key that belongs to the 32-byte secret key `seed`.
pub uninterp spec fn sign_public(seed: Seq<u8>) -> Seq<u8>;

/// The Ed25519 signature that the secret key `seed` gives to `message`.
pub uninterp spec fn sign_bytes(seed: Seq<u8>, message: Seq<u8>) -> Seq<u8>;

/// Whether `signature` is an Ed25519 signature of `message` that verifies under the public key
/// `public`.
pub uninterp spec fn sign_verifies(public: Seq<u8>, message: Seq<u8>, signature: Seq<u8>) -> bool;

/// `ed25519_dalek::SigningKey::verifying_key`: the public half of the key pair that
/// `SigningKey::from_bytes` derives from `seed`.
#[verifier::external_body]
pub(crate) fn sign_keypair_public(seed: &[u8; 32]) -> (public: [u8; 32])
    ensures
        public@ == sign_public(seed@),
{
    ed25519_dalek::SigningKey::from_bytes(seed).verifying_key().to_bytes()
}

/// `ed25519_dalek::Signer::sign` of a `SigningKey`: the signature is a function of key and
/// message (Ed25519 draws no randomness), and it verifies under the key's public half.
#[verifier::external_body]
pub(crate) fn sign_detached(seed: &[u8; 32], message: &[u8]) -> (signature: [u8; 64])
    ensures
        signature@ == sign_bytes(seed@, message@),
        sign_verifies(sign_public(seed@), message@, signature@),
{
    ed25519_dalek::Signer::sign(&ed25519_dalek::SigningKey::from_bytes(seed), message).to_bytes()
}

/// `ed25519_dalek::Verifier::verify` of a `VerifyingKey`; bytes that are no public key verify
/// nothing.
#[verifier::external_body]
pub(crate) fn verify_detached(public: &[u8; 32], message: &[u8], signature: &[u8; 64]) -> (ok: bool)
    ensures
        ok == sign_verifies(public@, message@, signature@),
{
    match ed25519_dalek::VerifyingKey::from_bytes(public) {
        Ok(key) => ed25519_dalek::Verifier::verify(
            &key,
            message,
            &ed25519_dalek::Signature::from_bytes(signature),
        ).is_ok(),
        Err(_) => false,
    }
}

/// The X25519 public key that corresponds to the Ed25519 public key `public`, if those bytes
/// are a public key at all.
pub uninterp spec fn crypt_public_of(public: Seq<u8>) -> Option<Seq<u8>>;

/// The X25519 secret scalar that corresponds to the Ed25519 secret key `seed`.
pub uninterp spec fn crypt_secret_of(seed: Seq<u8>) -> Seq<u8>;

/// The X25519 function of a scalar and a point.
pub uninterp spec fn x25519(scalar: Seq<u8>, point: Seq<u8>) -> Seq<u8>;

/// `ed25519_dalek::VerifyingKey::to_montgomery`, after `VerifyingKey::from_bytes` has accepted
/// the bytes.
#[verifier::external_body]
pub(crate) fn sign_public_to_crypt(public: &[u8; 32]) -> (r: Option<[u8; 32]>)
    ensures
        match r {
            Some(k) => crypt_public_of(public@) == Some(k@),
            None => crypt_public_of(public@) is None,
        },
{
    match ed25519_dalek::VerifyingKey::from_bytes(public) {
        Ok(key) => Some(key.to_montgomery().to_bytes()),
        Err(_) => None,
    }
}

/// `ed25519_dalek::SigningKey::to_scalar_bytes`.
#[verifier::external_body]
pub(crate) fn sign_secret_to_crypt(seed: &[u8; 32]) -> (scalar: [u8; 32])
    ensures
        scalar@ == crypt_secret_of(seed@),
{
    ed25519_dalek::SigningKey::from_bytes(seed).to_scalar_bytes()
}

/// `x25519_dalek::x25519`.
#[verifier::external_body]
pub(crate) fn crypt_scalarmult(scalar: &[u8; 32], point: &[u8; 32]) -> (product: [u8; 32])
    ensures
        product@ == x25519(scalar@, point@),
{
    x25519_dalek::x25519(*scalar, *point)
}

/// What XChaCha20-Poly1305 makes of `message` under `key`, `nonce` and the associated data
/// `ad`: the ciphertext and the 16-byte tag, or nothing where the cipher refuses the length.
pub uninterp spec fn aead_sealed(key: Seq<u8>, nonce: Seq<u8>, ad: Seq<u8>, message: Seq<u8>) -> Option<(Seq<u8>, Seq<u8>)>;

/// What XChaCha20-Poly1305 recovers from `crypt` and `tag` under `key`, `nonce` and `ad`:
/// the message, or nothing where the tag does not authenticate them.
pub uninterp spec fn aead_opened(key: Seq<u8>, nonce: Seq<u8>, ad: Seq<u8>, crypt: Seq<u8>, tag: Seq<u8>) -> Option<Seq<u8>>;

/// `chacha20poly1305::AeadInPlace::encrypt_in_place_detached` of `XChaCha20Poly1305`, on a
/// copy of `message`. The ciphertext is as long as the message, and with its tag it opens
/// to the message again under the same key, nonce and associated data.
#[verifier::external_body]
pub(crate) fn aead_encrypt(message: &[u8], ad: &[u8], nonce: &[u8; 24], key: &[u8; 32]) -> (r: Option<(Vec<u8>, [u8; 16])>)
    ensures
        match r {
            Some((crypt, tag)) => aead_sealed(key@, nonce@, ad@, message@) == Some((crypt@, tag@))
                && crypt@.len() == message@.len() && aead_opened(key@, nonce@, ad@, crypt@, tag@) == Some(
                message@,
            ),
            None => aead_sealed(key@, nonce@, ad@, message@) is None,
        },
{
    let cipher = <chacha20poly1305::XChaCha20Poly1305 as chacha20poly1305::KeyInit>::new(key.into());
    let mut buffer = message.to_vec();
    match chacha20poly1305::AeadInPlace::encrypt_in_place_detached(&cipher, nonce.into(), ad, &mut buffer) {
        Ok(tag) => Some((buffer, tag.into())),
        Err(_) => None,
    }
}

/// `chacha20poly1305::AeadInPlace::decrypt_in_place_detached` of `XChaCha20Poly1305`, on a
/// copy of `crypt`. The message is as long as the ciphertext.
#[verifier::external_body]
pub(crate) fn aead_decrypt(crypt: &[u8], ad: &[u8], tag: &[u8; 16], nonce: &[u8; 24], key: &[u8; 32]) -> (r: Option<Vec<u8>>)
    ensures
        match r {
            Some(message) => aead_opened(key@, nonce@, ad@, crypt@, tag@) == Some(message@)
                && message@.len() == crypt@.len(),
            None => aead_opened(key@, nonce@, ad@, crypt@, tag@) is None,
        },
{
    let cipher = <chacha20poly1305::XChaCha20Poly1305 as chacha20poly1305::KeyInit>::new(key.into());
    let mut buffer = crypt.to_vec();
    match chacha20poly1305::AeadInPlace::decrypt_in_place_detached(&cipher, nonce.into(), ad, &mut buffer, tag.into()) {
        Ok(()) => Some(buffer),
        Err(_) => None,
    }
}

/// `getrandom::getrandom` on a buffer of `n` bytes: `n` bytes from the system's random number
/// source, or nothing where the source fails.
#[verifier::external_body]
pub(crate) fn random_bytes(n: usize) -> (r: Option<Vec<u8>>)
    ensures
        r matches Some(bytes) ==> bytes@.len() == n,
{
    let mut buffer = vec![0u8; n];
    match getrandom::getrandom(&mut buffer) {
        Ok(()) => Some(buffer),
        Err(_) => None,
    }
}

} // verus!
