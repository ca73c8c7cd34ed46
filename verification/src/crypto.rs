//! The cryptography murmure leans on, behind contracts over plain bytes.
//!
//! Signatures and addresses come from `tor-llcrypto` and `tor-hscrypto`, key derivation and
//! digests from `blake3`, sealing from `chacha20poly1305`, randomness from `rand`, wiping from
//! `zeroize`. None of it
//! is restated here: each result carries a name, and beside the name only what the rest of
//! the library has to know.

use std::error::Error;
use std::str::FromStr;

use chacha20poly1305::aead::{Aead, KeyInit};
use chacha20poly1305::{XChaCha20Poly1305, XNonce};
use rand::RngCore;
use safelog::DisplayRedacted;
use tor_hscrypto::pk::{
    HsClientDescEncKey, HsClientDescEncSecretKey, HsId, HsIdKey, HsIdKeypair,
};
use tor_llcrypto::pk::{curve25519, ed25519};
use vstd::prelude::*;
use zeroize::Zeroize;

verus! {

/// The ed25519 public key that belongs to a secret seed.
pub uninterp spec fn ed25519_public(seed: Seq<u8>) -> Seq<u8>;

/// Whether 32 bytes are an ed25519 public key.
pub uninterp spec fn ed25519_key(key: Seq<u8>) -> bool;

/// The ed25519 signature a seed makes on a message.
pub uninterp spec fn ed25519_signature(seed: Seq<u8>, message: Seq<u8>) -> Seq<u8>;

/// Whether a signature on a message is one that a public key accepts.
pub uninterp spec fn ed25519_accepts(key: Seq<u8>, message: Seq<u8>, signature: Seq<u8>) -> bool;

/// The secret half of a seed's keypair in expanded form: scalar, then hash prefix.
pub uninterp spec fn ed25519_expanded(seed: Seq<u8>) -> Seq<u8>;

/// The `.onion` address that stands for a public key.
pub uninterp spec fn onion_text(key: Seq<u8>) -> Seq<char>;

/// The public key that an `.onion` address stands for, or what is said of a text that is none.
pub uninterp spec fn onion_parsed(address: Seq<char>) -> Result<Seq<u8>, Seq<char>>;

/// What is said of a text that is no service discovery key, and what is said of the cause
/// underneath, where there is one.
pub uninterp spec fn discovery_fault(key: Seq<char>) -> Option<(Seq<char>, Option<Seq<char>>)>;

/// The service discovery key, as text, that belongs to an x25519 secret.
pub uninterp spec fn discovery_text(secret: Seq<u8>) -> Seq<char>;

/// The key that BLAKE3 derives from some material for a named purpose.
pub uninterp spec fn blake3_derived(context: Seq<char>, material: Seq<u8>) -> Seq<u8>;

/// The BLAKE3 digest of some bytes.
pub uninterp spec fn blake3_digest(bytes: Seq<u8>) -> Seq<u8>;

/// What a hasher has been given so far.
pub uninterp spec fn hashed_so_far(h: blake3::Hasher) -> Seq<u8>;

/// XChaCha20-Poly1305: the ciphertext, tag at its end.
pub uninterp spec fn sealed_bytes(key: Seq<u8>, nonce: Seq<u8>, plaintext: Seq<u8>) -> Seq<u8>;

/// XChaCha20-Poly1305: the plaintext of an authentic ciphertext.
pub uninterp spec fn opened_bytes(key: Seq<u8>, nonce: Seq<u8>, ciphertext: Seq<u8>) -> Option<
    Seq<u8>,
>;

/// The public key that an `.onion` address stands for, if it is one.
pub open spec fn onion_key(address: Seq<char>) -> Option<Seq<u8>> {
    match onion_parsed(address) {
        Ok(key) => Some(key),
        Err(_) => None,
    }
}

/// What is said of a text that is no `.onion` address.
pub open spec fn onion_fault(address: Seq<char>) -> Seq<char> {
    match onion_parsed(address) {
        Ok(_) => Seq::empty(),
        Err(text) => text,
    }
}

/// Whether a text is a service discovery key.
pub open spec fn discovery_key_ok(key: Seq<char>) -> bool {
    discovery_fault(key) is None
}

/// A well-formed v3 onion address: 56 characters of lowercase base32, then `.onion`.
pub open spec fn onion_shape(a: Seq<char>) -> bool {
    a.len() == 62 && a.skip(56) == seq!['.', 'o', 'n', 'i', 'o', 'n'] && forall|i: int|
        0 <= i < 56 ==> base32_lower(#[trigger] a[i])
}

/// The letters of lowercase base32.
pub open spec fn base32_lower(c: char) -> bool {
    97 <= c as u32 <= 122 || 50 <= c as u32 <= 55
}

/// The declaration of the incremental hasher of `blake3`.
#[verifier::external_type_specification]
#[verifier::external_body]
pub struct ExHasher(blake3::Hasher);

/// `RngCore::fill_bytes` of `rand`'s `OsRng`: bytes from the operating system. Nothing is
/// claimed of their values.
#[verifier::external_body]
pub(crate) fn random_bytes(n: usize) -> (r: Vec<u8>)
    ensures
        r@.len() == n,
{
    let mut bytes = vec![0u8; n];
    rand::rngs::OsRng.fill_bytes(&mut bytes);
    bytes
}

/// `Keypair::from_bytes`, expanded and wrapped as a `HsIdKey`: the public key of a seed. It
/// is claimed to be a valid key.
#[verifier::external_body]
pub(crate) fn public_key(seed: &[u8; 32]) -> (r: [u8; 32])
    ensures
        r@ == ed25519_public(seed@),
        ed25519_key(r@),
{
    let keypair = ed25519::ExpandedKeypair::from(&ed25519::Keypair::from_bytes(seed));
    HsIdKey::from(&HsIdKeypair::from(keypair)).to_bytes()
}

/// `ExpandedKeypair::to_secret_key_bytes` of a seed's keypair.
#[verifier::external_body]
pub(crate) fn expanded_secret(seed: &[u8; 32]) -> (r: [u8; 64])
    ensures
        r@ == ed25519_expanded(seed@),
{
    ed25519::ExpandedKeypair::from(&ed25519::Keypair::from_bytes(seed)).to_secret_key_bytes()
}

/// `Keypair::sign`: a signature, which the seed's own public key accepts.
#[verifier::external_body]
pub(crate) fn sign(seed: &[u8; 32], message: &[u8]) -> (r: [u8; 64])
    ensures
        r@ == ed25519_signature(seed@, message@),
        ed25519_accepts(ed25519_public(seed@), message@, r@),
{
    ed25519::Keypair::from_bytes(seed).sign(message).to_bytes()
}

/// `PublicKey::from_bytes`: whether these bytes are a key at all.
#[verifier::external_body]
pub(crate) fn is_key(key: &[u8; 32]) -> (r: bool)
    ensures
        r == ed25519_key(key@),
{
    ed25519::PublicKey::from_bytes(key).is_ok()
}

/// `PublicKey::verify`: whether the key accepts the signature on the message. Bytes that
/// are no key accept nothing.
#[verifier::external_body]
pub(crate) fn accepts(key: &[u8; 32], message: &[u8], signature: &[u8; 64]) -> (r: bool)
    ensures
        r == ed25519_accepts(key@, message@, signature@),
{
    match ed25519::PublicKey::from_bytes(key) {
        Ok(k) => k.verify(message, &ed25519::Signature::from_bytes(signature)).is_ok(),
        Err(_) => false,
    }
}

/// `HsId`'s unredacted display: the address of a key. It is well formed, and reading it back
/// gives the key.
#[verifier::external_body]
pub(crate) fn address_of(key: &[u8; 32]) -> (r: String)
    ensures
        r@ == onion_text(key@),
        onion_shape(r@),
        onion_key(r@) == Some(key@),
{
    HsId::from(*key).display_unredacted().to_string()
}

/// `HsId::from_str`: the key of an address, or what its error says of a text that is none.
#[verifier::external_body]
pub(crate) fn key_of(address: &str) -> (r: Result<[u8; 32], String>)
    ensures
        match r {
            Ok(k) => onion_parsed(address@) == Ok::<Seq<u8>, Seq<char>>(k@),
            Err(text) => onion_parsed(address@) == Err::<Seq<u8>, Seq<char>>(text@),
        },
{
    HsId::from_str(address).map(|id| id.into()).map_err(|e| e.to_string())
}

/// `HsClientDescEncKey::from_str`: nothing, where a text is a service discovery key, else what
/// its error says, and what the error it came from says.
#[verifier::external_body]
pub(crate) fn discovery_error(key: &str) -> (r: Option<(String, Option<String>)>)
    ensures
        match r {
            None => discovery_fault(key@) is None,
            Some((text, None)) => discovery_fault(key@) == Some((text@, None::<Seq<char>>)),
            Some((text, Some(from))) => discovery_fault(key@) == Some((text@, Some(from@))),
        },
{
    let e = HsClientDescEncKey::from_str(key).err()?;
    Some((e.to_string(), e.source().map(|from| from.to_string())))
}

/// `HsClientDescEncKey`'s display, on the public half of a secret. What it prints is a
/// service discovery key.
#[verifier::external_body]
pub(crate) fn discovery_key(secret: &[u8; 32]) -> (r: String)
    ensures
        r@ == discovery_text(secret@),
        discovery_key_ok(r@),
{
    let secret = HsClientDescEncSecretKey::from(curve25519::StaticSecret::from(*secret));
    HsClientDescEncKey::from(&secret).to_string()
}

/// `blake3::derive_key`.
#[verifier::external_body]
pub(crate) fn derive_key(context: &str, material: &[u8]) -> (r: [u8; 32])
    ensures
        r@ == blake3_derived(context@, material@),
{
    blake3::derive_key(context, material)
}

/// `blake3::hash`.
#[verifier::external_body]
pub(crate) fn digest(bytes: &[u8]) -> (r: [u8; 32])
    ensures
        r@ == blake3_digest(bytes@),
{
    *blake3::hash(bytes).as_bytes()
}

/// `blake3::Hasher::new`: a hasher that has been given nothing.
#[verifier::external_body]
pub(crate) fn hasher_new() -> (r: blake3::Hasher)
    ensures
        hashed_so_far(r) == Seq::<u8>::empty(),
{
    blake3::Hasher::new()
}

/// `blake3::Hasher::update`: the hasher has then been given these bytes as well.
#[verifier::external_body]
pub(crate) fn hasher_update(h: &mut blake3::Hasher, bytes: &[u8])
    ensures
        hashed_so_far(*final(h)) == hashed_so_far(*old(h)) + bytes@,
{
    h.update(bytes);
}

/// `blake3::Hasher::finalize`: the digest of everything the hasher was given.
#[verifier::external_body]
pub(crate) fn hasher_digest(h: &blake3::Hasher) -> (r: [u8; 32])
    ensures
        r@ == blake3_digest(hashed_so_far(*h)),
{
    *h.finalize().as_bytes()
}

/// The most bytes that one key and nonce can cover: a counter of 32 bits, of which the first
/// block goes to the authenticator and the last is never used, over blocks of 64 bytes.
pub const SEAL_LIMIT: u64 = 274877906816;

/// `XChaCha20Poly1305::encrypt`: it fails on no plaintext up to [`SEAL_LIMIT`], past which the
/// keystream runs out. The ciphertext is 16 bytes longer than the plaintext, and opens to it
/// under the same key and nonce.
#[verifier::external_body]
pub(crate) fn encrypt(key: &[u8; 32], nonce: &[u8; 24], plaintext: &[u8]) -> (r: Option<Vec<u8>>)
    requires
        plaintext@.len() <= SEAL_LIMIT,
    ensures
        r is Some,
        r->0@ == sealed_bytes(key@, nonce@, plaintext@),
        r->0@.len() == plaintext@.len() + 16,
        opened_bytes(key@, nonce@, r->0@) == Some(plaintext@),
{
    XChaCha20Poly1305::new(key.into()).encrypt(&XNonce::from(*nonce), plaintext).ok()
}

/// `XChaCha20Poly1305::decrypt`, up to the longest ciphertext that can be made. What it gives
/// is 16 bytes shorter than the ciphertext, and the ciphertext is the one that sealing it under
/// this key and nonce makes: the tag is compared whole, and the rest is the same keystream.
/// That a wrong key or a changed byte is always refused is not claimed; it is infeasible to
/// find one that is not.
#[verifier::external_body]
pub(crate) fn decrypt(key: &[u8; 32], nonce: &[u8; 24], ciphertext: &[u8]) -> (r: Option<Vec<u8>>)
    requires
        ciphertext@.len() <= SEAL_LIMIT + 16,
    ensures
        match r {
            Some(p) => {
                &&& opened_bytes(key@, nonce@, ciphertext@) == Some(p@)
                &&& ciphertext@ == sealed_bytes(key@, nonce@, p@)
                &&& ciphertext@.len() == p@.len() + 16
            },
            None => opened_bytes(key@, nonce@, ciphertext@) is None,
        },
{
    XChaCha20Poly1305::new(key.into()).decrypt(&XNonce::from(*nonce), ciphertext).ok()
}

/// `Zeroize::zeroize` of `zeroize` on a vector: every byte is overwritten, and the vector is
/// then empty.
#[verifier::external_body]
pub(crate) fn wipe(bytes: &mut Vec<u8>)
    ensures
        final(bytes)@ == Seq::<u8>::empty(),
{
    bytes.zeroize();
}

} // verus!
