//! Sealed bytes: what murmure keeps on disk beyond the seed itself.
//!
//! XChaCha20-Poly1305 with a random 24-byte nonce in front of the ciphertext. The key comes
//! from [`crate::identity::Identity::derive_key`].

use vstd::prelude::*;
use vstd::string::*;

use crate::bytes::array24;
use crate::codec::add_raw;
use crate::crypto::{
    decrypt, encrypt, opened_bytes, random_bytes, sealed_bytes, SEAL_LIMIT,
};
use crate::text::{decimal, decimal_text};

verus! {

/// Length of the XChaCha20-Poly1305 nonce, in bytes.
pub const NONCE_LEN: usize = 24;

/// Why bytes could not be sealed or opened.
#[derive(Clone, Copy, Debug, PartialEq, Eq, Structural)]
pub enum StoreError {
    /// There is more plaintext than one nonce can cover.
    Sealing,
    /// Too short to hold a nonce; the number of bytes there are.
    TooShort(usize),
    /// The wrong key, or bytes that were changed.
    Refused,
}

impl StoreError {
    /// What the operator is told.
    pub open spec fn said(self) -> Seq<char> {
        match self {
            StoreError::Sealing => "sealing failed"@,
            StoreError::TooShort(n) => "sealed data is "@ + decimal_text(n as nat)
                + " bytes, too short to hold a nonce"@,
            StoreError::Refused =>
                "could not open the sealed file: wrong identity seed, or the file was tampered with"@,
        }
    }

    /// Say what went wrong.
    pub fn describe(&self) -> (r: String)
        ensures
            r@ == self.said(),
    {
        match self {
            StoreError::Sealing => "sealing failed".to_owned(),
            StoreError::TooShort(n) => {
                let mut s = "sealed data is ".to_owned();
                s.append(decimal(*n as u128).as_str());
                s.append(" bytes, too short to hold a nonce");
                s
            },
            StoreError::Refused =>
                "could not open the sealed file: wrong identity seed, or the file was tampered with".to_owned(),
        }
    }
}

/// What is found in sealed bytes under a key.
pub open spec fn unsealed(key: Seq<u8>, sealed: Seq<u8>) -> Option<Seq<u8>> {
    if sealed.len() < NONCE_LEN || sealed.len() > SEAL_LIMIT + 40 {
        None
    } else {
        opened_bytes(key, sealed.take(24), sealed.skip(24))
    }
}

/// Whether this much plaintext can be sealed at all.
pub open spec fn sealable(plaintext: Seq<u8>) -> bool {
    plaintext.len() <= SEAL_LIMIT
}

/// Seal under a given nonce: the nonce, then the ciphertext.
pub fn seal_with(key: &[u8; 32], nonce: &[u8; 24], plaintext: &[u8]) -> (r: Result<
    Vec<u8>,
    StoreError,
>)
    ensures
        r is Ok <==> sealable(plaintext@),
        r is Err ==> r->Err_0 == StoreError::Sealing,
        r is Ok ==> r->Ok_0@ == nonce@ + sealed_bytes(key@, nonce@, plaintext@),
        r is Ok ==> r->Ok_0@.len() == plaintext@.len() + 40,
        r is Ok ==> unsealed(key@, r->Ok_0@) == Some(plaintext@),
{
    if plaintext.len() as u64 > SEAL_LIMIT {
        return Err(StoreError::Sealing);
    }
    match encrypt(key, nonce, plaintext) {
        None => Err(StoreError::Sealing),
        Some(c) => {
            let mut out: Vec<u8> = Vec::new();
            add_raw(&mut out, nonce);
            add_raw(&mut out, c.as_slice());
            proof {
                assert(out@ =~= nonce@ + c@);
                assert(out@.take(24) =~= nonce@);
                assert(out@.skip(24) =~= c@);
            }
            Ok(out)
        },
    }
}

/// Seal `plaintext` under `key`, with a fresh nonce. Opening the outcome under the same key
/// gives the plaintext back, whatever the nonce was.
pub fn seal(key: &[u8; 32], plaintext: &[u8]) -> (r: Result<Vec<u8>, StoreError>)
    ensures
        r is Ok <==> sealable(plaintext@),
        r is Err ==> r->Err_0 == StoreError::Sealing,
        r is Ok ==> r->Ok_0@.len() == plaintext@.len() + 40,
        r is Ok ==> r->Ok_0@.skip(24) == sealed_bytes(key@, r->Ok_0@.take(24), plaintext@),
        r is Ok ==> unsealed(key@, r->Ok_0@) == Some(plaintext@),
{
    let nonce = array24(random_bytes(NONCE_LEN).as_slice());
    let r = seal_with(key, &nonce, plaintext);
    proof {
        if r is Ok {
            assert(r->Ok_0@.take(24) =~= nonce@);
            assert(r->Ok_0@.skip(24) =~= sealed_bytes(key@, nonce@, plaintext@));
        }
    }
    r
}

/// Open what [`seal`] produced. What opens is exactly what sealing the plaintext under this
/// key and this nonce makes: no second form of it opens to the same plaintext.
pub fn open(key: &[u8; 32], sealed: &[u8]) -> (r: Result<Vec<u8>, StoreError>)
    ensures
        match r {
            Ok(p) => {
                &&& unsealed(key@, sealed@) == Some(p@)
                &&& sealed@.len() == p@.len() + 40
                &&& sealed@.skip(24) == sealed_bytes(key@, sealed@.take(24), p@)
            },
            Err(StoreError::TooShort(n)) => n == sealed@.len() && n < NONCE_LEN,
            Err(e) => e == StoreError::Refused && sealed@.len() >= NONCE_LEN && unsealed(
                key@,
                sealed@,
            ) is None,
        },
{
    if sealed.len() < NONCE_LEN {
        return Err(StoreError::TooShort(sealed.len()));
    }
    let (head, rest) = sealed.split_at(NONCE_LEN);
    proof {
        assert(head@.take(24) =~= sealed@.take(24));
        assert(rest@ =~= sealed@.skip(24));
    }
    if rest.len() as u64 > SEAL_LIMIT + 16 {
        return Err(StoreError::Refused);
    }
    match decrypt(key, &array24(head), rest) {
        Some(p) => Ok(p),
        None => Err(StoreError::Refused),
    }
}

/// Open what a file held, where there was a file: none is no error.
pub fn read_sealed(stored: Option<&[u8]>, key: &[u8; 32]) -> (r: Result<
    Option<Vec<u8>>,
    StoreError,
>)
    ensures
        match stored {
            None => r == Ok::<Option<Vec<u8>>, StoreError>(None),
            Some(s) => match r {
                Ok(Some(p)) => unsealed(key@, s@) == Some(p@),
                Ok(None) => false,
                Err(e) => unsealed(key@, s@) is None && e == if s@.len() < NONCE_LEN {
                    StoreError::TooShort(s@.len() as usize)
                } else {
                    StoreError::Refused
                },
            },
        },
{
    match stored {
        None => Ok(None),
        Some(s) => match open(key, s) {
            Ok(p) => Ok(Some(p)),
            Err(e) => Err(e),
        },
    }
}

} // verus!
