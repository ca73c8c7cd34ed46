//! Who we are: one 32-byte ed25519 seed, and everything derived from it.

use vstd::prelude::*;
use vstd::string::*;

use crate::bytes::{array32, copy};
use crate::crypto;
use crate::crypto::{
    blake3_derived, discovery_key_ok, discovery_text, ed25519_accepts, ed25519_expanded,
    ed25519_key, ed25519_public, ed25519_signature, onion_fault, onion_key, onion_shape, onion_text,
};
use crate::text::{decimal, decimal_text, digit};

verus! {

/// Length of the ed25519 secret seed.
pub const SEED_LEN: usize = 32;

/// A peer: the public key that its address stands for.
pub type PeerId = [u8; 32];

/// Purpose under which the secret of our service discovery key is derived.
pub const DISCOVERY_CONTEXT: &'static str = "murmure service discovery key";

/// A murmure identity. The seed is never printed and never logged.
pub struct Identity {
    seed: [u8; 32],
}

/// What a seed file held against us.
#[derive(Clone, Copy, Debug, PartialEq, Eq, Structural)]
pub enum SeedError {
    /// The file is not exactly one seed long; how long it is.
    WrongLength(usize),
    /// Somebody besides the owner can get at it; its mode.
    Exposed(u32),
}

/// Which permission bits belong to anyone but the owner.
pub open spec fn exposed(mode: u32) -> bool {
    mode & 0o077 != 0
}

/// A number written in base eight.
pub open spec fn octal_text(n: nat) -> Seq<char>
    decreases n,
{
    if n < 8 {
        seq![digit(n)]
    } else {
        octal_text(n / 8).push(digit(n % 8))
    }
}

fn octal(n: u32) -> (r: String)
    ensures
        r@ == octal_text(n as nat),
    decreases n,
{
    let b: u8 = 48 + (n % 8) as u8;
    if n < 8 {
        let mut s = String::new();
        s.push(b as char);
        assert(s@ =~= seq![digit(n as nat)]);
        s
    } else {
        let mut s = octal(n / 8);
        s.push(b as char);
        s
    }
}

impl SeedError {
    /// What the operator is told about the file at `path`.
    pub open spec fn said(self, path: Seq<char>) -> Seq<char> {
        match self {
            SeedError::WrongLength(n) => path + " is "@ + decimal_text(n as nat)
                + " bytes, expected exactly 32; delete it to generate a fresh identity"@,
            SeedError::Exposed(mode) => path + " is mode "@ + octal_text(mode as nat)
                + "; the identity seed must be 0600. Run: chmod 600 "@ + path,
        }
    }

    /// Say what is wrong with the file at `path`.
    pub fn describe(&self, path: &str) -> (r: String)
        ensures
            r@ == self.said(path@),
    {
        let mut s = path.to_owned();
        match self {
            SeedError::WrongLength(n) => {
                s.append(" is ");
                s.append(decimal(*n as u128).as_str());
                s.append(" bytes, expected exactly 32; delete it to generate a fresh identity");
            },
            SeedError::Exposed(mode) => {
                s.append(" is mode ");
                s.append(octal(*mode).as_str());
                s.append("; the identity seed must be 0600. Run: chmod 600 ");
                s.append(path);
            },
        }
        s
    }
}

impl Identity {
    /// The secret seed.
    pub closed spec fn seed(&self) -> Seq<u8> {
        self.seed@
    }

    /// The public key.
    pub open spec fn public(&self) -> Seq<u8> {
        ed25519_public(self.seed())
    }

    /// The identity with this seed.
    pub fn from_seed(seed: [u8; 32]) -> (r: Identity)
        ensures
            r.seed() == seed@,
    {
        Identity { seed }
    }

    /// The identity that a file held, or a new one where there was no file. The flag says
    /// that it is new, and has to be written down.
    pub fn load_or_create(stored: Option<&[u8]>) -> (r: Result<(Identity, bool), SeedError>)
        ensures
            match stored {
                Some(b) => match r {
                    Ok((id, fresh)) => b@.len() == SEED_LEN && id.seed() == b@ && !fresh,
                    Err(e) => b@.len() != SEED_LEN && e == SeedError::WrongLength(
                        b@.len() as usize,
                    ),
                },
                None => {
                    &&& r is Ok
                    &&& r->Ok_0.1
                    &&& (r->Ok_0).0.seed().len() == SEED_LEN
                    &&& ed25519_key((r->Ok_0).0.public())
                },
            },
    {
        match stored {
            Some(b) => match Identity::load(b) {
                Ok(id) => Ok((id, false)),
                Err(e) => Err(e),
            },
            None => Ok((Identity::create(), true)),
        }
    }

    /// The identity that a file held.
    pub fn load(stored: &[u8]) -> (r: Result<Identity, SeedError>)
        ensures
            match r {
                Ok(id) => stored@.len() == SEED_LEN && id.seed() == stored@,
                Err(e) => stored@.len() != SEED_LEN && e == SeedError::WrongLength(
                    stored@.len() as usize,
                ),
            },
    {
        if stored.len() != SEED_LEN {
            return Err(SeedError::WrongLength(stored.len()));
        }
        let seed = array32(stored);
        assert(stored@.take(32) =~= stored@);
        Ok(Identity { seed })
    }

    /// A new identity, its seed from the operating system. Any 32 bytes may come
    /// out as the seed, and [`Identity::from_seed`] says what each of them gives.
    pub fn create() -> (r: Identity)
        ensures
            r.seed().len() == SEED_LEN,
            ed25519_key(r.public()),
    {
        let made = Identity::from_seed(array32(crypto::random_bytes(SEED_LEN).as_slice()));
        let _ = made.id();
        made
    }

    /// The bytes to write down: reading them back gives this identity again.
    pub fn stored(&self) -> (r: Vec<u8>)
        ensures
            r@ == self.seed(),
            r@.len() == SEED_LEN,
    {
        copy(&self.seed)
    }

    /// Refuse a seed file that anyone but the owner can get at.
    pub fn check_permissions(mode: u32) -> (r: Result<(), SeedError>)
        ensures
            match r {
                Ok(_) => !exposed(mode),
                Err(e) => exposed(mode) && e == SeedError::Exposed(mode & 0o777),
            },
    {
        let m: u32 = mode & 0o777;
        assert((mode & 0o777) & 0o077 == mode & 0o077) by (bit_vector);
        if m & 0o077 != 0 {
            Err(SeedError::Exposed(m))
        } else {
            Ok(())
        }
    }

    /// The keypair in the expanded form that the onion service's keystore speaks.
    pub fn hs_id_keypair(&self) -> (r: [u8; 64])
        ensures
            r@ == ed25519_expanded(self.seed()),
    {
        crypto::expanded_secret(&self.seed)
    }

    /// A 32-byte secret derived from the seed for a named purpose.
    pub fn derive_key(&self, context: &str) -> (r: [u8; 32])
        ensures
            r@ == blake3_derived(context@, self.seed()),
    {
        crypto::derive_key(context, &self.seed)
    }

    /// The public key, which is who others know us as.
    pub fn id(&self) -> (r: PeerId)
        ensures
            r@ == self.public(),
            ed25519_key(r@),
    {
        crypto::public_key(&self.seed)
    }

    /// The `.onion` address derived from the seed.
    pub fn onion_address(&self) -> (r: String)
        ensures
            r@ == onion_text(self.public()),
            onion_shape(r@),
            onion_key(r@) == Some(self.public()),
    {
        crypto::address_of(&self.id())
    }

    /// Our signature on a message, which our public key accepts.
    pub fn sign(&self, message: &[u8]) -> (r: [u8; 64])
        ensures
            r@ == ed25519_signature(self.seed(), message@),
            ed25519_accepts(self.public(), message@, r@),
    {
        crypto::sign(&self.seed, message)
    }

    /// The secret of the one discovery key that we present to everyone.
    pub fn discovery_secret(&self) -> (r: [u8; 32])
        ensures
            r@ == blake3_derived(DISCOVERY_CONTEXT@, self.seed()),
    {
        self.derive_key(DISCOVERY_CONTEXT)
    }

    /// The discovery key that contacts have to authorise.
    pub fn discovery_key(&self) -> (r: String)
        ensures
            r@ == discovery_text(blake3_derived(DISCOVERY_CONTEXT@, self.seed())),
            discovery_key_ok(r@),
    {
        crypto::discovery_key(&self.discovery_secret())
    }
}

/// The address of a peer.
pub fn address_of(id: &PeerId) -> (r: String)
    ensures
        r@ == onion_text(id@),
        onion_shape(r@),
        onion_key(r@) == Some(id@),
{
    crypto::address_of(id)
}

/// The peer an address stands for, or what is said of a text that is no address.
pub fn peer_of(address: &str) -> (r: Result<PeerId, String>)
    ensures
        match r {
            Ok(k) => onion_key(address@) == Some(k@),
            Err(text) => onion_key(address@) is None && text@ == onion_fault(address@),
        },
{
    crypto::key_of(address)
}

/// Same seed, same address: everything public is a function of the seed alone.
pub proof fn address_is_a_function_of_the_seed(a: Identity, b: Identity)
    requires
        a.seed() == b.seed(),
    ensures
        a.public() == b.public(),
        onion_text(a.public()) == onion_text(b.public()),
{
}

} // verus!
