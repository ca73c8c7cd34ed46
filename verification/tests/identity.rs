//! Who we are, addresses, and what is sealed.

use murmure::identity::{address_of, peer_of, Identity, SeedError, SEED_LEN};
use murmure::onion::{check_address, check_discovery_key, fingerprint, AddressError};
use murmure::store::{open, read_sealed, seal, seal_with, StoreError};

const GOOD: &str = "haticvmas7sfodcos2yhp7sf43cxifwl5aafgeathnyad4culhdj7ryd.onion";
const GOOD_KEY: &str = "descriptor:x25519:ZPRRMIV6DV6SJFL7SFBSVLJ5VUNPGCDFEVZ7M23LTLVTCCXJQBKA";

#[test]
fn address_is_a_pure_function_of_the_seed() {
    let a = Identity::from_seed([7u8; SEED_LEN]);
    let b = Identity::from_seed([7u8; SEED_LEN]);
    let c = Identity::from_seed([8u8; SEED_LEN]);
    assert_eq!(a.onion_address(), b.onion_address());
    assert_ne!(a.onion_address(), c.onion_address());
}

#[test]
fn address_is_a_well_formed_v3_onion() {
    let addr = Identity::from_seed([1u8; SEED_LEN]).onion_address();
    assert!(addr.ends_with(".onion"), "{addr}");
    assert_eq!(addr.len(), 56 + ".onion".len(), "{addr}");
    assert_eq!(check_address(&addr), Ok(()));
}

/// A new seed is written down, read back as the same identity, and replaced by another one
/// when its file is gone. Its mode has to keep everyone else out.
#[test]
fn seed_roundtrips_through_disk_at_0600() {
    let (first, fresh) = Identity::load_or_create(None).unwrap();
    assert!(fresh);
    let disk = first.stored();
    assert_eq!(disk.len(), SEED_LEN);
    Identity::check_permissions(0o100600).expect("0600");

    let (second, fresh) = Identity::load_or_create(Some(disk.as_slice())).unwrap();
    assert!(!fresh);
    assert_eq!(first.onion_address(), second.onion_address());

    let (third, _) = Identity::load_or_create(None).unwrap();
    assert_ne!(first.onion_address(), third.onion_address());
}

#[test]
fn a_seed_file_of_the_wrong_shape_is_refused() {
    let e = Identity::load_or_create(Some(&[1u8; 31])).err().unwrap();
    assert_eq!(e, SeedError::WrongLength(31));
    assert_eq!(
        e.describe("/x/identity.seed"),
        "/x/identity.seed is 31 bytes, expected exactly 32; delete it to generate a fresh identity"
    );
    let e = Identity::check_permissions(0o100644).unwrap_err();
    assert_eq!(e, SeedError::Exposed(0o644));
    assert_eq!(
        e.describe("/x/s"),
        "/x/s is mode 644; the identity seed must be 0600. Run: chmod 600 /x/s"
    );
    assert!(Identity::check_permissions(0o100610).is_err());
    assert!(Identity::check_permissions(0o100700).is_ok());
}

/// The known answers that come from the crates underneath.
#[test]
fn keys_and_signatures_are_the_usual_ones() {
    // The first test vector of RFC 8032.
    let seed: [u8; 32] = [
        0x9d, 0x61, 0xb1, 0x9d, 0xef, 0xfd, 0x5a, 0x60, 0xba, 0x84, 0x4a, 0xf4, 0x92, 0xec, 0x2c,
        0xc4, 0x44, 0x49, 0xc5, 0x69, 0x7b, 0x32, 0x69, 0x19, 0x70, 0x3b, 0xac, 0x03, 0x1c, 0xae,
        0x7f, 0x60,
    ];
    let public: [u8; 32] = [
        0xd7, 0x5a, 0x98, 0x01, 0x82, 0xb1, 0x0a, 0xb7, 0xd5, 0x4b, 0xfe, 0xd3, 0xc9, 0x64, 0x07,
        0x3a, 0x0e, 0xe1, 0x72, 0xf3, 0xda, 0xa6, 0x23, 0x25, 0xaf, 0x02, 0x1a, 0x68, 0xf7, 0x07,
        0x51, 0x1a,
    ];
    let id = Identity::from_seed(seed);
    assert_eq!(id.id(), public);
    let signature = id.sign(b"");
    assert_eq!(signature[..8], [0xe5, 0x56, 0x43, 0x00, 0xc3, 0x60, 0xac, 0x72]);
    assert_eq!(
        id.onion_address(),
        "25njqamcweflpvkl73j4szahhihoc4xt3ktcgjnpaingr5yhkenl5sid.onion"
    );
    assert_eq!(peer_of(&id.onion_address()), Ok(public));
    assert_eq!(address_of(&public), id.onion_address());
    assert_eq!(peer_of("not an address"), Err("Domain name does not end in .onion".to_owned()));
    assert_eq!(
        peer_of(&GOOD.replace('h', "g")),
        Err("Checksum failed, .onion address corrupted".to_owned()),
        "the checksum is looked at"
    );
    assert_eq!(id.derive_key("a purpose"), blake3::derive_key("a purpose", &seed));
    assert_ne!(id.derive_key("a purpose"), id.derive_key("another"));
    let expanded = id.hs_id_keypair();
    let keypair =
        tor_llcrypto::pk::ed25519::ExpandedKeypair::from_secret_key_bytes(expanded).unwrap();
    assert_eq!(keypair.public().to_bytes(), public);
    assert!(id.discovery_key().starts_with("descriptor:x25519:"));
    assert_eq!(check_discovery_key(&id.discovery_key()), Ok(()));
    assert_eq!(id.discovery_secret(), id.derive_key(murmure::identity::DISCOVERY_CONTEXT));
}

#[test]
fn discovery_keys_need_the_full_prefix() {
    assert!(check_discovery_key(GOOD_KEY).is_ok());
    assert!(check_discovery_key(&GOOD_KEY.to_lowercase()).is_ok());
    assert!(check_discovery_key(GOOD_KEY.rsplit(':').next().unwrap()).is_err());
    assert!(check_discovery_key(GOOD).is_err());
    assert!(check_discovery_key("descriptor:ed25519:AAAA").is_err());
    // The whole chain of causes is told.
    assert_eq!(
        check_discovery_key("x"),
        Err("x is not a service discovery key: Invalid key format".to_owned())
    );
    assert_eq!(
        check_discovery_key("descriptor:x25519:1"),
        Err("descriptor:x25519:1 is not a service discovery key: Invalid base32 in client key: invalid length at 0".to_owned())
    );
}

#[test]
fn fingerprint_takes_both_ends() {
    assert_eq!(fingerprint(GOOD), "hati … 7ryd");
}

#[test]
fn a_short_address_gives_all_it_has() {
    assert_eq!(fingerprint("ab.onion"), "ab … ab");
    assert_eq!(fingerprint(""), " … ");
    assert_eq!(fingerprint("abcdefgh"), "abcd … efgh");
}

#[test]
fn well_formed_rejects_the_wrong_shapes() {
    assert!(check_address(GOOD).is_ok());
    assert!(check_address("abcdefghij234567.onion").is_err());
    assert!(check_address(GOOD.trim_end_matches(".onion")).is_err());
    assert!(
        check_address("1aticvmas7sfodcos2yhp7sf43cxifwl5aafgeathnyad4culhdj7ry8.onion").is_err()
    );
    assert!(check_address(&GOOD.to_uppercase()).is_err());
}

#[test]
fn address_errors_say_what_is_wrong() {
    let e = check_address("abc").unwrap_err();
    assert_eq!(e, AddressError::NotOnion);
    assert_eq!(e.describe("abc"), "abc does not end in .onion");
    let e = check_address("é.onion").unwrap_err();
    assert_eq!(e, AddressError::WrongLength(2));
    assert_eq!(
        e.describe("é.onion"),
        "é.onion has 2 characters before .onion, expected 56 (v3)"
    );
    let bad = GOOD.replace('h', "H");
    let e = check_address(&bad).unwrap_err();
    assert_eq!(e, AddressError::NotBase32);
    assert_eq!(e.describe("x"), "x is not lowercase base32");
}

#[test]
fn sealed_data_round_trips() {
    let key = [3u8; 32];
    let sealed = seal(&key, b"alice = haticv...onion").unwrap();
    assert_eq!(open(&key, &sealed).unwrap(), b"alice = haticv...onion");
}

#[test]
fn the_plaintext_never_appears_in_the_sealed_bytes() {
    let key = [3u8; 32];
    let sealed = seal(&key, b"alice").unwrap();
    assert!(
        !sealed.windows(5).any(|w| w == b"alice"),
        "the contacts book must not be readable on disk"
    );
}

#[test]
fn a_different_seed_cannot_open_it() {
    let sealed = seal(&[3u8; 32], b"alice").unwrap();
    assert_eq!(open(&[4u8; 32], &sealed), Err(StoreError::Refused));
}

#[test]
fn tampering_is_detected() {
    let key = [3u8; 32];
    let mut sealed = seal(&key, b"alice").unwrap();
    let last = sealed.len() - 1;
    sealed[last] ^= 1;
    assert!(open(&key, &sealed).is_err());
}

#[test]
fn each_seal_uses_a_fresh_nonce() {
    let key = [3u8; 32];
    assert_ne!(seal(&key, b"alice").unwrap(), seal(&key, b"alice").unwrap());
}

#[test]
fn a_missing_file_is_not_an_error() {
    assert!(read_sealed(None, &[3u8; 32]).unwrap().is_none());
}

#[test]
fn files_round_trip_through_disk() {
    let key = [9u8; 32];
    let disk = seal(&key, b"alice").unwrap();
    assert_eq!(read_sealed(Some(disk.as_slice()), &key).unwrap().unwrap(), b"alice");
    let disk = seal(&key, b"bob").unwrap();
    assert_eq!(read_sealed(Some(disk.as_slice()), &key).unwrap().unwrap(), b"bob");
}

#[test]
fn sealing_under_a_nonce_puts_it_in_front() {
    let (key, nonce) = ([3u8; 32], [6u8; 24]);
    let sealed = seal_with(&key, &nonce, b"alice").unwrap();
    assert_eq!(sealed[..24], nonce);
    assert_eq!(sealed.len(), 24 + 5 + 16);
    assert_eq!(sealed, seal_with(&key, &nonce, b"alice").unwrap());
    assert_eq!(open(&key, &sealed).unwrap(), b"alice");
    assert_eq!(open(&key, &sealed[..23]), Err(StoreError::TooShort(23)));
    assert_eq!(open(&key, &sealed[..24]), Err(StoreError::Refused));
    assert_eq!(
        StoreError::TooShort(23).describe(),
        "sealed data is 23 bytes, too short to hold a nonce"
    );
}
