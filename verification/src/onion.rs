//! Onion addresses and discovery keys: checks, and the form in which people compare them.

use vstd::prelude::*;
use vstd::string::*;
use vstd::utf8::*;

use crate::crypto::{
    base32_lower, discovery_error, discovery_fault, discovery_key_ok, onion_shape,
};
use crate::text::{chars, decimal, decimal_text, piece};

verus! {

/// Number of base32 characters in a v3 onion address, before `.onion`.
pub const V3_LEN: usize = 56;

/// Why a text is no onion address.
#[derive(Clone, Copy, Debug, PartialEq, Eq, Structural)]
pub enum AddressError {
    /// It does not end in `.onion`.
    NotOnion,
    /// What stands before `.onion` has the wrong length in bytes; its length.
    WrongLength(usize),
    /// Something in it is not lowercase base32.
    NotBase32,
}

/// A text ends in `.onion`.
pub open spec fn ends_onion(a: Seq<char>) -> bool {
    a.len() >= 6 && a.skip(a.len() - 6) == ".onion"@
}

/// What stands before `.onion`, or the text itself where it does not end so.
pub open spec fn base32_part(a: Seq<char>) -> Seq<char> {
    if ends_onion(a) {
        a.take(a.len() - 6)
    } else {
        a
    }
}

/// What is wrong with an address, if anything is. Lengths count bytes.
pub open spec fn address_fault(a: Seq<char>) -> Option<AddressError> {
    let base = base32_part(a);
    if !ends_onion(a) {
        Some(AddressError::NotOnion)
    } else if encode_utf8(base).len() != V3_LEN {
        Some(AddressError::WrongLength(encode_utf8(base).len() as usize))
    } else if !(forall|i: int| 0 <= i < base.len() ==> base32_lower(#[trigger] base[i])) {
        Some(AddressError::NotBase32)
    } else {
        None
    }
}

impl AddressError {
    /// What the operator is told.
    pub open spec fn said(self, address: Seq<char>) -> Seq<char> {
        match self {
            AddressError::NotOnion => address + " does not end in .onion"@,
            AddressError::WrongLength(n) => address + " has "@ + decimal_text(n as nat)
                + " characters before .onion, expected 56 (v3)"@,
            AddressError::NotBase32 => address + " is not lowercase base32"@,
        }
    }

    /// Say what is wrong with an address.
    pub fn describe(&self, address: &str) -> (r: String)
        ensures
            r@ == self.said(address@),
    {
        let mut s = address.to_owned();
        match self {
            AddressError::NotOnion => {
                s.append(" does not end in .onion");
            },
            AddressError::WrongLength(n) => {
                s.append(" has ");
                s.append(decimal(*n as u128).as_str());
                s.append(" characters before .onion, expected 56 (v3)");
            },
            AddressError::NotBase32 => {
                s.append(" is not lowercase base32");
            },
        }
        s
    }
}

/// How many characters stand before `.onion`, or nothing if the text does not end so.
fn before_onion(cs: &[char]) -> (r: Option<usize>)
    ensures
        match r {
            Some(n) => ends_onion(cs@) && n == cs@.len() - 6,
            None => !ends_onion(cs@),
        },
{
    proof {
        reveal_strlit(".onion");
    }
    let n: usize = cs.len();
    if n < 6 {
        return None;
    }
    let ghost t = cs@.skip(n - 6);
    if cs[n - 6] == '.' && cs[n - 5] == 'o' && cs[n - 4] == 'n' && cs[n - 3] == 'i' && cs[n - 2]
        == 'o' && cs[n - 1] == 'n' {
        assert(t =~= ".onion"@);
        Some(n - 6)
    } else {
        proof {
            if t == ".onion"@ {
                assert(t[0] == '.' && t[1] == 'o' && t[2] == 'n' && t[3] == 'i' && t[4] == 'o'
                    && t[5] == 'n');
            }
        }
        None
    }
}

/// The number of bytes a text takes.
fn byte_len(s: &str) -> (r: usize)
    ensures
        r == encode_utf8(s@).len(),
{
    s.as_bytes().len()
}

/// Reject anything that is not a well-formed v3 onion address.
pub fn check_address(address: &str) -> (r: Result<(), AddressError>)
    ensures
        match r {
            Ok(_) => address_fault(address@) is None,
            Err(e) => address_fault(address@) == Some(e),
        },
{
    let cs = chars(address);
    match before_onion(cs.as_slice()) {
        None => Err(AddressError::NotOnion),
        Some(n) => {
            let base = piece(cs.as_slice(), 0, n);
            assert(base@ =~= base32_part(address@));
            let len = byte_len(base.as_str());
            if len != V3_LEN {
                return Err(AddressError::WrongLength(len));
            }
            let mut i: usize = 0;
            while i < n
                invariant
                    i <= n <= cs@.len(),
                    base@ == cs@.subrange(0, n as int),
                    base@ == base32_part(address@),
                    ends_onion(address@),
                    encode_utf8(base@).len() == V3_LEN,
                    forall|j: int| 0 <= j < i ==> base32_lower(#[trigger] base@[j]),
                decreases n - i,
            {
                let c: u32 = cs[i] as u32;
                if !((97 <= c && c <= 122) || (50 <= c && c <= 55)) {
                    assert(!base32_lower(base@[i as int]));
                    return Err(AddressError::NotBase32);
                }
                assert(base32_lower(base@[i as int]));
                i = i + 1;
            }
            Ok(())
        },
    }
}

/// What is said of a text that is no discovery key, in full.
pub open spec fn not_a_key(key: Seq<char>) -> Seq<char> {
    key + " is not a service discovery key"@ + match discovery_fault(key) {
        None => Seq::empty(),
        Some((text, None)) => ": "@ + text,
        Some((text, Some(from))) => ": "@ + text + ": "@ + from,
    }
}

/// Reject anything that is not a `descriptor:x25519:<base32>` discovery key.
pub fn check_discovery_key(key: &str) -> (r: Result<(), String>)
    ensures
        match r {
            Ok(_) => discovery_key_ok(key@),
            Err(text) => !discovery_key_ok(key@) && text@ == not_a_key(key@),
        },
{
    match discovery_error(key) {
        None => Ok(()),
        Some((text, from)) => {
            let mut s = key.to_owned();
            s.append(" is not a service discovery key");
            let mut cause = ": ".to_owned();
            cause.append(text.as_str());
            match from {
                None => {},
                Some(from) => {
                    cause.append(": ");
                    cause.append(from.as_str());
                },
            }
            s.append(cause.as_str());
            Err(s)
        },
    }
}

/// The first and last four characters of an address, for comparing out loud. A shorter text
/// gives all it has.
pub open spec fn fingerprint_of(address: Seq<char>) -> Seq<char> {
    let base = base32_part(address);
    let n = if base.len() < 4 {
        base.len() as int
    } else {
        4
    };
    base.take(n) + " … "@ + base.skip(base.len() - n)
}

/// A short, speakable digest of an address.
pub fn fingerprint(address: &str) -> (r: String)
    ensures
        r@ == fingerprint_of(address@),
{
    let cs = chars(address);
    let len: usize = match before_onion(cs.as_slice()) {
        Some(n) => n,
        None => cs.len(),
    };
    let ghost base = base32_part(address@);
    assert(base =~= cs@.subrange(0, len as int));
    let n: usize = if len < 4 {
        len
    } else {
        4
    };
    let mut s = piece(cs.as_slice(), 0, n);
    assert(s@ =~= base.take(n as int));
    s.append(" … ");
    let tail = piece(cs.as_slice(), len - n, len);
    assert(tail@ =~= base.skip(base.len() - n));
    s.append(tail.as_str());
    s
}

/// The UTF-8 form of base32 letters is one byte for each.
proof fn base32_is_ascii(s: Seq<char>)
    requires
        forall|i: int| 0 <= i < s.len() ==> base32_lower(#[trigger] s[i]),
    ensures
        encode_utf8(s).len() == s.len(),
    decreases s.len(),
{
    if s.len() > 0 {
        assert(base32_lower(s[0]));
        assert forall|i: int| 0 <= i < s.drop_first().len() implies base32_lower(
            #[trigger] s.drop_first()[i],
        ) by {
            assert(base32_lower(s[i + 1]));
        }
        base32_is_ascii(s.drop_first());
        assert(has_width_1_encoding(s[0] as u32));
    }
}

/// An address that came out of an identity always passes the check.
pub proof fn derived_addresses_pass(a: Seq<char>)
    requires
        onion_shape(a),
    ensures
        address_fault(a) is None,
{
    reveal_strlit(".onion");
    assert(a.skip(a.len() - 6) =~= ".onion"@);
    let base = base32_part(a);
    assert forall|i: int| 0 <= i < base.len() implies base32_lower(#[trigger] base[i]) by {
        assert(base32_lower(a[i]));
    }
    base32_is_ascii(base);
}

/// An address that passes the check is 56 letters of lowercase base32 and `.onion`, and
/// nothing else.
pub proof fn checked_addresses_are_v3(a: Seq<char>)
    requires
        address_fault(a) is None,
    ensures
        onion_shape(a),
{
    reveal_strlit(".onion");
    let base = base32_part(a);
    base32_is_ascii(base);
    assert(a.skip(56) =~= seq!['.', 'o', 'n', 'i', 'o', 'n']);
    assert forall|i: int| 0 <= i < 56 implies base32_lower(#[trigger] a[i]) by {
        assert(base32_lower(base[i]));
    }
}

} // verus!
