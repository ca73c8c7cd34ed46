//! Byte strings: cutting, joining and comparing them.

use vstd::prelude::*;

verus! {

/// The first 32 of some bytes, as an array.
pub fn array32(b: &[u8]) -> (r: [u8; 32])
    requires
        b@.len() >= 32,
    ensures
        r@ == b@.take(32),
{
    let mut a = [0u8; 32];
    let mut i: usize = 0;
    while i < 32
        invariant
            i <= 32 <= b@.len(),
            forall|j: int| 0 <= j < i ==> a@[j] == b@[j],
        decreases 32 - i,
    {
        a[i] = b[i];
        i = i + 1;
    }
    assert(a@ =~= b@.take(32));
    a
}

/// The first 24 of some bytes, as an array.
pub fn array24(b: &[u8]) -> (r: [u8; 24])
    requires
        b@.len() >= 24,
    ensures
        r@ == b@.take(24),
{
    let mut a = [0u8; 24];
    let mut i: usize = 0;
    while i < 24
        invariant
            i <= 24 <= b@.len(),
            forall|j: int| 0 <= j < i ==> a@[j] == b@[j],
        decreases 24 - i,
    {
        a[i] = b[i];
        i = i + 1;
    }
    assert(a@ =~= b@.take(24));
    a
}

/// The first 64 of some bytes, as an array.
pub fn array64(b: &[u8]) -> (r: [u8; 64])
    requires
        b@.len() >= 64,
    ensures
        r@ == b@.take(64),
{
    let mut a = [0u8; 64];
    let mut i: usize = 0;
    while i < 64
        invariant
            i <= 64 <= b@.len(),
            forall|j: int| 0 <= j < i ==> a@[j] == b@[j],
        decreases 64 - i,
    {
        a[i] = b[i];
        i = i + 1;
    }
    assert(a@ =~= b@.take(64));
    a
}

/// Whether two byte strings are equal.
pub fn equal(a: &[u8], b: &[u8]) -> (r: bool)
    ensures
        r == (a@ == b@),
{
    if a.len() != b.len() {
        return false;
    }
    let mut i: usize = 0;
    while i < a.len()
        invariant
            i <= a@.len() == b@.len(),
            forall|j: int| 0 <= j < i ==> a@[j] == b@[j],
        decreases a@.len() - i,
    {
        if a[i] != b[i] {
            return false;
        }
        i = i + 1;
    }
    assert(a@ =~= b@);
    true
}

/// A copy of some bytes.
pub fn copy(b: &[u8]) -> (r: Vec<u8>)
    ensures
        r@ == b@,
{
    vstd::slice::slice_to_vec(b)
}

} // verus!
