//! Bytes for plain values, as postcard writes them: numbers as variable-length integers,
//! texts and byte strings behind their length, fixed arrays bare.
//!
//! Everything murmure stores or sends is made of these, one after the other.

use vstd::prelude::*;
use vstd::string::*;
use vstd::utf8::*;

verus! {

/// A number in groups of seven bits, the low ones first; the top bit of a byte says that
/// another follows.
pub open spec fn varint(n: nat) -> Seq<u8>
    decreases n,
{
    if n < 128 {
        seq![n as u8]
    } else {
        seq![(n % 128 + 128) as u8] + varint(n / 128)
    }
}

/// Why bytes could not be read.
#[derive(Clone, Copy, Debug, PartialEq, Eq, Structural)]
pub enum Garbled {
    /// They end too soon.
    End,
    /// A number does not end where it must, or is too large.
    Varint,
    /// A truth value is neither 0 nor 1.
    Bool,
    /// A text is not UTF-8.
    Utf8,
    /// What says whether something follows is neither 0 nor 1.
    Choice,
    /// There is no variant of that number.
    Variant,
}

impl Garbled {
    /// What is said of it: the words of postcard's own errors.
    pub open spec fn said(self) -> Seq<char> {
        match self {
            Garbled::End => "Hit the end of buffer, expected more data"@,
            Garbled::Varint =>
                "Found a varint that didn't terminate. Is the usize too big for this platform?"@,
            Garbled::Bool => "Found a bool that wasn't 0 or 1"@,
            Garbled::Utf8 => "Tried to parse invalid utf-8"@,
            Garbled::Choice => "Found an Option discriminant that wasn't 0 or 1"@,
            Garbled::Variant => "Serde Deserialization Error"@,
        }
    }

    /// Say what went wrong.
    pub fn describe(&self) -> (r: String)
        ensures
            r@ == self.said(),
    {
        match self {
            Garbled::End => "Hit the end of buffer, expected more data".to_owned(),
            Garbled::Varint =>
                "Found a varint that didn't terminate. Is the usize too big for this platform?".to_owned(),
            Garbled::Bool => "Found a bool that wasn't 0 or 1".to_owned(),
            Garbled::Utf8 => "Tried to parse invalid utf-8".to_owned(),
            Garbled::Choice => "Found an Option discriminant that wasn't 0 or 1".to_owned(),
            Garbled::Variant => "Serde Deserialization Error".to_owned(),
        }
    }
}

/// Read such a number back, in at most `room` bytes, the last of which may be at most
/// `last`. A number with more bytes than it needs is read all the same.
pub open spec fn read_varint(b: Seq<u8>, room: nat, last: nat) -> Result<
    (nat, Seq<u8>),
    Garbled,
>
    decreases room,
{
    if room == 0 {
        Err(Garbled::Varint)
    } else if b.len() == 0 {
        Err(Garbled::End)
    } else if b[0] < 128 {
        if room == 1 && b[0] > last {
            Err(Garbled::Varint)
        } else {
            Ok((b[0] as nat, b.skip(1)))
        }
    } else {
        match read_varint(b.skip(1), (room - 1) as nat, last) {
            Ok((n, rest)) => Ok(((b[0] - 128 + 128 * n) as nat, rest)),
            Err(e) => Err(e),
        }
    }
}

/// How a 64-bit number is read.
pub open spec fn read_u64(b: Seq<u8>) -> Result<(nat, Seq<u8>), Garbled> {
    read_varint(b, 10, 1)
}

/// How a 32-bit number is read.
pub open spec fn read_u32(b: Seq<u8>) -> Result<(nat, Seq<u8>), Garbled> {
    read_varint(b, 5, 15)
}

/// How a 16-bit number is read.
pub open spec fn read_u16(b: Seq<u8>) -> Result<(nat, Seq<u8>), Garbled> {
    read_varint(b, 3, 3)
}

/// How a length is read: as a number of the machine's word.
pub open spec fn read_len(b: Seq<u8>) -> Result<(nat, Seq<u8>), Garbled> {
    if usize::BITS == 64 {
        read_u64(b)
    } else {
        read_u32(b)
    }
}

/// A truth value is one byte.
pub open spec fn bool_bytes(v: bool) -> Seq<u8> {
    seq![if v { 1u8 } else { 0u8 }]
}

/// How a truth value is read: no byte but 0 and 1 is one.
pub open spec fn read_bool(b: Seq<u8>) -> Result<(bool, Seq<u8>), Garbled> {
    if b.len() == 0 {
        Err(Garbled::End)
    } else if b[0] <= 1 {
        Ok((b[0] == 1, b.skip(1)))
    } else {
        Err(Garbled::Bool)
    }
}

/// How the byte is read that says whether something follows.
pub open spec fn read_choice(b: Seq<u8>) -> Result<(bool, Seq<u8>), Garbled> {
    match read_bool(b) {
        Err(Garbled::Bool) => Err(Garbled::Choice),
        r => r,
    }
}

/// Bytes behind their number.
pub open spec fn counted(s: Seq<u8>) -> Seq<u8> {
    varint(s.len()) + s
}

/// How counted bytes are read.
pub open spec fn read_counted(b: Seq<u8>) -> Result<(Seq<u8>, Seq<u8>), Garbled> {
    match read_len(b) {
        Ok((n, rest)) => if n <= rest.len() {
            Ok((rest.take(n as int), rest.skip(n as int)))
        } else {
            Err(Garbled::End)
        },
        Err(e) => Err(e),
    }
}

/// A text is the counted bytes of its UTF-8 form.
pub open spec fn text_bytes(s: Seq<char>) -> Seq<u8> {
    counted(encode_utf8(s))
}

/// How a text is read: counted bytes that are UTF-8.
pub open spec fn read_text(b: Seq<u8>) -> Result<(Seq<char>, Seq<u8>), Garbled> {
    match read_counted(b) {
        Ok((s, rest)) => if valid_utf8(s) {
            Ok((decode_utf8(s), rest))
        } else {
            Err(Garbled::Utf8)
        },
        Err(e) => Err(e),
    }
}

/// How a fixed number of bare bytes is read.
pub open spec fn read_raw(b: Seq<u8>, n: nat) -> Result<(Seq<u8>, Seq<u8>), Garbled> {
    if n <= b.len() {
        Ok((b.take(n as int), b.skip(n as int)))
    } else {
        Err(Garbled::End)
    }
}

/// How an address of `n` bytes and its port are read.
pub open spec fn read_address(b: Seq<u8>, n: nat) -> Result<
    ((Seq<u8>, nat), Seq<u8>),
    Garbled,
> {
    match read_raw(b, n) {
        Ok((ip, rest)) => match read_u16(rest) {
            Ok((port, rest)) => Ok(((ip, port), rest)),
            Err(e) => Err(e),
        },
        Err(e) => Err(e),
    }
}

/// `postcard::to_stdvec` on a `u64`: a variable-length integer. It does not fail, since a
/// `Vec` takes any number of bytes.
#[verifier::external_body]
pub(crate) fn put_u64(v: u64) -> (r: Option<Vec<u8>>)
    ensures
        r is Some,
        r->0@ == varint(v as nat),
{
    postcard::to_stdvec(&v).ok()
}

/// `postcard::to_stdvec` on a `bool`: one byte, 1 or 0.
#[verifier::external_body]
pub(crate) fn put_bool(v: bool) -> (r: Option<Vec<u8>>)
    ensures
        r is Some,
        r->0@ == bool_bytes(v),
{
    postcard::to_stdvec(&v).ok()
}

/// `postcard::to_stdvec` on a text: its length in bytes, then its UTF-8 form.
#[verifier::external_body]
pub(crate) fn put_str(v: &str) -> (r: Option<Vec<u8>>)
    ensures
        r is Some,
        r->0@ == text_bytes(v@),
{
    postcard::to_stdvec(v).ok()
}

/// `postcard::to_stdvec` on a slice of bytes: the length, then the bytes.
#[verifier::external_body]
pub(crate) fn put_bytes(v: &[u8]) -> (r: Option<Vec<u8>>)
    ensures
        r is Some,
        r->0@ == counted(v@),
{
    postcard::to_stdvec(v).ok()
}

/// `postcard::take_from_bytes` for a `u64`: at most ten bytes, the tenth at most 1. It fails
/// where a number is longer or larger, or the bytes end.
#[verifier::external_body]
pub(crate) fn take_u64(b: &[u8]) -> (r: Result<(u64, &[u8]), Garbled>)
    ensures
        match r {
            Ok((v, rest)) => read_u64(b@) == Ok::<_, Garbled>((v as nat, rest@)),
            Err(e) => read_u64(b@) is Err && read_u64(b@)->Err_0 == e,
        },
{
    postcard::take_from_bytes::<u64>(b).map_err(
        |e| match e {
            postcard::Error::DeserializeBadVarint => Garbled::Varint,
            _ => Garbled::End,
        },
    )
}

/// `postcard::take_from_bytes` for a `u32`: at most five bytes, the fifth at most 15.
#[verifier::external_body]
pub(crate) fn take_u32(b: &[u8]) -> (r: Result<(u32, &[u8]), Garbled>)
    ensures
        match r {
            Ok((v, rest)) => read_u32(b@) == Ok::<_, Garbled>((v as nat, rest@)),
            Err(e) => read_u32(b@) is Err && read_u32(b@)->Err_0 == e,
        },
{
    postcard::take_from_bytes::<u32>(b).map_err(
        |e| match e {
            postcard::Error::DeserializeBadVarint => Garbled::Varint,
            _ => Garbled::End,
        },
    )
}

/// `postcard::take_from_bytes` for a `bool`: one byte, 0 or 1. It fails on any other, and
/// where there is none.
#[verifier::external_body]
pub(crate) fn take_bool(b: &[u8]) -> (r: Result<(bool, &[u8]), Garbled>)
    ensures
        match r {
            Ok((v, rest)) => read_bool(b@) == Ok::<_, Garbled>((v, rest@)),
            Err(e) => read_bool(b@) is Err && read_bool(b@)->Err_0 == e,
        },
{
    postcard::take_from_bytes::<bool>(b).map_err(
        |e| match e {
            postcard::Error::DeserializeBadBool => Garbled::Bool,
            _ => Garbled::End,
        },
    )
}

/// `postcard::take_from_bytes` for a `String`: a length, that many bytes, all of them UTF-8. It
/// fails on a bad length, then where the bytes end, then where they are no UTF-8.
#[verifier::external_body]
pub(crate) fn take_str(b: &[u8]) -> (r: Result<(String, &[u8]), Garbled>)
    ensures
        match r {
            Ok((v, rest)) => read_text(b@) == Ok::<_, Garbled>((v@, rest@)),
            Err(e) => read_text(b@) is Err && read_text(b@)->Err_0 == e,
        },
{
    postcard::take_from_bytes::<String>(b).map_err(
        |e| match e {
            postcard::Error::DeserializeBadVarint => Garbled::Varint,
            postcard::Error::DeserializeBadUtf8 => Garbled::Utf8,
            _ => Garbled::End,
        },
    )
}

/// `postcard::take_from_bytes` for a `Vec<u8>`: a length, then that many bytes.
#[verifier::external_body]
pub(crate) fn take_bytes(b: &[u8]) -> (r: Result<(Vec<u8>, &[u8]), Garbled>)
    ensures
        match r {
            Ok((v, rest)) => read_counted(b@) == Ok::<_, Garbled>((v@, rest@)),
            Err(e) => read_counted(b@) is Err && read_counted(b@)->Err_0 == e,
        },
{
    postcard::take_from_bytes::<Vec<u8>>(b).map_err(
        |e| match e {
            postcard::Error::DeserializeBadVarint => Garbled::Varint,
            _ => Garbled::End,
        },
    )
}

/// `postcard::take_from_bytes` for a `[u8; 32]`: 32 bare bytes. It fails only where they end
/// sooner.
#[verifier::external_body]
pub(crate) fn take_hash(b: &[u8]) -> (r: Result<([u8; 32], &[u8]), Garbled>)
    ensures
        match r {
            Ok((v, rest)) => read_raw(b@, 32) == Ok::<_, Garbled>((v@, rest@)),
            Err(e) => read_raw(b@, 32) is Err && read_raw(b@, 32)->Err_0 == e,
        },
{
    postcard::take_from_bytes::<[u8; 32]>(b).map_err(|_| Garbled::End)
}

/// `postcard::take_from_bytes` for a pair of a `[u8; 4]` and a `u16`: four bare bytes, then
/// a variable-length integer of at most three bytes, the third at most 3.
#[verifier::external_body]
pub(crate) fn take_v4(b: &[u8]) -> (r: Result<(([u8; 4], u16), &[u8]), Garbled>)
    ensures
        match r {
            Ok((v, rest)) => read_address(b@, 4) == Ok::<_, Garbled>(((v.0@, v.1 as nat), rest@)),
            Err(e) => read_address(b@, 4) is Err && read_address(b@, 4)->Err_0 == e,
        },
{
    postcard::take_from_bytes::<([u8; 4], u16)>(b).map_err(
        |e| match e {
            postcard::Error::DeserializeBadVarint => Garbled::Varint,
            _ => Garbled::End,
        },
    )
}

/// `postcard::take_from_bytes` for a pair of a `[u8; 16]` and a `u16`: sixteen bare bytes,
/// then the same kind of integer.
#[verifier::external_body]
pub(crate) fn take_v6(b: &[u8]) -> (r: Result<(([u8; 16], u16), &[u8]), Garbled>)
    ensures
        match r {
            Ok((v, rest)) => read_address(b@, 16) == Ok::<_, Garbled>(((v.0@, v.1 as nat), rest@)),
            Err(e) => read_address(b@, 16) is Err && read_address(b@, 16)->Err_0 == e,
        },
{
    postcard::take_from_bytes::<([u8; 16], u16)>(b).map_err(
        |e| match e {
            postcard::Error::DeserializeBadVarint => Garbled::Varint,
            _ => Garbled::End,
        },
    )
}

/// Read a length.
pub(crate) fn take_len(b: &[u8]) -> (r: Result<(usize, &[u8]), Garbled>)
    ensures
        match r {
            Ok((v, rest)) => read_len(b@) == Ok::<_, Garbled>((v as nat, rest@)),
            Err(e) => read_len(b@) is Err && read_len(b@)->Err_0 == e,
        },
{
    if usize::BITS == 64 {
        match take_u64(b) {
            Ok((v, rest)) => Ok((v as usize, rest)),
            Err(e) => Err(e),
        }
    } else {
        match take_u32(b) {
            Ok((v, rest)) => Ok((v as usize, rest)),
            Err(e) => Err(e),
        }
    }
}

/// Read the byte that says whether something follows.
pub(crate) fn take_choice(b: &[u8]) -> (r: Result<(bool, &[u8]), Garbled>)
    ensures
        match r {
            Ok((v, rest)) => read_choice(b@) == Ok::<_, Garbled>((v, rest@)),
            Err(e) => read_choice(b@) is Err && read_choice(b@)->Err_0 == e,
        },
{
    match take_bool(b) {
        Err(Garbled::Bool) => Err(Garbled::Choice),
        r => r,
    }
}

/// Append a number.
pub(crate) fn add_u64(out: &mut Vec<u8>, v: u64)
    ensures
        final(out)@ == old(out)@ + varint(v as nat),
{
    let mut b = put_u64(v).unwrap();
    out.append(&mut b);
}

/// Append a truth value.
pub(crate) fn add_bool(out: &mut Vec<u8>, v: bool)
    ensures
        final(out)@ == old(out)@ + bool_bytes(v),
{
    let mut b = put_bool(v).unwrap();
    out.append(&mut b);
}

/// Append a text.
pub(crate) fn add_str(out: &mut Vec<u8>, v: &str)
    ensures
        final(out)@ == old(out)@ + text_bytes(v@),
{
    let mut b = put_str(v).unwrap();
    out.append(&mut b);
}

/// Append counted bytes.
pub(crate) fn add_bytes(out: &mut Vec<u8>, v: &[u8])
    ensures
        final(out)@ == old(out)@ + counted(v@),
{
    let mut b = put_bytes(v).unwrap();
    out.append(&mut b);
}

/// Append bare bytes.
pub(crate) fn add_raw(out: &mut Vec<u8>, v: &[u8])
    ensures
        final(out)@ == old(out)@ + v@,
{
    let mut i: usize = 0;
    assert(old(out)@ + v@.take(0) =~= old(out)@);
    while i < v.len()
        invariant
            i <= v@.len(),
            out@ == old(out)@ + v@.take(i as int),
        decreases v@.len() - i,
    {
        out.push(v[i]);
        proof {
            assert(old(out)@ + v@.take(i + 1) =~= (old(out)@ + v@.take(i as int)).push(
                v@[i as int],
            ));
        }
        i = i + 1;
    }
    assert(v@.take(v@.len() as int) =~= v@);
}

/// Things one after the other, each written by `w`.
pub open spec fn list_bytes<T>(s: Seq<T>, w: spec_fn(T) -> Seq<u8>) -> Seq<u8>
    decreases s.len(),
{
    if s.len() == 0 {
        Seq::empty()
    } else {
        w(s[0]) + list_bytes(s.drop_first(), w)
    }
}

/// How `n` things are read, each by `g`.
pub open spec fn read_list<T>(
    b: Seq<u8>,
    n: nat,
    g: spec_fn(Seq<u8>) -> Result<(T, Seq<u8>), Garbled>,
) -> Result<(Seq<T>, Seq<u8>), Garbled>
    decreases n,
{
    if n == 0 {
        Ok((Seq::empty(), b))
    } else {
        match g(b) {
            Err(e) => Err(e),
            Ok((x, rest)) => match read_list(rest, (n - 1) as nat, g) {
                Err(e) => Err(e),
                Ok((xs, rest)) => Ok((seq![x] + xs, rest)),
            },
        }
    }
}

/// What reading on gives once `done` things have been read.
pub open spec fn after<T>(done: Seq<T>, rest: Result<(Seq<T>, Seq<u8>), Garbled>) -> Result<
    (Seq<T>, Seq<u8>),
    Garbled,
> {
    match rest {
        Err(e) => Err(e),
        Ok((xs, rest)) => Ok((done + xs, rest)),
    }
}

/// `g` reads back what `w` writes of each of these things.
pub open spec fn reads_back<T>(
    s: Seq<T>,
    w: spec_fn(T) -> Seq<u8>,
    g: spec_fn(Seq<u8>) -> Result<(T, Seq<u8>), Garbled>,
) -> bool {
    forall|i: int, rest: Seq<u8>|
        0 <= i < s.len() ==> #[trigger] g(w(s[i]) + rest) == Ok::<_, Garbled>((s[i], rest))
}

/// The last thing of a list is written last.
pub proof fn list_bytes_last<T>(s: Seq<T>, w: spec_fn(T) -> Seq<u8>)
    requires
        s.len() > 0,
    ensures
        list_bytes(s, w) == list_bytes(s.drop_last(), w) + w(s.last()),
    decreases s.len(),
{
    if s.len() == 1 {
        assert(s.drop_first() =~= Seq::empty());
        assert(s.drop_last() =~= Seq::empty());
        assert(list_bytes(s.drop_first(), w) == Seq::<u8>::empty());
        assert(list_bytes(s.drop_last(), w) == Seq::<u8>::empty());
        assert(s[0] == s.last());
        assert(list_bytes(s, w) =~= w(s.last()));
        assert(list_bytes(s.drop_last(), w) + w(s.last()) =~= w(s.last()));
    } else {
        list_bytes_last(s.drop_first(), w);
        assert(s.drop_first().drop_last() =~= s.drop_last().drop_first());
        assert(list_bytes(s, w) =~= list_bytes(s.drop_last(), w) + w(s.last()));
    }
}

/// A list comes back as it was written, where each of its things does.
pub proof fn list_back<T>(
    s: Seq<T>,
    w: spec_fn(T) -> Seq<u8>,
    g: spec_fn(Seq<u8>) -> Result<(T, Seq<u8>), Garbled>,
    rest: Seq<u8>,
)
    requires
        reads_back(s, w, g),
    ensures
        read_list(list_bytes(s, w) + rest, s.len(), g) == Ok::<_, Garbled>((s, rest)),
    decreases s.len(),
{
    if s.len() == 0 {
        assert(list_bytes(s, w) + rest =~= rest);
        assert(s =~= Seq::empty());
    } else {
        let t = s.drop_first();
        let more = list_bytes(t, w) + rest;
        assert(list_bytes(s, w) + rest =~= w(s[0]) + more);
        assert(g(w(s[0]) + more) == Ok::<_, Garbled>((s[0], more)));
        assert(reads_back(t, w, g)) by {
            assert forall|i: int, r: Seq<u8>| 0 <= i < t.len() implies #[trigger] g(w(t[i]) + r)
                == Ok::<_, Garbled>((t[i], r)) by {
                assert(t[i] == s[i + 1]);
                assert(g(w(s[i + 1]) + r) == Ok::<_, Garbled>((s[i + 1], r)));
            }
        }
        list_back(t, w, g, rest);
        assert(seq![s[0]] + t =~= s);
    }
}

/// One past the largest number that `room` bytes can carry.
pub open spec fn varint_end(room: nat, last: nat) -> nat
    decreases room,
{
    if room <= 1 {
        last + 1
    } else {
        128 * varint_end((room - 1) as nat, last)
    }
}

/// A number that fits comes back as it was written, and what follows it is left alone.
pub proof fn varint_back(n: nat, rest: Seq<u8>, room: nat, last: nat)
    requires
        room >= 1,
        last < 128,
        n < varint_end(room, last),
    ensures
        read_varint(varint(n) + rest, room, last) == Ok::<_, Garbled>((n, rest)),
    decreases room,
{
    let b = varint(n) + rest;
    if n < 128 {
        assert(b[0] == n as u8);
        assert(b.skip(1) =~= rest);
        if room == 1 {
            assert(n <= last);
        }
    } else {
        assert(room > 1);
        let m = n / 128;
        assert(m < varint_end((room - 1) as nat, last)) by (nonlinear_arith)
            requires
                n < 128 * varint_end((room - 1) as nat, last),
                m == n / 128,
        ;
        varint_back(m, rest, (room - 1) as nat, last);
        assert(b[0] == (n % 128 + 128) as u8);
        assert(b.skip(1) =~= varint(m) + rest);
        assert(b[0] - 128 + 128 * m == n);
    }
}

/// A 64-bit number comes back as it was written.
pub proof fn u64_back(n: u64, rest: Seq<u8>)
    ensures
        read_u64(varint(n as nat) + rest) == Ok::<_, Garbled>((n as nat, rest)),
{
    reveal_with_fuel(varint_end, 11);
    varint_back(n as nat, rest, 10, 1);
}

/// A 32-bit number comes back as it was written.
pub proof fn u32_back(n: u32, rest: Seq<u8>)
    ensures
        read_u32(varint(n as nat) + rest) == Ok::<_, Garbled>((n as nat, rest)),
{
    reveal_with_fuel(varint_end, 11);
    varint_back(n as nat, rest, 5, 15);
}

/// A 16-bit number comes back as it was written.
pub proof fn u16_back(n: u16, rest: Seq<u8>)
    ensures
        read_u16(varint(n as nat) + rest) == Ok::<_, Garbled>((n as nat, rest)),
{
    reveal_with_fuel(varint_end, 11);
    varint_back(n as nat, rest, 3, 3);
}

/// A length comes back as it was written.
pub proof fn len_back(n: usize, rest: Seq<u8>)
    ensures
        read_len(varint(n as nat) + rest) == Ok::<_, Garbled>((n as nat, rest)),
{
    if usize::BITS == 64 {
        u64_back(n as u64, rest);
    } else {
        u32_back(n as u32, rest);
    }
}

/// A truth value comes back as it was written.
pub proof fn bool_back(v: bool, rest: Seq<u8>)
    ensures
        read_bool(bool_bytes(v) + rest) == Ok::<_, Garbled>((v, rest)),
{
    assert((bool_bytes(v) + rest).skip(1) =~= rest);
}

/// Counted bytes come back as they were written.
pub proof fn counted_back(s: Seq<u8>, rest: Seq<u8>)
    requires
        s.len() <= usize::MAX,
    ensures
        read_counted(counted(s) + rest) == Ok::<_, Garbled>((s, rest)),
{
    assert(counted(s) + rest =~= varint(s.len()) + (s + rest));
    len_back(s.len() as usize, s + rest);
    assert((s + rest).take(s.len() as int) =~= s);
    assert((s + rest).skip(s.len() as int) =~= rest);
}

/// A text comes back as it was written.
pub proof fn text_back(s: Seq<char>, rest: Seq<u8>)
    requires
        encode_utf8(s).len() <= usize::MAX,
    ensures
        read_text(text_bytes(s) + rest) == Ok::<_, Garbled>((s, rest)),
{
    counted_back(encode_utf8(s), rest);
    encode_utf8_valid_utf8(s);
    encode_utf8_decode_utf8(s);
}

/// Bare bytes come back as they were written.
pub proof fn raw_back(s: Seq<u8>, rest: Seq<u8>)
    ensures
        read_raw(s + rest, s.len()) == Ok::<_, Garbled>((s, rest)),
{
    assert((s + rest).take(s.len() as int) =~= s);
    assert((s + rest).skip(s.len() as int) =~= rest);
}

/// An address and its port come back as they were written.
pub proof fn address_back(ip: Seq<u8>, port: u16, rest: Seq<u8>)
    ensures
        read_address(ip + varint(port as nat) + rest, ip.len()) == Ok::<_, Garbled>(((ip, port as nat), rest)),
{
    assert(ip + varint(port as nat) + rest =~= ip + (varint(port as nat) + rest));
    raw_back(ip, varint(port as nat) + rest);
    u16_back(port, rest);
}

/// How many bytes a number takes: never more than ten.
pub proof fn varint_len(n: nat, room: nat)
    requires
        room >= 1,
        n < varint_end(room, 127),
    ensures
        1 <= varint(n).len() <= room,
    decreases room,
{
    if n >= 128 {
        assert(n / 128 < varint_end((room - 1) as nat, 127)) by (nonlinear_arith)
            requires
                n < 128 * varint_end((room - 1) as nat, 127),
        ;
        varint_len(n / 128, (room - 1) as nat);
    }
}

} // verus!
