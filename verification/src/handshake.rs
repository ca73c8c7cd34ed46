//! The opening of a connection: agree on a version, then prove who is on the line.
//!
//! Each side sends a fixed header: a magic word, its version, the key it claims to be, and a
//! challenge. Each then signs the other's challenge with the key it claimed. Both send before
//! they read, in both rounds.

use vstd::prelude::*;
use vstd::string::*;

use crate::bytes::{array32, array64, equal};
use crate::codec::add_raw;
use crate::crypto;
use crate::crypto::{ed25519_accepts, ed25519_key, ed25519_signature};
use crate::identity::{Identity, PeerId};
use crate::text::{decimal, decimal_text};

verus! {

/// What this build speaks. There is no compatibility between versions.
pub const VERSION: u16 = 4;

/// Longest a peer may take to say what it speaks, in seconds.
pub const HANDSHAKE_TIMEOUT: u64 = 30;

/// The opening bytes: magic, version, who we claim to be, and a challenge.
pub const HELLO_LEN: usize = 73;

/// Enough of an opening to tell what speaks: the magic word and the version.
pub const HEAD_LEN: usize = 9;

/// The word that every opening begins with: "murmure".
pub open spec fn magic() -> Seq<u8> {
    seq![109, 117, 114, 109, 117, 114, 101]
}

/// What every signed challenge begins with: "murmure-auth-v1".
pub open spec fn auth_context() -> Seq<u8> {
    seq![109, 117, 114, 109, 117, 114, 101, 45, 97, 117, 116, 104, 45, 118, 49]
}

/// How far an opening has come.
#[derive(Clone, Copy, Debug, PartialEq, Eq, Structural)]
pub enum Stage {
    /// The magic word and the version are awaited.
    Head,
    /// The address and the challenge are awaited.
    Claim,
    /// The signature is awaited.
    Proof,
}

/// Why an opening failed.
#[derive(Clone, Copy, Debug, PartialEq, Eq, Structural)]
pub enum HandshakeError {
    /// Nothing came in time.
    Silent(Stage),
    /// The connection broke before the bytes of this stage were complete.
    Broken(Stage),
    /// Something else answers there.
    NotMurmure,
    /// They speak another version; theirs.
    Version(u16),
    /// What they claim to be is no key.
    NotAKey,
    /// They cannot prove that the address is theirs.
    Unproved,
}

impl HandshakeError {
    /// What the operator is told.
    pub open spec fn said(self) -> Seq<char> {
        match self {
            HandshakeError::Silent(Stage::Head) =>
                "the other side never said which version of murmure it speaks — it is probably an older build. Both sides must run the same one."@,
            HandshakeError::Silent(Stage::Claim) =>
                "the other side never said which address it claims"@,
            HandshakeError::Silent(Stage::Proof) =>
                "the other side never proved the address it claims"@,
            HandshakeError::Broken(Stage::Head) => "reading the other side's opening"@,
            HandshakeError::Broken(Stage::Claim) => "reading the address the other side claims"@,
            HandshakeError::Broken(Stage::Proof) => "reading the other side's proof"@,
            HandshakeError::NotMurmure =>
                "whatever answered on that address, it does not speak murmure"@,
            HandshakeError::Version(theirs) => "version mismatch: they speak murmure "@
                + decimal_text(theirs as nat) + ", this is murmure "@ + decimal_text(
                VERSION as nat,
            )
                + ". Both sides must run the same build — there is no compatibility between versions yet."@,
            HandshakeError::NotAKey => "the address the other side claims is not a valid key"@,
            HandshakeError::Unproved =>
                "the other side claims an address it cannot prove it owns — refusing the connection"@,
        }
    }

    /// Say why the opening failed.
    pub fn describe(&self) -> (r: String)
        ensures
            r@ == self.said(),
    {
        match self {
            HandshakeError::Silent(Stage::Head) =>
                "the other side never said which version of murmure it speaks — it is probably an older build. Both sides must run the same one.".to_owned(),
            HandshakeError::Silent(Stage::Claim) =>
                "the other side never said which address it claims".to_owned(),
            HandshakeError::Silent(Stage::Proof) =>
                "the other side never proved the address it claims".to_owned(),
            HandshakeError::Broken(Stage::Head) => "reading the other side's opening".to_owned(),
            HandshakeError::Broken(Stage::Claim) =>
                "reading the address the other side claims".to_owned(),
            HandshakeError::Broken(Stage::Proof) => "reading the other side's proof".to_owned(),
            HandshakeError::NotMurmure =>
                "whatever answered on that address, it does not speak murmure".to_owned(),
            HandshakeError::Version(theirs) => {
                let mut s = "version mismatch: they speak murmure ".to_owned();
                s.append(decimal(*theirs as u128).as_str());
                s.append(", this is murmure ");
                s.append(decimal(VERSION as u128).as_str());
                s.append(
                    ". Both sides must run the same build — there is no compatibility between versions yet.",
                );
                s
            },
            HandshakeError::NotAKey =>
                "the address the other side claims is not a valid key".to_owned(),
            HandshakeError::Unproved =>
                "the other side claims an address it cannot prove it owns — refusing the connection".to_owned(),
        }
    }
}

/// The opening of someone who claims `id` and asks `nonce`.
pub open spec fn hello_bytes(version: u16, id: Seq<u8>, nonce: Seq<u8>) -> Seq<u8> {
    magic() + seq![(version % 256) as u8, (version / 256) as u8] + id + nonce
}

/// The bytes a signer commits to: who they are, whom they talk to, and the challenge that
/// side chose.
pub open spec fn challenge_bytes(signer: Seq<u8>, verifier: Seq<u8>, nonce: Seq<u8>) -> Seq<u8> {
    auth_context() + signer + verifier + nonce
}

/// The magic word.
fn magic_word() -> (r: Vec<u8>)
    ensures
        r@ == magic(),
{
    let r: Vec<u8> = vec![109, 117, 114, 109, 117, 114, 101];
    assert(r@ =~= magic());
    r
}

/// What we open a connection with.
pub fn hello(id: &PeerId, nonce: &[u8; 32]) -> (r: Vec<u8>)
    ensures
        r@ == hello_bytes(VERSION, id@, nonce@),
        r@.len() == HELLO_LEN,
{
    let mut out = magic_word();
    out.push((VERSION % 256) as u8);
    out.push((VERSION / 256) as u8);
    add_raw(&mut out, id);
    add_raw(&mut out, nonce);
    assert(out@ =~= hello_bytes(VERSION, id@, nonce@));
    out
}

/// The bytes a signer commits to.
pub fn challenge(signer: &PeerId, verifier: &PeerId, nonce: &[u8; 32]) -> (r: Vec<u8>)
    ensures
        r@ == challenge_bytes(signer@, verifier@, nonce@),
{
    let mut msg: Vec<u8> = vec![
        109, 117, 114, 109, 117, 114, 101, 45, 97, 117, 116, 104, 45, 118, 49,
    ];
    assert(msg@ =~= auth_context());
    add_raw(&mut msg, signer);
    add_raw(&mut msg, verifier);
    add_raw(&mut msg, nonce);
    msg
}

/// What is wrong with the first bytes of an opening, if anything is.
pub open spec fn head_fault(head: Seq<u8>) -> Option<HandshakeError> {
    let theirs = (head[7] + 256 * head[8]) as u16;
    if head.take(7) != magic() {
        Some(HandshakeError::NotMurmure)
    } else if theirs != VERSION {
        Some(HandshakeError::Version(theirs))
    } else {
        None
    }
}

/// Look at the first bytes of an opening: is this murmure, and the same one?
pub fn check_head(head: &[u8]) -> (r: Result<(), HandshakeError>)
    requires
        head@.len() == HEAD_LEN,
    ensures
        match r {
            Ok(_) => head_fault(head@) is None,
            Err(e) => head_fault(head@) == Some(e),
        },
{
    let word = vstd::slice::slice_subrange(head, 0, 7);
    assert(word@ =~= head@.take(7));
    if !equal(word, magic_word().as_slice()) {
        return Err(HandshakeError::NotMurmure);
    }
    let theirs: u16 = head[7] as u16 + 256 * head[8] as u16;
    if theirs != VERSION {
        return Err(HandshakeError::Version(theirs));
    }
    Ok(())
}

/// Who a peer claims to be, and what it asks us to sign.
#[derive(Clone, Copy, Debug)]
pub struct Claim {
    pub id: PeerId,
    pub nonce: [u8; 32],
}

/// Read a peer's claim.
pub fn read_claim(rest: &[u8]) -> (r: Result<Claim, HandshakeError>)
    requires
        rest@.len() == 64,
    ensures
        match r {
            Ok(c) => c.id@ == rest@.take(32) && c.nonce@ == rest@.skip(32) && ed25519_key(c.id@),
            Err(e) => e == HandshakeError::NotAKey && !ed25519_key(rest@.take(32)),
        },
{
    let (a, b) = rest.split_at(32);
    let id = array32(a);
    let nonce = array32(b);
    proof {
        assert(id@ =~= rest@.take(32));
        assert(nonce@ =~= rest@.skip(32));
    }
    if crypto::is_key(&id) {
        Ok(Claim { id, nonce })
    } else {
        Err(HandshakeError::NotAKey)
    }
}

/// Sign what a peer asked: the proof that we are who we claim.
pub fn prove(me: &Identity, claim: &Claim) -> (r: [u8; 64])
    ensures
        r@ == ed25519_signature(
            me.seed(),
            challenge_bytes(me.public(), claim.id@, claim.nonce@),
        ),
        ed25519_accepts(me.public(), challenge_bytes(me.public(), claim.id@, claim.nonce@), r@),
{
    me.sign(challenge(&me.id(), &claim.id, &claim.nonce).as_slice())
}

/// Believe a peer, or not: the proof has to be a signature, by the key it claims, on the
/// challenge we chose, made for us.
pub fn believe(me: &PeerId, nonce: &[u8; 32], claim: &Claim, proof_bytes: &[u8; 64]) -> (r: Result<
    PeerId,
    HandshakeError,
>)
    ensures
        match r {
            Ok(id) => id@ == claim.id@ && ed25519_accepts(
                claim.id@,
                challenge_bytes(claim.id@, me@, nonce@),
                proof_bytes@,
            ),
            Err(e) => e == HandshakeError::Unproved && !ed25519_accepts(
                claim.id@,
                challenge_bytes(claim.id@, me@, nonce@),
                proof_bytes@,
            ),
        },
{
    let msg = challenge(&claim.id, me, nonce);
    if crypto::accepts(&claim.id, msg.as_slice(), proof_bytes) {
        Ok(claim.id)
    } else {
        Err(HandshakeError::Unproved)
    }
}

/// What comes of an opening in which the peer says these bytes and then nothing more.
pub open spec fn outcome(me: Seq<u8>, nonce: Seq<u8>, said: Seq<u8>) -> Result<
    Seq<u8>,
    HandshakeError,
> {
    let id = said.subrange(9, 41);
    if said.len() < 9 {
        Err(HandshakeError::Broken(Stage::Head))
    } else if head_fault(said.take(9)) is Some {
        Err(head_fault(said.take(9))->0)
    } else if said.len() < 73 {
        Err(HandshakeError::Broken(Stage::Claim))
    } else if !ed25519_key(id) {
        Err(HandshakeError::NotAKey)
    } else if said.len() < 137 {
        Err(HandshakeError::Broken(Stage::Proof))
    } else if !ed25519_accepts(id, challenge_bytes(id, me, nonce), said.subrange(73, 137)) {
        Err(HandshakeError::Unproved)
    } else {
        Ok(id)
    }
}

/// We prove who we are to whoever made a readable claim, and to nobody else.
pub open spec fn answered(said: Seq<u8>) -> bool {
    said.len() >= 73 && head_fault(said.take(9)) is None && ed25519_key(said.subrange(9, 41))
}

/// What we send in an opening: our hello, and a proof where one is due.
pub open spec fn spoken(me: Seq<u8>, nonce: Seq<u8>, said: Seq<u8>, sent: Seq<u8>) -> bool {
    let ours = hello_bytes(VERSION, me, nonce);
    if answered(said) {
        &&& sent.len() == 137
        &&& sent.take(73) == ours
        &&& ed25519_accepts(
            me,
            challenge_bytes(me, said.subrange(9, 41), said.subrange(41, 73)),
            sent.subrange(73, 137),
        )
    } else {
        sent == ours
    }
}

/// An opening under a given challenge, against a peer that says these bytes. What we say is
/// appended to `sent`.
pub fn handshake_with(said: &[u8], sent: &mut Vec<u8>, me: &Identity, nonce: &[u8; 32]) -> (r:
    Result<PeerId, HandshakeError>)
    ensures
        final(sent)@.take(old(sent)@.len() as int) == old(sent)@,
        match r {
            Ok(id) => outcome(me.public(), nonce@, said@) == Ok::<Seq<u8>, HandshakeError>(id@),
            Err(e) => outcome(me.public(), nonce@, said@) == Err::<Seq<u8>, HandshakeError>(e),
        },
        spoken(me.public(), nonce@, said@, final(sent)@.skip(old(sent)@.len() as int)),
        ed25519_key(me.public()),
{
    let mut ours: Vec<u8> = Vec::new();
    let r = converse(said, &mut ours, me, nonce);
    let ghost ours_said = ours@;
    sent.append(&mut ours);
    proof {
        assert(sent@.take(old(sent)@.len() as int) =~= old(sent)@);
        assert(sent@.skip(old(sent)@.len() as int) =~= ours_said);
    }
    r
}

/// The same, with nothing said before.
fn converse(said: &[u8], sent: &mut Vec<u8>, me: &Identity, nonce: &[u8; 32]) -> (r: Result<
    PeerId,
    HandshakeError,
>)
    requires
        old(sent)@.len() == 0,
    ensures
        match r {
            Ok(id) => outcome(me.public(), nonce@, said@) == Ok::<Seq<u8>, HandshakeError>(id@),
            Err(e) => outcome(me.public(), nonce@, said@) == Err::<Seq<u8>, HandshakeError>(e),
        },
        spoken(me.public(), nonce@, said@, final(sent)@),
        ed25519_key(me.public()),
{
    let my_id = me.id();
    let ours = hello(&my_id, nonce);
    add_raw(sent, ours.as_slice());
    assert(sent@ =~= hello_bytes(VERSION, me.public(), nonce@));
    if said.len() < HEAD_LEN {
        return Err(HandshakeError::Broken(Stage::Head));
    }
    let head = vstd::slice::slice_subrange(said, 0, 9);
    assert(head@ =~= said@.take(9));
    match check_head(head) {
        Err(e) => {
            return Err(e);
        },
        Ok(_) => {},
    }
    if said.len() < HELLO_LEN {
        return Err(HandshakeError::Broken(Stage::Claim));
    }
    let rest = vstd::slice::slice_subrange(said, 9, 73);
    proof {
        assert(rest@.take(32) =~= said@.subrange(9, 41));
        assert(rest@.skip(32) =~= said@.subrange(41, 73));
    }
    match read_claim(rest) {
        Err(e) => Err(e),
        Ok(claim) => {
            let signed = prove(me, &claim);
            add_raw(sent, &signed);
            proof {
                assert(sent@.take(73) =~= hello_bytes(VERSION, me.public(), nonce@));
                assert(sent@.subrange(73, 137) =~= signed@);
            }
            if said.len() < 137 {
                return Err(HandshakeError::Broken(Stage::Proof));
            }
            let theirs = array64(vstd::slice::slice_subrange(said, 73, 137));
            assert(theirs@ =~= said@.subrange(73, 137));
            believe(&my_id, nonce, &claim, &theirs)
        },
    }
}

/// A fresh challenge, from the operating system. Any 32 bytes may
/// come out, and [`handshake_with`] says what an opening is under each of them.
pub fn fresh_nonce() -> (r: [u8; 32])
    ensures
        r@.len() == 32,
{
    array32(crypto::random_bytes(32).as_slice())
}

/// An opening against a peer that says these bytes, under a fresh challenge.
pub fn handshake(said: &[u8], sent: &mut Vec<u8>, me: &Identity) -> (r: Result<
    PeerId,
    HandshakeError,
>)
    ensures
        final(sent)@.take(old(sent)@.len() as int) == old(sent)@,
        exists|nonce: Seq<u8>|
            nonce.len() == 32 && #[trigger] spoken(
                me.public(),
                nonce,
                said@,
                final(sent)@.skip(old(sent)@.len() as int),
            ) && match r {
                Ok(id) => outcome(me.public(), nonce, said@) == Ok::<Seq<u8>, HandshakeError>(id@),
                Err(e) => outcome(me.public(), nonce, said@) == Err::<Seq<u8>, HandshakeError>(e),
            },
{
    let nonce = fresh_nonce();
    let r = handshake_with(said, sent, me, &nonce);
    assert(nonce@.len() == 32);
    assert(spoken(me.public(), nonce@, said@, sent@.skip(old(sent)@.len() as int)));
    r
}

/// Order is load-bearing: the same bytes are signed only for the same signer, the same
/// verifier and the same challenge.
pub proof fn a_challenge_names_its_parties(
    signer: Seq<u8>,
    verifier: Seq<u8>,
    nonce: Seq<u8>,
    signer2: Seq<u8>,
    verifier2: Seq<u8>,
    nonce2: Seq<u8>,
)
    requires
        signer.len() == 32,
        verifier.len() == 32,
        signer2.len() == 32,
        verifier2.len() == 32,
        challenge_bytes(signer, verifier, nonce) == challenge_bytes(signer2, verifier2, nonce2),
    ensures
        signer == signer2,
        verifier == verifier2,
        nonce == nonce2,
{
    let a = challenge_bytes(signer, verifier, nonce);
    assert(a.subrange(15, 47) =~= signer);
    assert(a.subrange(15, 47) =~= signer2);
    assert(a.subrange(47, 79) =~= verifier);
    assert(a.subrange(47, 79) =~= verifier2);
    assert(a.skip(79) =~= nonce);
    assert(a.skip(79) =~= nonce2);
}

/// Our own challenge cannot be reflected at us: between two different parties, what one side
/// signs is never what that side has to verify.
pub proof fn a_signature_goes_one_way(me: Seq<u8>, them: Seq<u8>, mine: Seq<u8>, theirs: Seq<u8>)
    requires
        me.len() == 32,
        them.len() == 32,
        me != them,
    ensures
        challenge_bytes(me, them, theirs) != challenge_bytes(them, me, mine),
{
    if challenge_bytes(me, them, theirs) == challenge_bytes(them, me, mine) {
        a_challenge_names_its_parties(me, them, theirs, them, me, mine);
    }
}

/// Two honest sides come away knowing each other: where each said what [`handshake_with`]
/// says, each ends up with the key of the other.
pub proof fn both_sides_know_each_other(
    a: Seq<u8>,
    b: Seq<u8>,
    a_nonce: Seq<u8>,
    b_nonce: Seq<u8>,
    a_sent: Seq<u8>,
    b_sent: Seq<u8>,
)
    requires
        a.len() == 32,
        b.len() == 32,
        a_nonce.len() == 32,
        b_nonce.len() == 32,
        ed25519_key(a),
        ed25519_key(b),
        spoken(a, a_nonce, b_sent, a_sent),
        spoken(b, b_nonce, a_sent, b_sent),
    ensures
        outcome(a, a_nonce, b_sent) == Ok::<Seq<u8>, HandshakeError>(b),
        outcome(b, b_nonce, a_sent) == Ok::<Seq<u8>, HandshakeError>(a),
{
    opening_is_readable(a, a_nonce, b_sent, a_sent);
    opening_is_readable(b, b_nonce, a_sent, b_sent);
}

/// Whatever the other side says, what we send begins with a claim that can be read.
proof fn opening_is_readable(me: Seq<u8>, nonce: Seq<u8>, said: Seq<u8>, sent: Seq<u8>)
    requires
        me.len() == 32,
        nonce.len() == 32,
        spoken(me, nonce, said, sent),
    ensures
        sent.len() >= 73,
        head_fault(sent.take(9)) is None,
        sent.subrange(9, 41) == me,
        sent.subrange(41, 73) == nonce,
{
    let ours = hello_bytes(VERSION, me, nonce);
    assert(ours.len() == 73);
    assert(sent.take(73) =~= ours);
    assert forall|i: int| 0 <= i < 73 implies sent[i] == ours[i] by {
        assert(sent.take(73)[i] == sent[i]);
    }
    assert(sent.take(9).take(7) =~= magic());
    assert(sent.take(9)[7] == 4u8);
    assert(sent.take(9)[8] == 0u8);
    assert(sent.subrange(9, 41) =~= me);
    assert(sent.subrange(41, 73) =~= nonce);
}

/// Nobody is believed who cannot sign: the peer an opening ends with has signed our
/// challenge, for us, with the key it claims.
pub proof fn only_a_signer_is_believed(me: Seq<u8>, nonce: Seq<u8>, said: Seq<u8>, id: Seq<u8>)
    requires
        outcome(me, nonce, said) == Ok::<Seq<u8>, HandshakeError>(id),
    ensures
        ed25519_key(id),
        ed25519_accepts(id, challenge_bytes(id, me, nonce), said.subrange(73, 137)),
{
}

} // verus!
