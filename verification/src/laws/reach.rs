//! Reaching someone: addresses, dialling, and what is said of it.

use vstd::prelude::*;
use vstd::string::*;

use crate::crypto::base32_lower;
use crate::identity::{exposed, octal_text};
use crate::message::AddrView;
use crate::onion::{address_fault, derived_addresses_pass, fingerprint_of};
use crate::presence::{answer_to, leads_to, note_of, Presence, Said};
use crate::proto::{hangup, ReadFailure};
use crate::text::{contains, stands_at};
use crate::transport::{
    at_port, chained, failure_meaning, left, lesser, loopback, nickname_of, Ip, BACKOFF,
};

verus! {

/// Fifty-six letters of lowercase base32 before `.onion` are an address; one letter more or
/// less, or another ending, is none.
pub proof fn what_an_address_is(base: Seq<char>)
    requires
        forall|i: int| 0 <= i < base.len() ==> base32_lower(#[trigger] base[i]),
    ensures
        address_fault(base + ".onion"@) is None <==> base.len() == 56,
        address_fault(base) is Some,
{
    reveal_strlit(".onion");
    let a = base + ".onion"@;
    if base.len() == 56 {
        assert forall|i: int| 0 <= i < 56 implies base32_lower(#[trigger] a[i]) by {
            assert(a[i] == base[i]);
        }
        assert(a.skip(56) =~= seq!['.', 'o', 'n', 'i', 'o', 'n']);
        derived_addresses_pass(a);
    } else if address_fault(a) is None {
        crate::onion::checked_addresses_are_v3(a);
        assert(a.len() == 62);
    }
    if address_fault(base) is None {
        crate::onion::checked_addresses_are_v3(base);
        assert(base.skip(56)[0] == base[56]);
        assert(base32_lower(base[56]));
    }
}

/// A fingerprint is the first four letters of an address and the last four before `.onion`.
pub proof fn a_fingerprint_is_both_ends(a: Seq<char>, middle: Seq<char>, b: Seq<char>)
    requires
        a.len() == 4,
        b.len() == 4,
    ensures
        fingerprint_of(a + middle + b + ".onion"@) == a + " … "@ + b,
{
    reveal_strlit(".onion");
    let base = a + middle + b;
    let s = base + ".onion"@;
    assert(s.skip(s.len() - 6) =~= ".onion"@);
    assert(s.take(s.len() - 6) =~= base);
    assert(base.take(4) =~= a);
    assert(base.skip(base.len() - 4) =~= b);
}

/// A nickname is the first sixteen letters of the address, so that contacts who differ in them
/// are kept apart.
pub proof fn a_nickname_is_the_beginning(a: Seq<char>, rest: Seq<char>)
    requires
        a.len() == 16,
    ensures
        nickname_of(a + rest + ".onion"@) == a,
{
    reveal_strlit(".onion");
    let base = a + rest;
    let s = base + ".onion"@;
    assert(s.skip(s.len() - 6) =~= ".onion"@);
    assert(s.take(s.len() - 6) =~= base);
    assert(base.take(16) =~= a);
}

/// The addresses offered are at the port that is listened on.
pub proof fn an_address_is_at_its_port(ip: Ip, port: u16)
    ensures
        match at_port(ip, port) {
            AddrView::V4(b, p) => p == port && ip is V4 && b == ip->V4_0@,
            AddrView::V6(b, p) => p == port && ip is V6 && b == ip->V6_0@,
        },
        loopback(port) == AddrView::V4(seq![127u8, 0u8, 0u8, 1u8], port),
{
}

/// There is a wait of ten seconds between two attempts, and never one past the end.
pub proof fn attempts_are_ten_seconds_apart(deadline: u64, elapsed: u64)
    ensures
        elapsed <= deadline ==> elapsed + left(deadline, elapsed) == deadline,
        elapsed >= deadline ==> left(deadline, elapsed) == 0,
        left(deadline, elapsed) >= 10_000 ==> lesser(BACKOFF, left(deadline, elapsed)) == 10_000,
        left(deadline, elapsed) < 10_000 ==> lesser(BACKOFF, left(deadline, elapsed)) == left(
            deadline,
            elapsed,
        ),
{
}

/// A failure is told with everything that caused it, each behind what it caused.
pub proof fn a_failure_is_told_with_its_causes(chain: Seq<Seq<char>>, cause: Seq<char>)
    ensures
        chained(seq![cause]) == cause,
        chain.len() > 0 ==> chained(chain.push(cause)) == chained(chain) + ": "@ + cause,
{
    assert(chain.push(cause).drop_last() =~= chain);
}

/// A seed is exposed as soon as anyone but its owner can do anything with it.
pub proof fn a_seed_is_its_owner_s(mode: u32)
    ensures
        exposed(mode) <==> mode % 64 != 0,
{
    assert((mode & 0o077 != 0) <==> (mode % 64 != 0)) by (bit_vector);
}

/// A mode is written in base eight, as it is set.
pub proof fn a_mode_is_written_in_base_eight(n: nat)
    ensures
        octal_text(n).len() > 0,
        octal_text(n).last() as u32 == 48 + n % 8,
        n < 8 ==> octal_text(n).len() == 1,
        n >= 8 ==> octal_text(n).drop_last() == octal_text(n / 8),
{
    let d = if n < 8 {
        n
    } else {
        n % 8
    };
    assert(crate::text::digit(d) as u32 == 48 + d);
    if n >= 8 {
        assert(octal_text(n).drop_last() =~= octal_text(n / 8));
    }
}

/// Agreement is two yeses: a step leads to it only from one side having asked, by the other
/// asking or agreeing, and where it was there already. Either side's no ends it, whatever there
/// was.
pub proof fn agreement_takes_both(from: Presence, said: Said)
    ensures
        leads_to(from, said) == Presence::On <==> {
            ||| from == Presence::On && said != Said::WeStop && said != Said::TheyRefuse
            ||| from == Presence::TheyAsked && said == Said::WeAsk
            ||| from == Presence::WeAsked && (said == Said::TheyAsk || said == Said::TheyAgree)
        },
        leads_to(from, Said::WeStop) == Presence::Off,
        leads_to(from, Said::TheyRefuse) == Presence::Off,
        leads_to(Presence::Off, Said::WeAsk) == Presence::WeAsked,
        leads_to(Presence::WeAsked, Said::WeAsk) == Presence::WeAsked,
        leads_to(Presence::Off, Said::TheyAsk) == Presence::TheyAsked,
        leads_to(Presence::TheyAsked, Said::TheyAsk) == Presence::TheyAsked,
        leads_to(Presence::Off, Said::TheyAgree) == Presence::Off,
        leads_to(Presence::TheyAsked, Said::TheyAgree) == Presence::TheyAsked,
{
}

/// What the other side is told makes their state what ours is: told to ask, they know that we
/// asked; told yes, both agree; told no, neither does. Nothing is sent where there is nothing
/// new to them.
pub proof fn what_is_told_keeps_both_sides_alike(from: Presence)
    ensures
        answer_to(from, Said::WeAsk) is None <==> from == Presence::On,
        answer_to(from, Said::WeStop) is None <==> from == Presence::Off,
        answer_to(from, Said::WeAsk) == Some(crate::message::MessageView::PresenceYes) <==> from
            == Presence::TheyAsked,
        answer_to(from, Said::WeStop) is Some ==> answer_to(from, Said::WeStop)->0 is PresenceNo,
        answer_to(from, Said::TheyAsk) is Some <==> leads_to(from, Said::TheyAsk) == Presence::On,
        answer_to(from, Said::TheyAsk) is Some ==> answer_to(from, Said::TheyAsk)->0 is PresenceYes,
        answer_to(from, Said::TheyAgree) is None,
        answer_to(from, Said::TheyRefuse) is None,
{
}

/// Whoever asks for something here is told what came of it, whatever it was.
pub proof fn a_request_is_always_answered(from: Presence, name: Seq<char>)
    ensures
        note_of(from, Said::WeAsk, name) is Some,
        note_of(from, Said::WeStop, name) is Some,
        note_of(Presence::TheyAsked, Said::WeAsk, name) == note_of(
            Presence::WeAsked,
            Said::TheyAgree,
            name,
        ),
        note_of(Presence::On, Said::TheyAsk, name) is None,
{
}

/// What a failed attempt means is told by its cause: that there is no descriptor before anything
/// else, then that nothing answered in time.
pub proof fn a_failed_attempt_is_explained(before: Seq<char>, after: Seq<char>, err: Seq<char>)
    ensures
        failure_meaning(before + "descriptor"@ + after) == "they are not published yet"@,
        !contains(err, "descriptor"@) && (contains(err, "timed out"@) || contains(err, "Timeout"@))
            ==> failure_meaning(err) == "no answer yet"@,
        !contains(err, "descriptor"@) && !contains(err, "timed out"@) && !contains(err, "Timeout"@)
            ==> failure_meaning(err) == "did not connect"@,
{
    let s = before + "descriptor"@ + after;
    let n = "descriptor"@.len() as int;
    assert(s.subrange(before.len() as int, before.len() + n) =~= "descriptor"@);
    assert(stands_at(s, "descriptor"@, before.len() as int));
}

/// A read that failed is a goodbye where the connection is gone, or where the transport says so
/// in words; any other failure is one.
pub proof fn a_goodbye_is_told_from_a_failure(kind: ReadFailure, text: Seq<char>)
    ensures
        kind == ReadFailure::NotConnected || kind == ReadFailure::ConnectionReset || kind
            == ReadFailure::ConnectionAborted ==> hangup(kind, text),
        kind == ReadFailure::Other ==> (hangup(kind, text) <==> contains(text, "END cell"@)
            || contains(text, "stream closed"@) || contains(text, "not connected"@)),
{
}

} // verus!
