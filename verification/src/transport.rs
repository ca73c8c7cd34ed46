//! Reaching a peer: what is offered, what is trusted, how often it is tried, and what is said
//! when it fails. The sockets and circuits themselves are not here.

use vstd::prelude::*;
use vstd::string::*;

use crate::crypto;
use crate::crypto::blake3_digest;
use crate::message::{Addr, AddrView};
use crate::onion::{base32_part, ends_onion};
use crate::text::{chars, contains, decimal, decimal_text, is_in, piece};

verus! {

/// The port every murmure service listens on.
pub const SERVICE_PORT: u16 = 7777;

/// How long one address of a direct link is tried, in seconds.
pub const DIRECT_TIMEOUT: u64 = 3;

/// How long to wait between two attempts to reach a peer, in milliseconds.
pub const BACKOFF: u64 = 10000;

// --- direct links ---------------------------------------------------------------------

/// Which address of this machine the default route uses, where there is one.
#[derive(Clone, Copy, Debug, PartialEq, Eq)]
pub enum Ip {
    V4([u8; 4]),
    V6([u8; 16]),
}

/// An address and a port.
pub open spec fn at_port(ip: Ip, port: u16) -> AddrView {
    match ip {
        Ip::V4(b) => AddrView::V4(b@, port),
        Ip::V6(b) => AddrView::V6(b@, port),
    }
}

/// This machine as it sees itself: 127.0.0.1.
pub open spec fn loopback(port: u16) -> AddrView {
    AddrView::V4(seq![127u8, 0u8, 0u8, 1u8], port)
}

/// The addresses to offer for a direct link on `port`: the one the default route uses, then
/// this machine itself.
pub fn candidates(port: u16, route: Option<Ip>) -> (r: Vec<Addr>)
    ensures
        crate::message::addr_views(r@) == match route {
            Some(ip) => seq![at_port(ip, port), loopback(port)],
            None => seq![loopback(port)],
        },
{
    let mut found: Vec<Addr> = Vec::new();
    match route {
        Some(Ip::V4(b)) => found.push(Addr::V4(b, port)),
        Some(Ip::V6(b)) => found.push(Addr::V6(b, port)),
        None => {},
    }
    let home: [u8; 4] = [127, 0, 0, 1];
    found.push(Addr::V4(home, port));
    proof {
        assert(home@ =~= seq![127u8, 0u8, 0u8, 1u8]);
        assert(crate::message::addr_views(found@) =~= match route {
            Some(ip) => seq![at_port(ip, port), loopback(port)],
            None => seq![loopback(port)],
        });
    }
    found
}

/// Whether two digests are the same, looking at every byte whatever the others were.
pub fn ct_eq(a: &[u8; 32], b: &[u8; 32]) -> (r: bool)
    ensures
        r == (a@ == b@),
{
    let mut acc: u8 = 0;
    let mut i: usize = 0;
    while i < 32
        invariant
            i <= 32,
            acc == 0 <==> forall|j: int| 0 <= j < i ==> a@[j] == b@[j],
        decreases 32 - i,
    {
        let x: u8 = a[i];
        let y: u8 = b[i];
        assert(acc | (x ^ y) == 0 <==> acc == 0 && x == y) by (bit_vector);
        acc = acc | (x ^ y);
        proof {
            assert(acc == 0 <==> forall|j: int| 0 <= j < i + 1 ==> a@[j] == b@[j]) by {
                if acc == 0 {
                    assert forall|j: int| 0 <= j < i + 1 implies a@[j] == b@[j] by {}
                } else if forall|j: int| 0 <= j < i + 1 ==> a@[j] == b@[j] {
                    assert(a@[i as int] == b@[i as int]);
                    assert forall|j: int| 0 <= j < i implies a@[j] == b@[j] by {}
                }
            }
        }
        i = i + 1;
    }
    proof {
        if acc == 0 {
            assert(a@ =~= b@);
        } else {
            assert(exists|j: int| 0 <= j < 32 && a@[j] != b@[j]);
        }
    }
    acc == 0
}

/// The fingerprint under which a certificate is announced.
pub fn cert_fingerprint(cert: &[u8]) -> (r: [u8; 32])
    ensures
        r@ == blake3_digest(cert@),
{
    crypto::digest(cert)
}

/// Whether the certificate a listener presents is the one that was announced over the
/// authenticated circuit. Nothing else makes one trusted.
pub fn trusts(cert: &[u8], fingerprint: &[u8; 32]) -> (r: bool)
    ensures
        r == (blake3_digest(cert@) == fingerprint@),
{
    ct_eq(&cert_fingerprint(cert), fingerprint)
}

/// What is said when no address of a direct link answered.
pub fn no_direct_link(last: Option<String>) -> (r: String)
    ensures
        match last {
            Some(e) => r@ == e@,
            None => r@ == "the peer offered no address to try"@,
        },
{
    match last {
        Some(e) => e,
        None => "the peer offered no address to try".to_owned(),
    }
}

/// What has come in over a direct link so far is more than was offered.
pub fn pulled_too_much(written: u64, n: u64, size: u64) -> (r: bool)
    ensures
        r == (written + n > size),
{
    written > size || n > size - written
}

// --- the service ----------------------------------------------------------------------

/// Whether the keystore took our key, or already held it.
#[derive(Clone, Copy, Debug, PartialEq, Eq, Structural)]
pub enum KeyHandover {
    /// Our key was inserted just now.
    Inserted,
    /// The keystore already held a key; the service runs under that one.
    Reused,
}

/// What came of handing our key over while launching the service.
#[derive(Clone, Copy, Debug, PartialEq, Eq, Structural)]
pub enum Launch {
    Running,
    Disabled,
    KeyExists,
    Failed,
}

/// What to do next.
#[derive(Clone, Copy, Debug, PartialEq, Eq, Structural)]
pub enum NextLaunch {
    Done(KeyHandover),
    /// Launch again, without handing a key over.
    WithStoredKey,
    /// The service is switched off in its own configuration.
    OffByConfig,
    GiveUp,
}

/// What follows from an attempt to launch the service with our key.
pub fn after_launch(outcome: Launch) -> (r: NextLaunch)
    ensures
        r == match outcome {
            Launch::Running => NextLaunch::Done(KeyHandover::Inserted),
            Launch::Disabled => NextLaunch::OffByConfig,
            Launch::KeyExists => NextLaunch::WithStoredKey,
            Launch::Failed => NextLaunch::GiveUp,
        },
{
    match outcome {
        Launch::Running => NextLaunch::Done(KeyHandover::Inserted),
        Launch::Disabled => NextLaunch::OffByConfig,
        Launch::KeyExists => NextLaunch::WithStoredKey,
        Launch::Failed => NextLaunch::GiveUp,
    }
}

/// Length of a client nickname, in characters.
pub const NICKNAME_LEN: usize = 16;

/// What a contact is called among the authorised clients: the head of their address.
pub open spec fn nickname_of(address: Seq<char>) -> Seq<char> {
    let base = base32_part(address);
    if base.len() < NICKNAME_LEN {
        base
    } else {
        base.take(NICKNAME_LEN as int)
    }
}

/// The nickname a contact's address yields.
pub fn client_nickname(address: &str) -> (r: String)
    ensures
        r@ == nickname_of(address@),
{
    proof {
        reveal_strlit(".onion");
    }
    let cs = chars(address);
    let n: usize = cs.len();
    let onion = n >= 6 && cs[n - 6] == '.' && cs[n - 5] == 'o' && cs[n - 4] == 'n' && cs[n - 3]
        == 'i' && cs[n - 2] == 'o' && cs[n - 1] == 'n';
    proof {
        if n >= 6 {
            let t = address@.skip(n - 6);
            if onion {
                assert(t =~= ".onion"@);
            } else if t == ".onion"@ {
                assert(t[0] == '.' && t[1] == 'o' && t[2] == 'n' && t[3] == 'i' && t[4] == 'o'
                    && t[5] == 'n');
            }
        }
        assert(onion == ends_onion(address@));
    }
    let base: usize = if onion {
        n - 6
    } else {
        n
    };
    let k: usize = if base < NICKNAME_LEN {
        base
    } else {
        NICKNAME_LEN
    };
    let r = piece(cs.as_slice(), 0, k);
    assert(r@ =~= nickname_of(address@));
    r
}

/// Some link of a chain of errors says that a key is already there.
pub open spec fn chain_says_key_exists(chain: Seq<Seq<char>>) -> bool {
    exists|i: int| 0 <= i < chain.len() && contains(#[trigger] chain[i], "Key already exists"@)
}

/// Texts by their characters.
pub open spec fn texts(s: Seq<String>) -> Seq<Seq<char>> {
    s.map_values(|t: String| t@)
}

/// Is this failure only that the keystore already holds the key? `chain` is the error and
/// everything that caused it.
pub fn is_key_already_exists(chain: &Vec<String>) -> (r: bool)
    ensures
        r == chain_says_key_exists(texts(chain@)),
{
    let mut i: usize = 0;
    while i < chain.len()
        invariant
            i <= chain@.len(),
            forall|j: int|
                0 <= j < i ==> !contains(#[trigger] texts(chain@)[j], "Key already exists"@),
        decreases chain@.len() - i,
    {
        if is_in("Key already exists", chain[i].as_str()) {
            assert(contains(texts(chain@)[i as int], "Key already exists"@));
            return true;
        }
        i = i + 1;
    }
    false
}

/// A chain of errors as one text.
pub open spec fn chained(chain: Seq<Seq<char>>) -> Seq<char>
    decreases chain.len(),
{
    if chain.len() == 0 {
        Seq::empty()
    } else if chain.len() == 1 {
        chain[0]
    } else {
        chained(chain.drop_last()) + ": "@ + chain.last()
    }
}

/// Say what failed, of which kind it was, and why, down to the first cause.
pub fn describe(doing: &str, kind: &str, chain: &Vec<String>) -> (r: String)
    ensures
        r@ == doing@ + " failed ["@ + kind@ + "]: "@ + chained(texts(chain@)),
{
    let mut s = doing.to_owned();
    s.append(" failed [");
    s.append(kind);
    s.append("]: ");
    let ghost head = s@;
    let ghost all = texts(chain@);
    let mut i: usize = 0;
    assert(head + chained(all.take(0)) =~= head);
    while i < chain.len()
        invariant
            i <= chain@.len(),
            all == texts(chain@),
            s@ == head + chained(all.take(i as int)),
        decreases chain@.len() - i,
    {
        let ghost now = all.take(i + 1);
        proof {
            assert(now.drop_last() =~= all.take(i as int));
            assert(now.last() == chain@[i as int]@);
        }
        if i > 0 {
            s.append(": ");
        } else {
            assert(chained(all.take(0)) =~= Seq::empty());
        }
        s.append(chain[i].as_str());
        assert(s@ =~= head + chained(now));
        i = i + 1;
    }
    assert(all.take(i as int) =~= all);
    s
}

// --- trying again ---------------------------------------------------------------------

/// An effort to reach a peer, over as many attempts as fit in its time.
#[derive(Debug)]
pub struct Dialling {
    /// How much time there is, in milliseconds.
    pub deadline: u64,
    /// How many attempts have been made.
    pub attempts: u32,
    /// Why the last one failed, if one has.
    pub last: Option<String>,
}

/// What the effort does next.
#[derive(Clone, Copy, Debug, PartialEq, Eq, Structural)]
pub enum Attempt {
    /// Try, for at most this many milliseconds.
    Try(u64),
    /// There is no time left.
    GiveUp,
}

/// The smaller of two numbers.
pub open spec fn lesser(a: u64, b: u64) -> u64 {
    if a < b {
        a
    } else {
        b
    }
}

/// The time that is left.
pub open spec fn left(deadline: u64, elapsed: u64) -> u64 {
    if deadline > elapsed {
        (deadline - elapsed) as u64
    } else {
        0
    }
}

impl Dialling {
    /// An effort of this many milliseconds.
    pub fn new(deadline: u64) -> (r: Dialling)
        ensures
            r.deadline == deadline,
            r.attempts == 0,
            r.last is None,
    {
        Dialling { deadline, attempts: 0, last: None }
    }

    /// The next attempt, `elapsed` milliseconds in: while there is time, and for as long as
    /// there is.
    pub fn next(&mut self, elapsed: u64) -> (r: Attempt)
        ensures
            final(self).deadline == old(self).deadline,
            final(self).last == old(self).last,
            if elapsed < old(self).deadline && old(self).attempts < u32::MAX {
                r == Attempt::Try(left(old(self).deadline, elapsed)) && final(self).attempts
                    == old(self).attempts + 1
            } else {
                r == Attempt::GiveUp && final(self).attempts == old(self).attempts
            },
    {
        if elapsed < self.deadline && self.attempts < u32::MAX {
            self.attempts = self.attempts + 1;
            Attempt::Try(self.deadline - elapsed)
        } else {
            Attempt::GiveUp
        }
    }

    /// An attempt failed. Gives how long to wait before the next: never past the end.
    pub fn failed(&mut self, why: String, elapsed: u64) -> (r: u64)
        ensures
            final(self).deadline == old(self).deadline,
            final(self).attempts == old(self).attempts,
            final(self).last == Some(why),
            r == lesser(BACKOFF, left(old(self).deadline, elapsed)),
    {
        self.last = Some(why);
        let rest: u64 = if self.deadline > elapsed {
            self.deadline - elapsed
        } else {
            0
        };
        if BACKOFF < rest {
            BACKOFF
        } else {
            rest
        }
    }

    /// What is said once it is given up.
    pub fn outcome(&self) -> (r: String)
        ensures
            r@ == match self.last {
                Some(why) => "giving up after "@ + decimal_text(self.attempts as nat)
                    + " dial attempts in "@ + decimal_text(self.deadline as nat / 1000) + "s: "@
                    + why@,
                None => "no dial attempt completed within "@ + decimal_text(
                    self.deadline as nat / 1000,
                ) + "s"@,
            },
    {
        match &self.last {
            Some(why) => {
                let mut s = "giving up after ".to_owned();
                s.append(decimal(self.attempts as u128).as_str());
                s.append(" dial attempts in ");
                s.append(decimal((self.deadline / 1000) as u128).as_str());
                s.append("s: ");
                s.append(why.as_str());
                s
            },
            None => {
                let mut s = "no dial attempt completed within ".to_owned();
                s.append(decimal((self.deadline / 1000) as u128).as_str());
                s.append("s");
                s
            },
        }
    }
}

/// An attempt and the wait behind it never reach past the end of the effort.
pub proof fn waiting_stays_inside_the_deadline(deadline: u64, elapsed: u64)
    requires
        elapsed <= deadline,
    ensures
        elapsed + left(deadline, elapsed) <= deadline,
        elapsed + lesser(BACKOFF, left(deadline, elapsed)) <= deadline,
{
}

/// What a failed attempt means, in a few words.
pub open spec fn failure_meaning(err: Seq<char>) -> Seq<char> {
    if contains(err, "descriptor"@) {
        "they are not published yet"@
    } else if contains(err, "timed out"@) || contains(err, "Timeout"@) {
        "no answer yet"@
    } else {
        "did not connect"@
    }
}

/// Say what a failed attempt means.
pub fn attempt_line(attempt: u32, err: &str) -> (r: String)
    ensures
        r@ == "attempt "@ + decimal_text(attempt as nat) + ": "@ + failure_meaning(err@)
            + ", retrying"@,
{
    let why = if is_in("descriptor", err) {
        "they are not published yet"
    } else if is_in("timed out", err) || is_in("Timeout", err) {
        "no answer yet"
    } else {
        "did not connect"
    };
    let mut s = "attempt ".to_owned();
    s.append(decimal(attempt as u128).as_str());
    s.append(": ");
    s.append(why);
    s.append(", retrying");
    s
}

} // verus!
