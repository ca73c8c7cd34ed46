//! The book: who is filed, under which name, and what is said of them.

use vstd::prelude::*;
use vstd::string::*;

use crate::command::CommandView;
use crate::contacts::{add_fault, contact_name_fault, name_for, ContactView, EntryView};
use crate::crypto::{discovery_key_ok, onion_key, onion_text};
use crate::identity::PeerId;
use crate::laws::messages::queue_for;
use crate::onion::{address_fault, fingerprint_of};
use crate::presence::Presence;
use crate::proto::utf8_len;
use crate::session::{
    after_command, clients_of, contact_line, named, padded, peer_from, standing, unusable_key,
    DoView, SessionView,
};
use crate::text::{contains, decimal_text, trim, white};
use crate::ui::Kind;

verus! {

/// A peer is known by the first name in the book whose contact has their address, and by no
/// name that the book does not hold.
pub proof fn a_peer_is_known_by_their_name(names: Seq<EntryView>, peer: PeerId, k: int)
    requires
        0 <= k < names.len(),
        names[k].1.address == trim(onion_text(peer@)),
        forall|i: int| 0 <= i < k ==> (#[trigger] names[i]).1.address != trim(onion_text(peer@)),
    ensures
        name_for(names, trim(onion_text(peer@))) == Some(names[k].0),
        named(names, peer) == names[k].0,
    decreases k,
{
    first_name(names, trim(onion_text(peer@)), k);
}

proof fn first_name(names: Seq<EntryView>, address: Seq<char>, k: int)
    requires
        0 <= k < names.len(),
        names[k].1.address == address,
        forall|i: int| 0 <= i < k ==> (#[trigger] names[i]).1.address != address,
    ensures
        name_for(names, address) == Some(names[k].0),
    decreases k,
{
    if k > 0 {
        assert(names[0].1.address != address);
        let t = names.drop_first();
        assert forall|i: int| 0 <= i < k - 1 implies (#[trigger] t[i]).1.address != address by {
            assert(names[i + 1].1.address != address);
        }
        first_name(t, address, k - 1);
    }
}

/// Somebody who is not in the book has no name, and is shown by their fingerprint.
pub proof fn a_stranger_has_no_name(names: Seq<EntryView>, peer: PeerId)
    requires
        forall|i: int| 0 <= i < names.len() ==> (#[trigger] names[i]).1.address != trim(
            onion_text(peer@),
        ),
    ensures
        name_for(names, trim(onion_text(peer@))) is None,
        named(names, peer) == "someone not in your book ("@ + fingerprint_of(onion_text(peer@))
            + ")"@,
{
    no_name(names, trim(onion_text(peer@)));
}

proof fn no_name(names: Seq<EntryView>, address: Seq<char>)
    requires
        forall|i: int| 0 <= i < names.len() ==> (#[trigger] names[i]).1.address != address,
    ensures
        name_for(names, address) is None,
    decreases names.len(),
{
    if names.len() > 0 {
        assert(names[0].1.address != address);
        let t = names.drop_first();
        assert forall|i: int| 0 <= i < t.len() implies (#[trigger] t[i]).1.address != address by {
            assert(names[i + 1].1.address != address);
        }
        no_name(t, address);
    }
}

/// A name may be up to sixty-four bytes, is not empty, does not begin with a slash and holds no
/// white space; every such name may be used, and no other.
pub proof fn a_name_can_be_typed(name: Seq<char>)
    ensures
        contact_name_fault(name) is None <==> {
            &&& name.len() > 0
            &&& utf8_len(name) <= 64
            &&& name[0] != '/'
            &&& forall|i: int| 0 <= i < name.len() ==> !white(#[trigger] name[i])
        },
{
    if name.len() > 0 {
        assert(name[0] == name.first());
    }
}

/// What is filed is what was typed, without white space around it, under the name that was
/// typed; the first time it starts with nothing agreed and nothing received. Every other entry
/// stays as it was, the book is written down and then the service is told. Nothing that is
/// refused changes anything.
pub proof fn filing_adds_one_contact(
    s: SessionView,
    names: Seq<EntryView>,
    name: Seq<char>,
    address: Seq<char>,
    discovery: Seq<char>,
    mine: Seq<char>,
    key: Seq<char>,
    now: u64,
)
    ensures
        ({
            let (t, acts) = after_command(
                s,
                names,
                CommandView::Add(name, address, discovery),
                mine,
                key,
                now,
            );
            let fine = add_fault(s.book, trim(name), trim(address), trim(discovery)) is None;
            &&& t == (SessionView { book: t.book, ..s })
            &&& fine && !s.book.contains_key(trim(name)) ==> t.book == s.book.insert(
                trim(name),
                ContactView {
                    address: trim(address),
                    discovery: trim(discovery),
                    presence: Presence::Off,
                    seen: 0,
                    objects_to_history: false,
                    we_object: false,
                },
            )
            &&& fine && s.book.contains_key(trim(name)) ==> t.book == s.book
            &&& fine ==> acts[0] == DoView::SaveBook && acts[1] == DoView::Resync
            &&& !fine ==> t == s && acts.len() == 1 && acts[0] is Say && acts[0]->Say_0
                == Kind::Error
            &&& fine && names.len() == 0 ==> acts.len() == 5
            &&& fine && names.len() > 0 ==> acts.len() == 4
        }),
{
}

/// What may be filed: a name that can be typed, a well-formed address and a discovery key, where
/// the name is free or already stands for exactly these.
pub proof fn what_may_be_filed(
    book: Map<Seq<char>, ContactView>,
    name: Seq<char>,
    address: Seq<char>,
    discovery: Seq<char>,
)
    ensures
        add_fault(book, name, address, discovery) is None <==> {
            &&& contact_name_fault(name) is None
            &&& address_fault(address) is None
            &&& discovery_key_ok(discovery)
            &&& book.contains_key(name) ==> book[name].address == address && book[name].discovery
                == discovery
        },
{
}

/// Forgetting drops the one contact that is named, what was written to them and everything that
/// is held for them or open to them, and nothing of anybody else; the book is written down and
/// the service told before the connection is let go. A name that is not there changes nothing.
pub proof fn forgetting_drops_one_contact(
    s: SessionView,
    names: Seq<EntryView>,
    name: Seq<char>,
    mine: Seq<char>,
    key: Seq<char>,
    now: u64,
    other: PeerId,
)
    ensures
        ({
            let (t, acts) = after_command(s, names, CommandView::Forget(name), mine, key, now);
            let known = s.book.contains_key(trim(name));
            &&& t.ringing == s.ringing && t.next == s.next
            &&& !known ==> t == s && acts.len() == 1 && acts[0] is Say
            &&& known ==> {
                &&& t.book == s.book.remove(trim(name))
                &&& acts[0] == DoView::SaveBook && acts[1] == DoView::Resync
            }
            &&& known && onion_key(s.book[trim(name)].address) is Some ==> {
                let peer = peer_from(onion_key(s.book[trim(name)].address)->0);
                let a = trim(onion_text(peer@));
                let n = queue_for(s, peer).len();
                &&& t.outbox == s.outbox.remove(a)
                &&& t.pool.idle == s.pool.idle.remove(peer)
                &&& t.pool.dialling == s.pool.dialling.remove(peer)
                &&& t.pool.waiting == s.pool.waiting.remove(peer)
                &&& acts.contains(
                    DoView::LetGo(peer, s.pool.dialling.contains(peer), s.pool.idle.contains(peer)),
                )
                &&& acts.contains(DoView::SaveOutbox) <==> n > 0
            }
            &&& known && onion_key(s.book[trim(name)].address) is None ==> t.outbox == s.outbox
                && t.pool == s.pool
        }),
{
    let (t, acts) = after_command(s, names, CommandView::Forget(name), mine, key, now);
    if s.book.contains_key(trim(name)) && onion_key(s.book[trim(name)].address) is Some {
        let peer = peer_from(onion_key(s.book[trim(name)].address)->0);
        let n = queue_for(s, peer).len();
        let at: int = if n > 0 {
            4
        } else {
            2
        };
        assert(acts[at] == DoView::LetGo(
            peer,
            s.pool.dialling.contains(peer),
            s.pool.idle.contains(peer),
        ));
        if n > 0 {
            assert(acts[2] == DoView::SaveOutbox);
        }
    }
}

/// The list of contacts has one line for each, in the book's order, and changes nothing; an
/// empty book is said to be one.
pub proof fn every_contact_is_listed(
    s: SessionView,
    names: Seq<EntryView>,
    mine: Seq<char>,
    key: Seq<char>,
    now: u64,
)
    ensures
        ({
            let (t, acts) = after_command(s, names, CommandView::Contacts, mine, key, now);
            &&& t == s
            &&& names.len() == 0 ==> acts.len() == 1 && acts[0] is Say
            &&& names.len() > 0 ==> acts.len() == names.len() && forall|i: int|
                0 <= i < names.len() ==> #[trigger] acts[i] == DoView::Say(
                    Kind::System,
                    contact_line(s, names[i]),
                )
        }),
{
}

/// A line of the list begins with the name, then has the fingerprint of the address; it says
/// that somebody is online exactly where presence is agreed and they are connected, and how many
/// messages wait exactly where any does.
pub proof fn a_contact_s_line_tells_all(s: SessionView, e: EntryView)
    ensures
        ({
            let line = contact_line(s, e);
            let tail = standing(e.0, e.1, s.pool);
            let n = if s.outbox.contains_key(trim(e.1.address)) {
                s.outbox[trim(e.1.address)].len()
            } else {
                0
            };
            let head = "  "@ + padded(e.0, 16) + " "@ + fingerprint_of(e.1.address);
            &&& n == 0 ==> line == head + tail
            &&& n > 0 ==> line == head + tail + ("  ("@ + decimal_text(n) + " waiting to go out)"@)
            &&& tail == "  (online)"@ <==> e.1.presence == Presence::On && onion_key(e.1.address)
                is Some && s.pool.idle.contains(peer_from(onion_key(e.1.address)->0))
            &&& tail.len() == 0 <==> e.1.presence == Presence::Off
            &&& padded(e.0, 16).len() == if e.0.len() < 16 {
                16
            } else {
                e.0.len()
            }
            &&& padded(e.0, 16).take(e.0.len() as int) == e.0
        }),
{
    reveal_strlit("");
    reveal_strlit("  (online)");
    reveal_strlit("  (presence: asked, waiting)");
    reveal_strlit("  (asks to see you — /presence ");
    reveal_strlit("  (presence on, not connected)");
    assert("  (online)"@.len() == 10);
    assert("  (presence: asked, waiting)"@.len() > 10);
    assert("  (asks to see you — /presence "@.len() > 10);
    assert("  (presence on, not connected)"@.len() > 10);
    let tail = standing(e.0, e.1, s.pool);
    let head = "  "@ + padded(e.0, 16) + " "@ + fingerprint_of(e.1.address);
    assert(head + tail + ""@ =~= head + tail);
    padding_fills(e.0, 16);
    if tail == "  (online)"@ {
        assert(tail.len() == 10);
    }
}

proof fn padding_fills(s: Seq<char>, width: nat)
    ensures
        padded(s, width).len() == if s.len() < width {
            width
        } else {
            s.len()
        },
        padded(s, width).take(s.len() as int) == s,
    decreases width - s.len(),
{
    if s.len() < width {
        padding_fills(s.push(' '), width);
        assert(padded(s, width).take(s.len() as int) =~= padded(s, width).take(
            s.push(' ').len() as int,
        ).take(s.len() as int));
        assert(s.push(' ').take(s.len() as int) =~= s);
    } else {
        assert(s.take(s.len() as int) =~= s);
    }
}

/// Every contact may discover the service, and nobody else: one key for each, theirs.
pub proof fn every_contact_is_authorised(names: Seq<EntryView>)
    ensures
        clients_of(names).len() == names.len(),
        forall|i: int|
            0 <= i < names.len() ==> (#[trigger] clients_of(names)[i]).1 == names[i].1.discovery,
        unusable_key(names) is None <==> forall|i: int|
            0 <= i < names.len() ==> discovery_key_ok((#[trigger] names[i]).1.discovery),
    decreases names.len(),
{
    if names.len() > 0 {
        let init = names.drop_last();
        every_contact_is_authorised(init);
        assert(names[names.len() - 1] == names.last());
        if unusable_key(init) is Some {
            let i = choose|i: int|
                0 <= i < init.len() && !discovery_key_ok((#[trigger] init[i]).1.discovery);
            assert(!discovery_key_ok(names[i].1.discovery));
        } else {
            assert forall|i: int| 0 <= i < init.len() implies discovery_key_ok(
                (#[trigger] names[i]).1.discovery,
            ) by {
                assert(init[i] == names[i]);
            }
        }
    }
}

/// `/copy` copies our address and our key, as `/add` wants them; `/quit` leaves; a command that
/// is none says so. None of them changes anything.
pub proof fn the_other_commands_change_nothing(
    s: SessionView,
    names: Seq<EntryView>,
    mine: Seq<char>,
    key: Seq<char>,
    now: u64,
    text: Seq<char>,
)
    ensures
        ({
            let (t, acts) = after_command(s, names, CommandView::Copy, mine, key, now);
            t == s && acts.len() == 3 && acts[0] == DoView::Copy(mine + " "@ + key)
        }),
        after_command(s, names, CommandView::Quit, mine, key, now) == (s, seq![DoView::Quit]),
        after_command(s, names, CommandView::Nothing, mine, key, now) == (s, Seq::<DoView>::empty()),
        after_command(s, names, CommandView::Bad(text), mine, key, now) == (
            s,
            seq![DoView::Say(Kind::Error, text)],
        ),
        after_command(s, names, CommandView::Help, mine, key, now).0 == s,
{
}

} // verus!
