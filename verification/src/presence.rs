//! Whether two people see each other online: asked, answered, withdrawn.

use vstd::prelude::*;
use vstd::string::*;

use crate::message::{Message, MessageView};

verus! {

/// Whether this contact and we have agreed to see each other online.
#[derive(Clone, Copy, Debug, PartialEq, Eq, Structural)]
pub enum Presence {
    /// Nobody has asked, or somebody said no.
    Off,
    /// We asked. Nothing happens until they answer.
    WeAsked,
    /// They asked. Nothing happens until we answer.
    TheyAsked,
    /// Agreed, both ways.
    On,
}

impl Default for Presence {
    fn default() -> (r: Presence)
        ensures
            r == Presence::Off,
    {
        Presence::Off
    }
}

/// Something that happened to a presence agreement.
#[derive(Clone, Copy, Debug, PartialEq, Eq, Structural)]
pub enum Said {
    /// We typed `/presence <name>`.
    WeAsk,
    /// We typed `/presence <name> off`.
    WeStop,
    /// A [`Message::PresenceAsk`] arrived.
    TheyAsk,
    /// A [`Message::PresenceYes`] arrived.
    TheyAgree,
    /// A [`Message::PresenceNo`] arrived.
    TheyRefuse,
}

/// Where a presence event leaves things.
#[derive(Debug)]
pub struct Step {
    /// The state to store.
    pub to: Presence,
    /// What to send them, if anything.
    pub reply: Option<Message>,
    /// What to tell the operator, if there is anything worth saying.
    pub note: Option<String>,
}

/// Where an event leads.
pub open spec fn leads_to(from: Presence, said: Said) -> Presence {
    match said {
        Said::WeAsk => match from {
            Presence::TheyAsked | Presence::On => Presence::On,
            _ => Presence::WeAsked,
        },
        Said::WeStop | Said::TheyRefuse => Presence::Off,
        Said::TheyAsk => match from {
            Presence::WeAsked | Presence::On => Presence::On,
            _ => Presence::TheyAsked,
        },
        Said::TheyAgree => match from {
            Presence::WeAsked | Presence::On => Presence::On,
            _ => from,
        },
    }
}

/// What is answered to it.
pub open spec fn answer_to(from: Presence, said: Said) -> Option<MessageView> {
    match said {
        Said::WeAsk => match from {
            Presence::TheyAsked => Some(MessageView::PresenceYes),
            Presence::On => None,
            _ => Some(MessageView::PresenceAsk),
        },
        Said::WeStop => if from == Presence::Off {
            None
        } else {
            Some(MessageView::PresenceNo)
        },
        Said::TheyAsk => match from {
            Presence::WeAsked | Presence::On => Some(MessageView::PresenceYes),
            _ => None,
        },
        Said::TheyAgree | Said::TheyRefuse => None,
    }
}

/// What both sides are told once they agree.
pub open spec fn agreed_note(name: Seq<char>) -> Seq<char> {
    "you and "@ + name + " will see each other online from now on"@
}

/// What the operator is told of it.
pub open spec fn note_of(from: Presence, said: Said, name: Seq<char>) -> Option<Seq<char>> {
    match said {
        Said::WeAsk => match from {
            Presence::TheyAsked => Some(agreed_note(name)),
            Presence::On => Some(name + " already sees you online"@),
            _ => Some(
                "asked "@ + name + " — they will see it the next time you are both connected"@,
            ),
        },
        Said::WeStop => match from {
            Presence::Off => Some(name + " was not seeing you anyway"@),
            Presence::WeAsked => Some("withdrew the request to "@ + name),
            _ => Some(
                name + " no longer sees when you are online, and you no longer see them"@,
            ),
        },
        Said::TheyAsk => match from {
            Presence::WeAsked => Some(agreed_note(name)),
            Presence::On => None,
            _ => Some(
                name + " asks to see when you are online — /presence "@ + name
                    + " to agree, /presence "@ + name + " off to decline"@,
            ),
        },
        Said::TheyAgree => match from {
            Presence::WeAsked | Presence::On => Some(agreed_note(name)),
            _ => None,
        },
        Said::TheyRefuse => match from {
            Presence::Off => None,
            Presence::WeAsked => Some(name + " would rather not be seen online"@),
            _ => Some(name + " stopped sharing when they are online"@),
        },
    }
}

fn cat(a: &str, b: &str, c: &str) -> (r: String)
    ensures
        r@ == a@ + b@ + c@,
{
    let mut s = a.to_owned();
    s.append(b);
    s.append(c);
    s
}

fn behind(name: &str, text: &str) -> (r: String)
    ensures
        r@ == name@ + text@,
{
    let mut s = name.to_owned();
    s.append(text);
    s
}

fn agreed(name: &str) -> (r: Option<String>)
    ensures
        r is Some,
        r->0@ == agreed_note(name@),
{
    Some(cat("you and ", name, " will see each other online from now on"))
}

impl Presence {
    /// Apply one event, and say what follows from it. Stores nothing and sends nothing.
    pub fn step(self, said: Said, name: &str) -> (r: Step)
        ensures
            r.to == leads_to(self, said),
            match r.reply {
                Some(m) => answer_to(self, said) == Some(m@),
                None => answer_to(self, said) is None,
            },
            match r.note {
                Some(n) => note_of(self, said, name@) == Some(n@),
                None => note_of(self, said, name@) is None,
            },
    {
        let (to, reply, note) = match (self, said) {
            (Presence::TheyAsked, Said::WeAsk) => (
                Presence::On,
                Some(Message::PresenceYes),
                agreed(name),
            ),
            (Presence::On, Said::WeAsk) => (
                Presence::On,
                None,
                Some(behind(name, " already sees you online")),
            ),
            (_, Said::WeAsk) => (
                Presence::WeAsked,
                Some(Message::PresenceAsk),
                Some(
                    cat(
                        "asked ",
                        name,
                        " — they will see it the next time you are both connected",
                    ),
                ),
            ),
            (Presence::Off, Said::WeStop) => (
                Presence::Off,
                None,
                Some(behind(name, " was not seeing you anyway")),
            ),
            (Presence::WeAsked, Said::WeStop) => (
                Presence::Off,
                Some(Message::PresenceNo),
                Some(behind("withdrew the request to ", name)),
            ),
            (_, Said::WeStop) => (
                Presence::Off,
                Some(Message::PresenceNo),
                Some(
                    behind(
                        name,
                        " no longer sees when you are online, and you no longer see them",
                    ),
                ),
            ),
            (Presence::WeAsked, Said::TheyAsk) => (
                Presence::On,
                Some(Message::PresenceYes),
                agreed(name),
            ),
            (Presence::On, Said::TheyAsk) => (Presence::On, Some(Message::PresenceYes), None),
            (_, Said::TheyAsk) => {
                let mut s = cat(name, " asks to see when you are online — /presence ", name);
                s.append(" to agree, /presence ");
                s.append(name);
                s.append(" off to decline");
                (Presence::TheyAsked, None, Some(s))
            },
            (Presence::WeAsked, Said::TheyAgree) => (Presence::On, None, agreed(name)),
            (Presence::On, Said::TheyAgree) => (Presence::On, None, agreed(name)),
            (other, Said::TheyAgree) => (other, None, None),
            (Presence::Off, Said::TheyRefuse) => (Presence::Off, None, None),
            (Presence::WeAsked, Said::TheyRefuse) => (
                Presence::Off,
                None,
                Some(behind(name, " would rather not be seen online")),
            ),
            (_, Said::TheyRefuse) => (
                Presence::Off,
                None,
                Some(behind(name, " stopped sharing when they are online")),
            ),
        };
        Step { to, reply, note }
    }
}

/// An event of the other side's making.
pub open spec fn theirs(said: Said) -> bool {
    said == Said::TheyAsk || said == Said::TheyAgree || said == Said::TheyRefuse
}

/// Where a run of events leads.
pub open spec fn led_to(from: Presence, events: Seq<Said>) -> Presence
    decreases events.len(),
{
    if events.len() == 0 {
        from
    } else {
        leads_to(led_to(from, events.drop_last()), events.last())
    }
}

/// Consent is mutual: from nothing, no run of events of the other side's making leads to an
/// agreement, however long it is. Silence is never consent.
pub proof fn they_alone_cannot_agree(events: Seq<Said>)
    requires
        forall|i: int| 0 <= i < events.len() ==> theirs(#[trigger] events[i]),
    ensures
        led_to(Presence::Off, events) == Presence::Off || led_to(Presence::Off, events)
            == Presence::TheyAsked,
    decreases events.len(),
{
    if events.len() > 0 {
        let init = events.drop_last();
        assert forall|i: int| 0 <= i < init.len() implies theirs(#[trigger] init[i]) by {
            assert(theirs(events[i]));
        }
        they_alone_cannot_agree(init);
        assert(theirs(events[events.len() - 1]));
    }
}

/// And we alone cannot either.
pub proof fn we_alone_cannot_agree(events: Seq<Said>)
    requires
        forall|i: int| 0 <= i < events.len() ==> !theirs(#[trigger] events[i]),
    ensures
        led_to(Presence::Off, events) == Presence::Off || led_to(Presence::Off, events)
            == Presence::WeAsked,
    decreases events.len(),
{
    if events.len() > 0 {
        let init = events.drop_last();
        assert forall|i: int| 0 <= i < init.len() implies !theirs(#[trigger] init[i]) by {
            assert(!theirs(events[i]));
        }
        we_alone_cannot_agree(init);
        assert(!theirs(events[events.len() - 1]));
    }
}

/// Both ways round lead to an agreement, from wherever things stood: we ask and they say yes,
/// they ask and we say yes, and two requests that cross.
pub proof fn both_sides_get_there_either_way(from: Presence)
    ensures
        leads_to(leads_to(from, Said::WeAsk), Said::TheyAgree) == Presence::On,
        leads_to(leads_to(from, Said::WeAsk), Said::TheyAsk) == Presence::On,
        leads_to(leads_to(from, Said::TheyAsk), Said::WeAsk) == Presence::On,
{
}

/// Either side can end it at any time, and ending it is told wherever there was something to
/// end.
pub proof fn either_side_can_withdraw(from: Presence)
    ensures
        leads_to(from, Said::WeStop) == Presence::Off,
        leads_to(from, Said::TheyRefuse) == Presence::Off,
        from != Presence::Off ==> answer_to(from, Said::WeStop) == Some(MessageView::PresenceNo),
{
}

/// The two ends of an agreement agree: when one side's answer to the other's request is a
/// yes, it stands at an agreement itself, and the yes brings the other side there.
pub proof fn a_yes_is_shared(mine: Presence, theirs_now: Presence)
    requires
        answer_to(mine, Said::TheyAsk) == Some(MessageView::PresenceYes),
        theirs_now == Presence::WeAsked || theirs_now == Presence::On,
    ensures
        leads_to(mine, Said::TheyAsk) == Presence::On,
        leads_to(theirs_now, Said::TheyAgree) == Presence::On,
{
}

} // verus!
