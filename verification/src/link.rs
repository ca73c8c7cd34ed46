//! One open connection to one peer: what it hands up, and how it ends.
//!
//! The stream and the two tasks around it are run elsewhere. A link outlives the call held
//! over it.

use vstd::prelude::*;
use vstd::string::*;

use crate::message::{Message, MessageView};

verus! {

/// How many frames may queue on the way out before the producer waits.
pub const OUTBOX: usize = 32;

/// How many frames may queue on the way in.
pub const INBOX: usize = 32;

/// Whether a frame is handed up. A keepalive proves that the far side is alive, and must
/// never look like somebody starting to talk.
pub fn delivers(msg: &Message) -> (r: bool)
    ensures
        r == (msg@ != MessageView::Ping),
{
    match msg {
        Message::Ping => false,
        _ => true,
    }
}

/// How the writing half of a link ended.
#[derive(Clone, Debug, PartialEq, Eq)]
pub enum Writing {
    /// Everything queued got out.
    Done,
    /// A write failed; why.
    Failed(String),
    /// The task that wrote is gone; why.
    Lost(String),
}

/// Whether everything queued got out, or what to say of it. A write that fails because the
/// peer has already gone is the normal race, and no fault.
pub fn closed(writing: Writing, peer_hung_up: bool) -> (r: Result<(), String>)
    ensures
        match writing {
            Writing::Done => r is Ok,
            Writing::Failed(why) => if peer_hung_up {
                r is Ok
            } else {
                r is Err && r->Err_0@ == "sending the last of what was queued: "@ + why@
            },
            Writing::Lost(why) => r is Err && r->Err_0@ == "the writer task panicked: "@ + why@,
        },
{
    match writing {
        Writing::Done => Ok(()),
        Writing::Failed(why) => {
            if peer_hung_up {
                return Ok(());
            }
            let mut s = "sending the last of what was queued: ".to_owned();
            s.append(why.as_str());
            Err(s)
        },
        Writing::Lost(why) => {
            let mut s = "the writer task panicked: ".to_owned();
            s.append(why.as_str());
            Err(s)
        },
    }
}

} // verus!
