//! What the library promises as a whole, proved of what its functions are stated to do.
//!
//! A promise here is put in terms of what goes in and what comes out: what is kept, what is
//! sent, and what the other side makes of it.

pub mod book;
pub mod calls;
pub mod dealings;
pub mod exchange;
pub mod keeping;
pub mod line;
pub mod messages;
pub mod passing;
pub mod paths;
pub mod promises;
pub mod reach;
pub mod receiving;
pub mod sending;
pub mod talking;
pub mod telling;
pub mod touch;
pub mod transfers;
pub mod view;
pub mod watching;
pub mod wire;
pub mod words;
