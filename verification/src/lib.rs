//! Terminal messaging between two people, without a server in the middle.
//!
//! The modules here hold everything murmure decides: what travels on the wire, who is
//! believed, what is kept on disk and under which key, what a typed line means, and what the
//! screen shows. Sockets, files and the terminal stay with the program that calls them.

pub mod bytes;
pub mod chat;
pub mod codec;
pub mod command;
pub mod contacts;
pub mod crypto;
pub mod files;
pub mod handshake;
pub mod history;
pub mod identity;
pub mod laws;
pub mod link;
pub mod message;
pub mod names;
pub mod onion;
pub mod outbox;
pub mod peers;
pub mod pool;
pub mod presence;
pub mod proto;
pub mod screen;
pub mod session;
pub mod store;
pub mod text;
pub mod transport;
pub mod typed;
pub mod ui;
