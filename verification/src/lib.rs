//! The broker of a chat server: it registers the sessions of connected
//! clients, keeps each in one room, routes messages to the others in a room,
//! and evicts sessions whose clients have fallen silent.
//!
//! Nothing here does I/O. The broker and the sessions are state machines: they
//! take what has happened (a command, a line from a client, a tick of a timer)
//! together with the time, and return what is to be done about it (events to
//! deliver, commands to forward, a connection to close). Whoever owns the
//! connections carries that out.
//!
//! - [`model`] says what the broker's state is and what each command makes of it.
//! - [`broker`] is the broker itself, proved against that model.
//! - [`session`] is the state machine of one connection.
//! - [`protocol`] holds commands, events and the line protocol of the clients.
//! - [`lemmas`] proves what holds of the whole: ids are never given out twice,
//!   a session is in one room, silence ends in eviction.
//! - [`lookup`] builds the replies to lookups of users and conversations.
//! - [`text`] orders names.

pub mod broker;
pub mod lemmas;
pub mod lookup;
pub mod model;
pub mod protocol;
pub mod session;
pub mod text;
