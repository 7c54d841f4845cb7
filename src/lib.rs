//! Server-side engine of a multi-room text chat relay.
//!
//! The engine keeps a registry of connected clients and a registry of
//! capacity-bounded rooms, turns decoded protocol messages into state changes,
//! and answers with the frames that must be written to each connection.
//! Transport, encoding and task scheduling are left to the embedding program:
//! it owns the connections, decodes each line into a [`Message`], hands it to
//! [`ChatServer`], and writes every returned [`Delivery`] to its addressee.

pub mod clients;
pub mod laws;
pub mod message;
pub mod model;
pub mod rooms;
pub mod server;
pub mod text;

pub use clients::{Client, ClientRegistry};
pub use message::{Delivery, Message};
pub use rooms::{Room, RoomRegistry};
pub use server::{ChatServer, SessionEvent};
pub use text::frame;
