//! Jong Talk: the wire protocol, the rock-paper-scissors referee and the
//! chat-room bookkeeping of a small LAN chat program, with their contracts.
pub mod assoc;
pub mod bytes;
pub mod protocol;
pub mod text;
pub mod game;
pub mod server;
pub mod client;
pub mod identity;
pub mod ui;
