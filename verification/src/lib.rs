//! An in-memory key-value store that speaks a framed request and reply
//! protocol, as a library: the protocol's values and their wire form, the
//! databases with their lazily expiring keys, the commands, and the life of
//! a connection as a machine that is told what happened on the socket and
//! says what to do next.
//!
//! What every function returns and changes is stated over mathematical
//! models: [`value::Value`] for a protocol value, [`db::DbState`] and
//! [`server::ServerState`] for the store, [`semantics::run`] for what a
//! request does, [`connection::step`] for what a connection does.

pub mod buffer;
pub mod client;
pub mod command_laws;
pub mod config;
pub mod connection;
pub mod db;
pub mod decode;
pub mod frame;
pub mod keymap;
pub mod misc;
pub mod pairing;
pub mod resp;
pub mod semantics;
pub mod server;
pub mod text;
pub mod value;
pub mod wire_laws;
