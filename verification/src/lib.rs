//! Peer discovery and transfer rendezvous for devices on one local network.
//!
//! Every device announces its identity over multicast, keeps a registry of
//! the peers it has heard from, drops the ones that fall silent, and can
//! offer a file to a peer that later pulls the bytes over HTTP. This crate
//! holds the decisions of that protocol as plain functions on plain values;
//! sockets, timers and the HTTP stack live in the program around it.

pub mod discovery;
pub mod error;
pub mod id;
pub mod identity;
pub mod model;
pub mod registry;
pub mod text;
pub mod transfer;
