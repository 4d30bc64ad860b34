//! Verified packet logic of a small family of relay servers: a front relay that sits
//! between game clients and game servers, the centre servers that route
//! frames between clients and a server, and a raw stream splitter.
//!
//! The network plumbing (sockets, tasks, channels, logging) lives in the
//! program under `app/`; everything that decides what bytes go where is here.
use vstd::prelude::*;

pub mod action;
pub mod center;
pub mod chat;
pub mod codec;
pub mod net;
pub mod packets;
pub mod registry;
pub mod relay;
pub mod split;

pub use codec::encode_head;

verus! {

} // verus!
