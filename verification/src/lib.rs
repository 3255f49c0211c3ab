//! A sans-I/O core for a small peer-to-peer event mesh.
//!
//! Nodes find each other with one UDP datagram, link up over TCP, and exchange
//! `{event, data}` records, each terminated by a delimiter byte. This crate
//! holds the rules of that design as plain functions on plain values: the
//! event tables, the wire codec, the discovery payload, and the decisions the
//! peer and the network coordinator take. Sockets, threads and handler
//! invocation belong to the caller.

use vstd::prelude::*;

pub mod codec;
pub mod discovery;
pub mod event;
pub mod network;
pub mod peer;
pub mod stream;

verus! {

/// The successor of `x`.
pub fn add_one(x: i32) -> (r: i32)
    requires
        x < i32::MAX,
    ensures
        r == x + 1,
{
    x + 1
}

} // verus!
