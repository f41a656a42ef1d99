//! Cross-process virtual-file-system transport: a server process publishes
//! immutable file snapshots in named shared-memory regions and serves open /
//! close requests from client processes over length-prefixed frames on a pair
//! of anonymous pipes.
//!
//! This crate holds the verified core of the transport: the framing and
//! message codecs, the descriptor and channel state machines, the
//! reference-counted region registry, and the per-connection bookkeeping of
//! the event-driven server. The process that embeds it performs the system
//! calls (pipe, read, write, shared-memory mapping, readiness polling) and
//! feeds their outcomes back into these state machines.
use vstd::prelude::*;

pub mod actions;
pub mod channel;
pub mod client;
pub mod error;
pub mod flags;
pub mod frame;
pub mod handle;
pub mod msg;
pub mod region;
pub mod server;
pub mod stream;
pub mod text;
pub mod types;
pub mod wire;

verus! {

/// Usage summary for the command-line front end.
pub fn help() -> (r: &'static str)
    ensures
        r@ == (
        "
    --version or -V to print the version and commit info
    --help or -h for this message
    --cli starts the RLS in command line mode
    No input starts the RLS as a language server
    ")@,
{
    "
    --version or -V to print the version and commit info
    --help or -h for this message
    --cli starts the RLS in command line mode
    No input starts the RLS as a language server
    "
}

} // verus!
