//! A UDP load balancer for the Graylog Extended Log Format (GELF).
//!
//! The library holds the verified core of the balancer: the GELF chunk
//! codec, payload mutation, the reassembly table, backend selection, and
//! wire-level datagram construction. Socket and thread plumbing lives in
//! the surrounding application.

use vstd::prelude::*;

pub mod balancer;
pub mod configuration;
pub mod gelf;
pub mod laws;
pub mod gzip;
pub mod mutate;
pub mod net;
pub mod supervisor;
pub mod table;
pub mod packet_builder;
pub mod payload;
pub mod receiver;
pub mod state;

verus! {

} // verus!
