//! The balancer's shared mutable state: the reassembly table, the two
//! monotone counters, the round-robin cursor and the fixed
//! massage-required flag. The surrounding application guards a value of
//! this type with its own locking; the library describes every change to
//! it.

use vstd::prelude::*;

use crate::table::ReassemblyTable;

verus! {

pub struct State {
    pub chunked_messages: ReassemblyTable,
    pub nr_of_forwarded_messages: u64,
    pub nr_of_handled_udp_packets: u64,
    pub otf_massage_required: bool,
    pub round_robin_cursor: usize,
}

impl State {
    pub open spec fn wf(&self) -> bool {
        self.chunked_messages.wf()
    }

    /// Start with empty table and counters; the massage-required flag is
    /// fixed for the process lifetime.
    pub fn new(otf_massage_required: bool) -> (r: State)
        ensures
            r.wf(),
            r.chunked_messages.entries@.len() == 0,
            r.nr_of_forwarded_messages == 0,
            r.nr_of_handled_udp_packets == 0,
            r.otf_massage_required == otf_massage_required,
            r.round_robin_cursor == 0,
    {
        State {
            chunked_messages: ReassemblyTable::new(),
            nr_of_forwarded_messages: 0,
            nr_of_handled_udp_packets: 0,
            otf_massage_required,
            round_robin_cursor: 0,
        }
    }

    /// Count one accepted inbound datagram. The counter never decreases;
    /// at its maximum it stays put rather than wrap.
    pub fn record_handled_packet(&mut self)
        ensures
            final(self).nr_of_handled_udp_packets == (if old(self).nr_of_handled_udp_packets
                < u64::MAX {
                old(self).nr_of_handled_udp_packets + 1
            } else {
                old(self).nr_of_handled_udp_packets as int
            }),
            final(self).nr_of_handled_udp_packets >= old(self).nr_of_handled_udp_packets,
            final(self).nr_of_forwarded_messages == old(self).nr_of_forwarded_messages,
            final(self).chunked_messages == old(self).chunked_messages,
            final(self).otf_massage_required == old(self).otf_massage_required,
            final(self).round_robin_cursor == old(self).round_robin_cursor,
    {
        if self.nr_of_handled_udp_packets < u64::MAX {
            self.nr_of_handled_udp_packets = self.nr_of_handled_udp_packets + 1;
        }
    }

    /// Count one fully forwarded logical message. The counter never
    /// decreases; at its maximum it stays put rather than wrap.
    pub fn record_forwarded_message(&mut self)
        ensures
            final(self).nr_of_forwarded_messages == (if old(self).nr_of_forwarded_messages
                < u64::MAX {
                old(self).nr_of_forwarded_messages + 1
            } else {
                old(self).nr_of_forwarded_messages as int
            }),
            final(self).nr_of_forwarded_messages >= old(self).nr_of_forwarded_messages,
            final(self).nr_of_handled_udp_packets == old(self).nr_of_handled_udp_packets,
            final(self).chunked_messages == old(self).chunked_messages,
            final(self).otf_massage_required == old(self).otf_massage_required,
            final(self).round_robin_cursor == old(self).round_robin_cursor,
    {
        if self.nr_of_forwarded_messages < u64::MAX {
            self.nr_of_forwarded_messages = self.nr_of_forwarded_messages + 1;
        }
    }

    /// A read-only snapshot of the two counters, as the status endpoint
    /// reports them: forwarded messages first, handled packets second.
    pub fn counters(&self) -> (r: (u64, u64))
        ensures
            r.0 == self.nr_of_forwarded_messages,
            r.1 == self.nr_of_handled_udp_packets,
    {
        (self.nr_of_forwarded_messages, self.nr_of_handled_udp_packets)
    }
}

} // verus!
