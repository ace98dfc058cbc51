//! The receiver's per-datagram step: count it, apply the allow-list,
//! and classify it as a chunk or a simple message. Reading from the
//! socket is the surrounding application's job.

use vstd::prelude::*;

use crate::gelf::{
    parse_chunk_info, spec_chunk_info, spec_is_chunk_datagram, GelfChunkedMessage,
    GelfMessageWrapper, GelfPacket,
};
use crate::net::{source_allowed, spec_source_allowed, IpAddress, SockAddress};
use crate::state::State;

verus! {

/// What the received datagram becomes: a single-chunk partial message
/// when it carries the chunk magic, a simple packet otherwise; either
/// way its header fields are those read from the bytes and its data is
/// untouched.
pub open spec fn spec_classified(
    w: GelfMessageWrapper,
    data: Seq<u8>,
    src: SockAddress,
    now_seconds: i64,
) -> bool {
    let info = spec_chunk_info(data);
    if spec_is_chunk_datagram(data) {
        match w {
            GelfMessageWrapper::Chunked(m) => {
                &&& m.id == info.0
                &&& m.arrival_time == now_seconds
                &&& m.expected_max_chunks == info.2
                &&& m.chunks@.len() == 1
                &&& m.chunks@[0].data@ == data
                &&& m.chunks@[0].message_id == info.0
                &&& m.chunks@[0].sequence_number == info.1
                &&& m.chunks@[0].total_chunks == info.2
                &&& m.chunks@[0].source_ip == src
            },
            GelfMessageWrapper::Simple(_) => false,
        }
    } else {
        match w {
            GelfMessageWrapper::Simple(p) => {
                &&& p.data@ == data
                &&& p.message_id == info.0
                &&& p.sequence_number == info.1
                &&& p.total_chunks == info.2
                &&& p.source_ip == src
            },
            GelfMessageWrapper::Chunked(_) => false,
        }
    }
}

/// Handle one inbound datagram: the handled-packets counter always
/// goes up by one; a sender outside a non-empty allow-list is then
/// dropped silently; an admitted datagram is classified and handed back
/// for the dispatcher's queue. Nothing else in the state changes.
pub fn receiver_step(
    state: &mut State,
    allowed: &Vec<IpAddress>,
    data: Vec<u8>,
    src: SockAddress,
    now_seconds: i64,
) -> (r: Option<GelfMessageWrapper>)
    ensures
        final(state).nr_of_handled_udp_packets == (if old(state).nr_of_handled_udp_packets
            < u64::MAX {
            old(state).nr_of_handled_udp_packets + 1
        } else {
            old(state).nr_of_handled_udp_packets as int
        }),
        final(state).nr_of_forwarded_messages == old(state).nr_of_forwarded_messages,
        final(state).chunked_messages == old(state).chunked_messages,
        final(state).otf_massage_required == old(state).otf_massage_required,
        final(state).round_robin_cursor == old(state).round_robin_cursor,
        r is None <==> !spec_source_allowed(allowed@, src.ip),
        match r {
            Some(w) => spec_classified(w, data@, src, now_seconds) && w.wf(),
            None => true,
        },
{
    state.record_handled_packet();
    if !source_allowed(allowed, &src.ip) {
        return None;
    }
    let (message_id, sequence_number, total_chunks) = parse_chunk_info(data.as_slice());
    let gelf_packet = GelfPacket::new_chunked(
        data,
        message_id,
        sequence_number,
        total_chunks,
        src,
    );
    if gelf_packet.is_chunked() {
        Some(GelfMessageWrapper::Chunked(GelfChunkedMessage::new(gelf_packet, now_seconds)))
    } else {
        Some(GelfMessageWrapper::Simple(gelf_packet))
    }
}

} // verus!
