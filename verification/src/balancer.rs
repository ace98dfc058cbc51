//! The dispatcher's decision logic: backend selection, conditional
//! reassembly against the table, payload massage, the bytes to send for
//! each outgoing packet, and the message-counting rule. The surrounding
//! application runs the loop, owns the sockets and performs the sends.

use vstd::prelude::*;

use crate::configuration::Configuration;
use crate::gelf::{GelfChunkedMessage, GelfMessageWrapper, GelfPacket};
use crate::gzip::gunzip_of;
use crate::mutate::{
    attach_source_info, blank_fields_apply, spec_blank_all, spec_has_field, spec_source_addr_key,
    spec_strip_keep, strip_fields_apply,
};
use crate::net::{ip_text, spec_ip_text, IpAddress, SockAddress};
use crate::packet_builder::{build_custom_packet, spec_custom_packet, spec_payload_fits, BuildError};
use crate::payload::{
    copy_bytes, spec_encode, spec_get_payload, spec_is_gzipped, spec_rechunk_ok,
    spec_rechunk_overflow, DecodeError, EncodeError, GelfMessageView,
};
use crate::state::State;

verus! {

/// The backend index chosen for a chunked message: segment the 255
/// possible low-byte values over the backends and clamp. Only ids below
/// 255 spread over the list; larger ids clamp to the last backend.
pub open spec fn spec_backend_index(n: int, value: u64) -> int
    recommends
        1 <= n <= 255,
{
    let segment = 255int / n;
    let index = value as int / segment;
    if index > n - 1 {
        n - 1
    } else {
        index
    }
}

/// Select the backend for a chunked message: a pure function of the
/// message id and the backend count, so that every chunk of one message
/// lands on the same backend without coordination.
pub fn select_backend(backends: &Vec<SockAddress>, value: u64) -> (r: usize)
    requires
        1 <= backends@.len() <= 255,
    ensures
        r == spec_backend_index(backends@.len() as int, value),
        r < backends@.len(),
{
    let n64 = backends.len() as u64;
    proof {
        vstd::arithmetic::div_mod::lemma_div_is_ordered_by_denominator(255, n64 as int, 255);
    }
    let segment_size = 255u64 / n64;
    let index = value / segment_size;
    let last = backends.len() - 1;
    if index < last as u64 {
        index as usize
    } else {
        last
    }
}

/// Why a message was dropped instead of forwarded.
#[derive(Clone, Copy, PartialEq, Eq, Structural, Debug)]
pub enum MassageError {
    Decode(DecodeError),
    Encode(EncodeError),
}

/// The record after the configured rewrites, in order: source-info
/// attachment, stripping (applied only when the strip list is
/// non-empty), then blanking.
pub open spec fn spec_massaged(m: GelfMessageView, config: &Configuration, src: IpAddress) -> GelfMessageView {
    let fs0 = m.additional_fields;
    let fs1 = if config.attach_source_info {
        if spec_has_field(fs0, spec_source_addr_key()) {
            fs0
        } else {
            fs0.push((spec_source_addr_key(), seq![0x22u8] + spec_ip_text(src) + seq![0x22u8]))
        }
    } else {
        fs0
    };
    let fs2 = if config.strip_fields@.len() > 0 {
        fs1.filter(spec_strip_keep(config.strip_fields@))
    } else {
        fs1
    };
    let fs3 = spec_blank_all(fs2, config.blank_fields@);
    GelfMessageView { additional_fields: fs3, ..m }
}

/// How a successfully massaged wrapper relates to the one it replaces:
/// its old payload decoded, rewritten as [`spec_massaged`] says,
/// re-encoded (through GZip when configured) and re-chunked.
pub open spec fn spec_massage_ok(
    w_old: GelfMessageWrapper,
    w_new: GelfMessageWrapper,
    config: &Configuration,
    now_seconds: i64,
    clock_nanos: u64,
) -> bool {
    match spec_get_payload(w_old) {
        Err(_) => false,
        Ok(view) => {
            let out = spec_encode(spec_massaged(view, config, w_old.spec_pkg_src().ip));
            if config.use_gzip == Some(true) {
                exists|z: Seq<u8>|
                    {
                        &&& gunzip_of(z) == Some(out)
                        &&& spec_is_gzipped(z)
                        &&& z.len() <= usize::MAX
                        &&& #[trigger] spec_rechunk_ok(
                            w_old,
                            w_new,
                            z,
                            config.chunk_size,
                            clock_nanos,
                            now_seconds,
                        )
                    }
            } else {
                spec_rechunk_ok(w_old, w_new, out, config.chunk_size, clock_nanos, now_seconds)
            }
        },
    }
}

/// Rewrite a wrapper's payload in flight when massaging is required, and
/// leave it untouched otherwise. On a failure the wrapper is unchanged
/// and the error says which step refused: a decode error reproduces the
/// payload's own refusal, and the one encode error comes with its
/// witness — the payload decoded, but its re-encoded body splits into
/// more chunks than a series can carry. The caller drops the message.
pub fn massage(
    massage_required: bool,
    config: &Configuration,
    packet: &mut GelfMessageWrapper,
    now_seconds: i64,
    clock_nanos: u64,
) -> (r: Result<(), MassageError>)
    requires
        old(packet).wf(),
        80 < config.chunk_size <= usize::MAX,
    ensures
        final(packet).wf(),
        !massage_required ==> r == Ok::<(), MassageError>(()) && *final(packet) == *old(packet),
        massage_required ==> match r {
            Ok(()) => spec_massage_ok(*old(packet), *final(packet), config, now_seconds, clock_nanos),
            Err(MassageError::Decode(e)) => spec_get_payload(*old(packet)) == Err::<
                GelfMessageView,
                DecodeError,
            >(e) && *final(packet) == *old(packet),
            Err(MassageError::Encode(e)) => {
                &&& *final(packet) == *old(packet)
                &&& e == EncodeError::TooManyChunks
                &&& spec_get_payload(*old(packet)) is Ok
                &&& spec_rechunk_overflow(
                    spec_encode(
                        spec_massaged(
                            spec_get_payload(*old(packet)).unwrap(),
                            config,
                            old(packet).spec_pkg_src().ip,
                        ),
                    ),
                    config.use_gzip == Some(true),
                    config.chunk_size,
                )
            },
        },
{
    if !massage_required {
        return Ok(());
    }
    let mut j = match packet.get_payload() {
        Ok(m) => m,
        Err(e) => {
            return Err(MassageError::Decode(e));
        },
    };
    if config.attach_source_info {
        let src_text = ip_text(&packet.pkg_src().ip);
        attach_source_info(&mut j, &src_text);
    }
    if config.strip_fields.len() > 0 {
        strip_fields_apply(&mut j, &config.strip_fields);
    }
    blank_fields_apply(&mut j, &config.blank_fields);
    proof {
        assert(j@ == spec_massaged(
            spec_get_payload(*old(packet)).unwrap(),
            config,
            old(packet).spec_pkg_src().ip,
        ));
    }
    match packet.set_payload(&j, config, now_seconds, clock_nanos) {
        Ok(()) => Ok(()),
        Err(e) => Err(MassageError::Encode(e)),
    }
}

/// The packets a wrapper forwards: all collected chunks of a chunked
/// message, or the one simple packet.
pub open spec fn spec_wrapper_packets(w: GelfMessageWrapper) -> Seq<GelfPacket> {
    match w {
        GelfMessageWrapper::Chunked(m) => m.chunks@,
        GelfMessageWrapper::Simple(p) => seq![p],
    }
}

/// The bytes to put on the wire for each packet of a wrapper. In
/// transparent mode each packet is wrapped in a full IP+UDP datagram
/// whose source is the original sender and whose destination is the
/// selected backend; otherwise each packet's bytes go out unchanged.
/// Mixed address families and oversized payloads are refused.
pub fn forward_datagrams(
    packet: &GelfMessageWrapper,
    backend: &SockAddress,
    transparent: bool,
) -> (r: Result<Vec<Vec<u8>>, BuildError>)
    requires
        packet.wf(),
    ensures
        match r {
            Ok(v) => {
                &&& v@.len() == spec_wrapper_packets(*packet).len()
                &&& forall|i: int|
                    0 <= i < v@.len() ==> (#[trigger] v@[i])@ == (if transparent {
                        spec_custom_packet(
                            packet.spec_pkg_src(),
                            *backend,
                            spec_wrapper_packets(*packet)[i].data@,
                        )
                    } else {
                        spec_wrapper_packets(*packet)[i].data@
                    })
                &&& forall|i: int|
                    0 <= i < v@.len() ==> {
                        let data = spec_wrapper_packets(*packet)[i].data@;
                        &&& data.len() <= (#[trigger] v@[i])@.len()
                        &&& v@[i]@.subrange(v@[i]@.len() - data.len(), v@[i]@.len() as int) == data
                    }
            },
            Err(e) => transparent && (e == BuildError::MixedAddressFamilies <==> !packet.spec_pkg_src().same_family(*backend)),
        },
        !transparent ==> r is Ok,
        transparent && packet.spec_pkg_src().same_family(*backend) && (forall|i: int|
            0 <= i < spec_wrapper_packets(*packet).len() ==> spec_payload_fits(
                packet.spec_pkg_src(),
                (#[trigger] spec_wrapper_packets(*packet)[i]).data@.len(),
            )) ==> r is Ok,
{
    let src = packet.pkg_src();
    let mut out: Vec<Vec<u8>> = Vec::new();
    match packet {
        GelfMessageWrapper::Chunked(c) => {
            let n = c.chunks.len();
            for i in 0..n
                invariant
                    *packet == GelfMessageWrapper::Chunked(*c),
                    packet.wf(),
                    src == packet.spec_pkg_src(),
                    n == c.chunks@.len(),
                    out@.len() == i,
                    forall|k: int|
                        0 <= k < i ==> (#[trigger] out@[k])@ == (if transparent {
                            spec_custom_packet(
                                packet.spec_pkg_src(),
                                *backend,
                                c.chunks@[k].data@,
                            )
                        } else {
                            c.chunks@[k].data@
                        }),
                    forall|k: int|
                        0 <= k < i ==> {
                            &&& c.chunks@[k].data@.len() <= (#[trigger] out@[k])@.len()
                            &&& out@[k]@.subrange(
                                out@[k]@.len() - c.chunks@[k].data@.len(),
                                out@[k]@.len() as int,
                            ) == c.chunks@[k].data@
                        },
            {
                if transparent {
                    match build_custom_packet(&src, backend, c.chunks[i].data.as_slice()) {
                        Ok(d) => out.push(d),
                        Err(e) => {
                            proof {
                                if src.same_family(*backend) {
                                    assert(!spec_payload_fits(src, c.chunks@[i as int].data@.len()));
                                    assert(spec_wrapper_packets(*packet)[i as int]
                                        == c.chunks@[i as int]);
                                }
                            }
                            return Err(e);
                        },
                    }
                } else {
                    let d = copy_bytes(c.chunks[i].data.as_slice());
                    proof {
                        assert(d@.subrange(0, d@.len() as int) =~= d@);
                    }
                    out.push(d);
                }
            }
            Ok(out)
        },
        GelfMessageWrapper::Simple(p) => {
            if transparent {
                match build_custom_packet(&src, backend, p.data.as_slice()) {
                    Ok(d) => out.push(d),
                    Err(e) => {
                        proof {
                            if src.same_family(*backend) {
                                assert(!spec_payload_fits(src, p.data@.len()));
                                assert(spec_wrapper_packets(*packet)[0] == *p);
                            }
                        }
                        return Err(e);
                    },
                }
            } else {
                let d = copy_bytes(p.data.as_slice());
                proof {
                    assert(d@.subrange(0, d@.len() as int) =~= d@);
                }
                out.push(d);
            }
            Ok(out)
        },
    }
}

/// Whether a successfully sent wrapper counts as one forwarded logical
/// message: a fully reassembled multi-chunk message counts once, a
/// lone chunk counts only when it is the series' first (so a
/// passed-through chunked message is counted exactly once across its
/// chunks), and a simple message always counts.
pub open spec fn spec_counts_as_message(w: GelfMessageWrapper) -> bool {
    match w {
        GelfMessageWrapper::Chunked(m) => {
            if m.chunks@.len() > 1 {
                true
            } else {
                m.chunks@[0].sequence_number == 0
            }
        },
        GelfMessageWrapper::Simple(_) => true,
    }
}

pub fn counts_as_message(w: &GelfMessageWrapper) -> (r: bool)
    requires
        w.wf(),
    ensures
        r == spec_counts_as_message(*w),
{
    match w {
        GelfMessageWrapper::Chunked(m) => {
            if m.chunks.len() > 1 {
                true
            } else {
                m.chunks[0].sequence_number == 0
            }
        },
        GelfMessageWrapper::Simple(_) => true,
    }
}

/// What the dispatcher decided for one dequeued wrapper.
pub enum DispatchOutcome {
    /// The chunk was filed in the reassembly table; nothing goes out yet.
    Stored,
    /// The message could not be rewritten and was dropped.
    Dropped(MassageError),
    /// Send the wrapper's packets to the selected backend; after all
    /// sends succeed, the forwarded-messages counter goes up when
    /// `counted` says so.
    Forward { backend_index: usize, packet: GelfMessageWrapper, counted: bool },
}

/// One turn of the dispatcher for one dequeued wrapper.
///
/// When massaging is required and the wrapper is a chunk, the table is
/// consulted first: a first chunk of an unseen id starts an entry, a
/// further chunk joins its entry, and only a completing chunk releases
/// the whole message to the rest of the pipeline. The backend is then
/// chosen — deterministically from the id for chunked messages,
/// round-robin for simple ones — the payload is massaged, and the
/// wrapper goes out with the counting verdict. Counters themselves do
/// not move here; the caller records the send result.
pub fn dispatch(
    state: &mut State,
    config: &Configuration,
    backends: &Vec<SockAddress>,
    packet: GelfMessageWrapper,
    now_seconds: i64,
    clock_nanos: u64,
) -> (r: DispatchOutcome)
    requires
        old(state).wf(),
        packet.wf(),
        1 <= backends@.len() <= 255,
        80 < config.chunk_size <= usize::MAX,
    ensures
        final(state).wf(),
        final(state).nr_of_forwarded_messages == old(state).nr_of_forwarded_messages,
        final(state).nr_of_handled_udp_packets == old(state).nr_of_handled_udp_packets,
        final(state).otf_massage_required == old(state).otf_massage_required,
        match r {
            DispatchOutcome::Stored => {
                &&& old(state).otf_massage_required
                &&& packet is Chunked
                &&& final(state).round_robin_cursor == old(state).round_robin_cursor
                &&& {
                    let m = packet->Chunked_0;
                    if old(state).chunked_messages.spec_has_entry(m.id) {
                        // a further chunk joined its entry and did not complete it
                        &&& final(state).chunked_messages.spec_has_entry(m.id)
                        &&& final(state).chunked_messages.spec_entry_for(m.id).chunks@ == old(state).chunked_messages.spec_entry_for(m.id).chunks@.push(m.chunks@[0])
                        &&& !final(state).chunked_messages.spec_entry_for(
                            m.id,
                        ).spec_is_complete()
                        &&& forall|o: u64|
                            o != m.id ==> #[trigger] final(state).chunked_messages.spec_has_entry(o) == old(state).chunked_messages.spec_has_entry(o)
                    } else {
                        // first chunk of an unseen id
                        &&& final(state).chunked_messages.entries@ == old(state).chunked_messages.entries@.push(m)
                    }
                }
            },
            DispatchOutcome::Dropped(e) => {
                &&& old(state).otf_massage_required
                &&& (packet is Simple ==> final(state).chunked_messages == old(
                    state,
                ).chunked_messages && match e {
                    MassageError::Decode(d) => spec_get_payload(packet) == Err::<
                        GelfMessageView,
                        DecodeError,
                    >(d),
                    MassageError::Encode(enc) => {
                        &&& enc == EncodeError::TooManyChunks
                        &&& spec_get_payload(packet) is Ok
                        &&& spec_rechunk_overflow(
                            spec_encode(
                                spec_massaged(
                                    spec_get_payload(packet).unwrap(),
                                    config,
                                    packet.spec_pkg_src().ip,
                                ),
                            ),
                            config.use_gzip == Some(true),
                            config.chunk_size,
                        )
                    },
                })
                &&& (packet is Chunked ==> {
                    let m = packet->Chunked_0;
                    &&& old(state).chunked_messages.spec_has_entry(m.id)
                    &&& !final(state).chunked_messages.spec_has_entry(m.id)
                    &&& forall|o: u64|
                        o != m.id ==> #[trigger] final(state).chunked_messages.spec_has_entry(o)
                            == old(state).chunked_messages.spec_has_entry(o)
                    &&& exists|staged: GelfMessageWrapper|
                        {
                            &&& staged is Chunked
                            &&& (#[trigger] staged->Chunked_0).id == m.id
                            &&& staged->Chunked_0.chunks@ == old(
                                state,
                            ).chunked_messages.spec_entry_for(m.id).chunks@.push(m.chunks@[0])
                            &&& match e {
                                MassageError::Decode(d) => spec_get_payload(staged) == Err::<
                                    GelfMessageView,
                                    DecodeError,
                                >(d),
                                MassageError::Encode(enc) => {
                                    &&& enc == EncodeError::TooManyChunks
                                    &&& spec_get_payload(staged) is Ok
                                    &&& spec_rechunk_overflow(
                                        spec_encode(
                                            spec_massaged(
                                                spec_get_payload(staged).unwrap(),
                                                config,
                                                staged.spec_pkg_src().ip,
                                            ),
                                        ),
                                        config.use_gzip == Some(true),
                                        config.chunk_size,
                                    )
                                },
                            }
                        }
                })
            },
            DispatchOutcome::Forward { backend_index, packet: out_packet, counted } => {
                &&& backend_index < backends@.len()
                &&& out_packet.wf()
                &&& counted == spec_counts_as_message(out_packet)
                &&& (packet is Chunked ==> backend_index == spec_backend_index(
                    backends@.len() as int,
                    packet->Chunked_0.id,
                ) && final(state).round_robin_cursor == old(state).round_robin_cursor)
                &&& (packet is Simple ==> backend_index as int == old(state).round_robin_cursor as int % (backends@.len() as int) && final(state).round_robin_cursor as int == (backend_index + 1) % (backends@.len() as int))
                &&& (!old(state).otf_massage_required ==> out_packet == packet && final(state).chunked_messages == old(state).chunked_messages)
                &&& (old(state).otf_massage_required && packet is Simple ==> spec_massage_ok(
                    packet,
                    out_packet,
                    config,
                    now_seconds,
                    clock_nanos,
                ) && final(state).chunked_messages == old(state).chunked_messages)
                &&& (old(state).otf_massage_required && packet is Chunked ==> {
                    let m = packet->Chunked_0;
                    let entry = old(state).chunked_messages.spec_entry_for(m.id);
                    &&& old(state).chunked_messages.spec_has_entry(m.id)
                    &&& !final(state).chunked_messages.spec_has_entry(m.id)
                    &&& forall|o: u64|
                        o != m.id ==> #[trigger] final(state).chunked_messages.spec_has_entry(o)
                            == old(state).chunked_messages.spec_has_entry(o)
                    &&& exists|staged: GelfMessageWrapper|
                        {
                            &&& staged is Chunked
                            &&& (#[trigger] staged->Chunked_0).id == m.id
                            &&& staged->Chunked_0.chunks@ == entry.chunks@.push(m.chunks@[0])
                            &&& staged->Chunked_0.arrival_time == entry.arrival_time
                            &&& staged->Chunked_0.expected_max_chunks == entry.expected_max_chunks
                            &&& spec_massage_ok(
                                staged,
                                out_packet,
                                config,
                                now_seconds,
                                clock_nanos,
                            )
                        }
                })
            },
        },
{
    let mut packet = packet;
    if state.otf_massage_required {
        if packet.is_chunked() {
            let completed: GelfChunkedMessage;
            match packet {
                GelfMessageWrapper::Chunked(chunked_pkg) => {
                    let id = chunked_pkg.id;
                    if state.chunked_messages.has_entry(id) {
                        let first: GelfPacket = first_chunk(chunked_pkg);
                        let complete = state.chunked_messages.append_chunk(id, first);
                        if !complete {
                            return DispatchOutcome::Stored;
                        }
                        completed = state.chunked_messages.remove(id);
                    } else {
                        state.chunked_messages.insert_first(chunked_pkg);
                        return DispatchOutcome::Stored;
                    }
                },
                GelfMessageWrapper::Simple(_) => {
                    proof {
                        assert(false);
                    }
                    return DispatchOutcome::Stored;
                },
            }
            packet = GelfMessageWrapper::Chunked(completed);
        }
    }
    let ghost staged = packet;
    let backend_index: usize;
    match &packet {
        GelfMessageWrapper::Chunked(m) => {
            backend_index = select_backend(backends, m.id);
        },
        GelfMessageWrapper::Simple(_) => {
            let idx = state.round_robin_cursor % backends.len();
            backend_index = idx;
            state.round_robin_cursor = (idx + 1) % backends.len();
        },
    }
    match massage(
        state.otf_massage_required,
        config,
        &mut packet,
        now_seconds,
        clock_nanos,
    ) {
        Ok(()) => (),
        Err(e) => {
            return DispatchOutcome::Dropped(e);
        },
    }
    let counted = counts_as_message(&packet);
    DispatchOutcome::Forward { backend_index, packet, counted }
}

/// Move the first chunk out of a message (the receiver hands the
/// dispatcher single-chunk messages).
fn first_chunk(m: GelfChunkedMessage) -> (r: GelfPacket)
    requires
        m.wf(),
    ensures
        r == m.chunks@[0],
{
    let mut mm = m;
    mm.chunks.remove(0)
}

} // verus!
