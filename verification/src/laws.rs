//! The balancer's cross-cutting guarantees, stated and proved once: chunk
//! affinity and selection determinism, the reassembly round trip of a
//! re-chunked payload, byte-identity of the pass-through path, the
//! allow-list rule, what eviction removes and keeps, and how mutation
//! treats a record's fields.

use vstd::prelude::*;

use crate::balancer::{spec_backend_index, spec_massage_ok, spec_massaged};
use crate::configuration::Configuration;
use crate::gelf::{
    frag_offset, lemma_be_bytes_roundtrip, lemma_fragments_concat, lemma_reassembled_is_concat,
    lemma_spec_packet_sizes_sum, spec_chunk_info, spec_chunk_packet, spec_packet_sizes,
    spec_u64_be_bytes, GelfChunkedMessage, GelfMessageWrapper,
};
use crate::mutate::{
    spec_blank_all, spec_blank_named, spec_blank_pair, spec_has_field, spec_masked_text,
    spec_source_addr_key, spec_strip_keep, spec_stripped,
};
use crate::net::{spec_source_allowed, IpAddress, SockAddress};
use crate::gzip::gunzip_of;
use crate::payload::{
    lemma_filter_element_of, spec_chunk_payload, spec_encode, spec_get_payload, spec_rechunk_ok,
    spec_reassembled_body, GelfMessageView, CHUNK_OVERHEAD, WIRE_OVERHEAD,
};
use crate::receiver::spec_classified;
use crate::table::spec_kept_after;

verus! {

/// Backend selection is deterministic and in range: the chosen index is
/// a pure function of the backend count and the message id alone, so
/// every chunk of one message — whatever its arrival order or the
/// traffic around it — lands on the same backend.
pub proof fn lemma_backend_selection_deterministic(n: int, id1: u64, id2: u64)
    requires
        1 <= n <= 255,
        id1 == id2,
    ensures
        spec_backend_index(n, id1) == spec_backend_index(n, id2),
        0 <= spec_backend_index(n, id1) < n,
{
    let segment = 255int / n;
    vstd::arithmetic::div_mod::lemma_div_is_ordered_by_denominator(255, n, 255);
    assert(segment >= 1);
    vstd::arithmetic::div_mod::lemma_div_pos_is_pos(id1 as int, segment);
}

/// Chunk affinity: two chunked messages that carry the same id are
/// routed to the same backend index.
pub proof fn lemma_chunk_affinity(n: int, w1: GelfMessageWrapper, w2: GelfMessageWrapper)
    requires
        1 <= n <= 255,
        w1 is Chunked,
        w2 is Chunked,
        w1->Chunked_0.id == w2->Chunked_0.id,
    ensures
        spec_backend_index(n, w1->Chunked_0.id) == spec_backend_index(n, w2->Chunked_0.id),
{
    lemma_backend_selection_deterministic(n, w1->Chunked_0.id, w2->Chunked_0.id);
}

/// Reassembly identity for a re-chunked payload: the chunks that
/// replacing a payload produces, reassembled by concatenation in
/// arrival order, give back the payload bytes exactly.
pub proof fn lemma_rechunk_reassembles(
    w_old: GelfMessageWrapper,
    w_new: GelfMessageWrapper,
    bytes: Seq<u8>,
    chunk_size: u64,
    clock_nanos: u64,
    now_seconds: i64,
)
    requires
        80 < chunk_size <= usize::MAX,
        bytes.len() <= usize::MAX,
        spec_rechunk_ok(w_old, w_new, bytes, chunk_size, clock_nanos, now_seconds),
        w_new is Chunked,
    ensures
        spec_reassembled_body(w_new->Chunked_0.chunks@) == bytes,
{
    let m = w_new->Chunked_0;
    let max = (chunk_size - CHUNK_OVERHEAD) as usize;
    let sizes = spec_packet_sizes(bytes.len() as usize, max);
    lemma_spec_packet_sizes_sum(bytes.len() as usize, max);
    let frags = Seq::new(
        sizes.len(),
        |i: int| bytes.subrange(frag_offset(sizes, i), frag_offset(sizes, i + 1)),
    );
    assert forall|i: int| 0 <= i < m.chunks@.len() implies frags[i] == spec_chunk_payload(
        #[trigger] m.chunks@[i],
    ) by {
        let id = m.id;
        let p = m.chunks@[i];
        assert(p.data@ == spec_chunk_packet(id, i as u8, sizes.len() as u8, frags[i]));
        assert(p.data@.len() >= 12);
        assert(p.data@.skip(12) =~= frags[i]);
    }
    lemma_reassembled_is_concat(m.chunks@, frags);
    lemma_fragments_concat(bytes, sizes);
}

/// Reassembly identity through the whole massage step: when a rewritten
/// message goes out chunked, concatenating its chunks' fragments in
/// arrival order gives back the body that was sent — the re-encoded
/// record itself, or, with compression on, a GZip stream that
/// decompresses to it.
pub proof fn lemma_massaged_chunks_reassemble(
    w_old: GelfMessageWrapper,
    w_new: GelfMessageWrapper,
    config: &Configuration,
    now_seconds: i64,
    clock_nanos: u64,
)
    requires
        80 < config.chunk_size <= usize::MAX,
        spec_massage_ok(w_old, w_new, config, now_seconds, clock_nanos),
        w_new is Chunked,
        spec_encode(
            spec_massaged(spec_get_payload(w_old).unwrap(), config, w_old.spec_pkg_src().ip),
        ).len() <= usize::MAX,
    ensures
        ({
            let out = spec_encode(
                spec_massaged(spec_get_payload(w_old).unwrap(), config, w_old.spec_pkg_src().ip),
            );
            if config.use_gzip == Some(true) {
                gunzip_of(spec_reassembled_body(w_new->Chunked_0.chunks@)) == Some(out)
            } else {
                spec_reassembled_body(w_new->Chunked_0.chunks@) == out
            }
        }),
{
    let out = spec_encode(
        spec_massaged(spec_get_payload(w_old).unwrap(), config, w_old.spec_pkg_src().ip),
    );
    if config.use_gzip == Some(true) {
        let z = choose|z: Seq<u8>|
            {
                &&& gunzip_of(z) == Some(out)
                &&& crate::payload::spec_is_gzipped(z)
                &&& z.len() <= usize::MAX
                &&& #[trigger] spec_rechunk_ok(
                    w_old,
                    w_new,
                    z,
                    config.chunk_size,
                    clock_nanos,
                    now_seconds,
                )
            };
        lemma_rechunk_reassembles(w_old, w_new, z, config.chunk_size, clock_nanos, now_seconds);
    } else {
        lemma_rechunk_reassembles(w_old, w_new, out, config.chunk_size, clock_nanos, now_seconds);
    }
}

/// Round trip of the pass-through path: a datagram the receiver accepts
/// becomes a wrapper holding exactly one packet whose bytes are the
/// datagram unchanged; without mutation the dispatcher forwards that
/// wrapper as it is, so the backend receives the input bytes.
pub proof fn lemma_round_trip_no_mutation(
    w: GelfMessageWrapper,
    data: Seq<u8>,
    src: SockAddress,
    now_seconds: i64,
)
    requires
        spec_classified(w, data, src, now_seconds),
    ensures
        crate::balancer::spec_wrapper_packets(w).len() == 1,
        crate::balancer::spec_wrapper_packets(w)[0].data@ == data,
{
}

/// The allow-list rule: with a non-empty allow-list, a source that is
/// not listed is not admitted — the receiver then hands nothing to the
/// dispatcher, so no packet of that datagram can reach a backend and
/// the forwarded-messages counter cannot move for it; the
/// handled-packets counter moves for every datagram regardless, as
/// `receiver_step` states.
pub proof fn lemma_allow_list(allowed: Seq<IpAddress>, src: IpAddress)
    requires
        allowed.len() > 0,
        !allowed.contains(src),
    ensures
        !spec_source_allowed(allowed, src),
{
}

/// What eviction removes and keeps: after dropping everything at or
/// before the threshold, no surviving entry is stale, every fresh entry
/// survives, and nothing new appears.
pub proof fn lemma_eviction(entries: Seq<GelfChunkedMessage>, threshold: i64)
    ensures
        forall|i: int|
            0 <= i < entries.filter(spec_kept_after(threshold)).len() ==> (#[trigger] entries.filter(
                spec_kept_after(threshold),
            )[i]).arrival_time > threshold,
        forall|i: int|
            0 <= i < entries.len() && (#[trigger] entries[i]).arrival_time > threshold
                ==> entries.filter(spec_kept_after(threshold)).contains(entries[i]),
        forall|i: int|
            0 <= i < entries.filter(spec_kept_after(threshold)).len() ==> entries.contains(
                #[trigger] entries.filter(spec_kept_after(threshold))[i],
            ),
{
    let pred = spec_kept_after(threshold);
    assert forall|i: int| 0 <= i < entries.filter(pred).len() implies (#[trigger] entries.filter(
        pred,
    )[i]).arrival_time > threshold by {
        entries.lemma_filter_pred(pred, i);
    }
    assert forall|i: int|
        0 <= i < entries.len() && (#[trigger] entries[i]).arrival_time > threshold implies entries
        .filter(pred).contains(entries[i]) by {
        entries.lemma_filter_contains(pred, i);
    }
    assert forall|i: int| 0 <= i < entries.filter(pred).len() implies entries.contains(
        #[trigger] entries.filter(pred)[i],
    ) by {
        lemma_filter_element_of(entries, pred, i);
        let j = choose|j: int| 0 <= j < entries.len() && entries[j] == entries.filter(pred)[i];
        assert(entries[j] == entries.filter(pred)[i]);
    }
}

/// Blanking never renames, adds or removes a field.
pub proof fn lemma_blank_keeps_names(fs: Seq<(Seq<u8>, Seq<u8>)>, blank: Seq<String>)
    ensures
        spec_blank_all(fs, blank).len() == fs.len(),
        forall|i: int|
            0 <= i < fs.len() ==> (#[trigger] spec_blank_all(fs, blank)[i]).0 == fs[i].0,
    decreases blank.len(),
{
    if blank.len() > 0 {
        lemma_blank_keeps_names(fs, blank.drop_last());
    }
}

/// Round trip of mutation at the field level: after the configured
/// rewrites the record keeps its named fields byte for byte, every
/// surviving additional-field name comes from the input record or is
/// the source-address key, every input name survives unless the strip
/// list names it, and when source-info attachment is on and the strip
/// list does not name the source-address key, that key is present in
/// the result. Optional fields that are absent stay absent: the
/// rewrites do not touch them at all.
pub proof fn lemma_mutation_fields(m: GelfMessageView, config: &Configuration, src: IpAddress)
    ensures
        spec_massaged(m, config, src).version == m.version,
        spec_massaged(m, config, src).host == m.host,
        spec_massaged(m, config, src).short_message == m.short_message,
        spec_massaged(m, config, src).full_message == m.full_message,
        spec_massaged(m, config, src).timestamp == m.timestamp,
        spec_massaged(m, config, src).level == m.level,
        spec_massaged(m, config, src).facility == m.facility,
        spec_massaged(m, config, src).file == m.file,
        spec_massaged(m, config, src).line == m.line,
        forall|i: int|
            0 <= i < spec_massaged(m, config, src).additional_fields.len() ==> spec_has_field(
                m.additional_fields,
                (#[trigger] spec_massaged(m, config, src).additional_fields[i]).0,
            ) || spec_massaged(m, config, src).additional_fields[i].0 == spec_source_addr_key(),
        forall|i: int|
            0 <= i < m.additional_fields.len() && !spec_stripped(
                config.strip_fields@,
                (#[trigger] m.additional_fields[i]).0,
            ) ==> spec_has_field(
                spec_massaged(m, config, src).additional_fields,
                m.additional_fields[i].0,
            ),
        config.attach_source_info && !spec_stripped(config.strip_fields@, spec_source_addr_key())
            ==> spec_has_field(
            spec_massaged(m, config, src).additional_fields,
            spec_source_addr_key(),
        ),
{
    let fs0 = m.additional_fields;
    let fs1 = if config.attach_source_info {
        if spec_has_field(fs0, spec_source_addr_key()) {
            fs0
        } else {
            fs0.push((spec_source_addr_key(), seq![0x22u8] + crate::net::spec_ip_text(src) + seq![0x22u8]))
        }
    } else {
        fs0
    };
    let fs2 = if config.strip_fields@.len() > 0 {
        fs1.filter(spec_strip_keep(config.strip_fields@))
    } else {
        fs1
    };
    let fs3 = spec_blank_all(fs2, config.blank_fields@);
    lemma_blank_keeps_names(fs2, config.blank_fields@);
    // every name in fs1 is an input name or the source key
    assert forall|i: int| 0 <= i < fs1.len() implies spec_has_field(fs0, (#[trigger] fs1[i]).0)
        || fs1[i].0 == spec_source_addr_key() by {
        if i < fs0.len() {
            assert(fs0[i].0 == fs1[i].0);
        }
    }
    // every name in fs2 is a name in fs1
    assert forall|i: int| 0 <= i < fs2.len() implies spec_has_field(fs1, (#[trigger] fs2[i]).0) by {
        if config.strip_fields@.len() > 0 {
            lemma_filter_element_of(fs1, spec_strip_keep(config.strip_fields@), i);
            let j = choose|j: int| 0 <= j < fs1.len() && fs1[j] == fs2[i];
            assert(fs1[j].0 == fs2[i].0);
        }
    }
    assert forall|i: int| 0 <= i < fs3.len() implies spec_has_field(
        m.additional_fields,
        (#[trigger] fs3[i]).0,
    ) || fs3[i].0 == spec_source_addr_key() by {
        assert(fs3[i].0 == fs2[i].0);
        assert(spec_has_field(fs1, fs2[i].0) || fs2[i].0 == spec_source_addr_key());
        if spec_has_field(fs1, fs2[i].0) {
            let j = choose|j: int| 0 <= j < fs1.len() && (#[trigger] fs1[j]).0 == fs2[i].0;
            assert(spec_has_field(fs0, fs1[j].0) || fs1[j].0 == spec_source_addr_key());
        }
    }
    // survival of unstripped input names
    assert forall|i: int|
        0 <= i < m.additional_fields.len() && !spec_stripped(
            config.strip_fields@,
            (#[trigger] m.additional_fields[i]).0,
        ) implies spec_has_field(fs3, m.additional_fields[i].0) by {
        assert(fs1[i] == fs0[i]);
        if config.strip_fields@.len() > 0 {
            assert(spec_strip_keep(config.strip_fields@)(fs1[i]) == !spec_stripped(
                config.strip_fields@,
                fs1[i].0,
            ));
            fs1.lemma_filter_contains(spec_strip_keep(config.strip_fields@), i);
            let j = choose|j: int| 0 <= j < fs2.len() && fs2[j] == fs1[i];
            assert(fs3[j].0 == fs2[j].0);
        } else {
            assert(fs3[i].0 == fs2[i].0);
        }
    }
    // the attached source key survives an unmatching strip list
    if config.attach_source_info && !spec_stripped(config.strip_fields@, spec_source_addr_key()) {
        let k: int;
        if spec_has_field(fs0, spec_source_addr_key()) {
            k = choose|k: int| 0 <= k < fs0.len() && (#[trigger] fs0[k]).0 == spec_source_addr_key();
            assert(fs1[k].0 == spec_source_addr_key());
        } else {
            k = fs0.len() as int;
            assert(fs1[k].0 == spec_source_addr_key());
        }
        if config.strip_fields@.len() > 0 {
            assert(spec_strip_keep(config.strip_fields@)(fs1[k]) == !spec_stripped(
                config.strip_fields@,
                fs1[k].0,
            ));
            fs1.lemma_filter_contains(spec_strip_keep(config.strip_fields@), k);
            let j = choose|j: int| 0 <= j < fs2.len() && fs2[j] == fs1[k];
            assert(fs3[j].0 == fs2[j].0);
        } else {
            assert(fs3[k].0 == fs2[k].0);
        }
    }
}


/// What blanking does to one field, exactly: a field whose name the
/// blank list carries and whose value is a string ends up masked; every
/// other field is untouched, however many passes run.
pub proof fn lemma_blank_all_at(fs: Seq<(Seq<u8>, Seq<u8>)>, blank: Seq<String>, j: int)
    requires
        0 <= j < fs.len(),
    ensures
        spec_blank_all(fs, blank)[j] == (if spec_blank_named(blank, fs[j].0)
            && crate::payload::spec_is_string_text(fs[j].1) {
            (fs[j].0, spec_masked_text())
        } else {
            fs[j]
        }),
    decreases blank.len(),
{
    if blank.len() == 0 {
        assert(!spec_blank_named(blank, fs[j].0));
    } else {
        let pre = blank.drop_last();
        lemma_blank_all_at(fs, pre, j);
        lemma_blank_keeps_names(fs, pre);
        let prev = spec_blank_all(fs, pre);
        let cur = spec_blank_all(fs, blank);
        assert(cur[j] == spec_blank_pair(prev[j], blank.last()@));
        assert(spec_masked_text()[0] == 0x22);
        if spec_blank_named(blank, fs[j].0) {
            let b = choose|b: int|
                0 <= b < blank.len() && fs[j].0 == seq![0x5fu8] + vstd::utf8::encode_utf8(
                    (#[trigger] blank[b])@,
                );
            if b < pre.len() {
                assert(pre[b] == blank[b]);
                assert(spec_blank_named(pre, fs[j].0));
            }
        }
        if spec_blank_named(pre, fs[j].0) {
            let b = choose|b: int|
                0 <= b < pre.len() && fs[j].0 == seq![0x5fu8] + vstd::utf8::encode_utf8(
                    (#[trigger] pre[b])@,
                );
            assert(blank[b] == pre[b]);
            assert(spec_blank_named(blank, fs[j].0));
        }
        if fs[j].0 == seq![0x5fu8] + vstd::utf8::encode_utf8(blank.last()@) {
            assert(spec_blank_named(blank, fs[j].0));
        }
    }
}

/// Mutation changes no value it was not asked to change, and masks
/// exactly what it was asked to mask: an input field the strip list does
/// not name survives — with its original value, unless the blank list
/// names it and its value is a string, in which case its value is the
/// mask and nothing else.
pub proof fn lemma_mutation_values(m: GelfMessageView, config: &Configuration, src: IpAddress)
    ensures
        forall|i: int|
            0 <= i < m.additional_fields.len() && !spec_stripped(
                config.strip_fields@,
                (#[trigger] m.additional_fields[i]).0,
            ) ==> spec_massaged(m, config, src).additional_fields.contains(
                (if spec_blank_named(config.blank_fields@, m.additional_fields[i].0)
                    && crate::payload::spec_is_string_text(m.additional_fields[i].1) {
                    (m.additional_fields[i].0, spec_masked_text())
                } else {
                    m.additional_fields[i]
                }),
            ),
{
    let fs0 = m.additional_fields;
    let fs1 = if config.attach_source_info {
        if spec_has_field(fs0, spec_source_addr_key()) {
            fs0
        } else {
            fs0.push(
                (spec_source_addr_key(), seq![0x22u8] + crate::net::spec_ip_text(src)
                    + seq![0x22u8]),
            )
        }
    } else {
        fs0
    };
    let fs2 = if config.strip_fields@.len() > 0 {
        fs1.filter(spec_strip_keep(config.strip_fields@))
    } else {
        fs1
    };
    let fs3 = spec_blank_all(fs2, config.blank_fields@);
    lemma_blank_keeps_names(fs2, config.blank_fields@);
    assert forall|i: int|
        0 <= i < m.additional_fields.len() && !spec_stripped(
            config.strip_fields@,
            (#[trigger] m.additional_fields[i]).0,
        ) implies fs3.contains(
        (if spec_blank_named(config.blank_fields@, m.additional_fields[i].0)
            && crate::payload::spec_is_string_text(m.additional_fields[i].1) {
            (m.additional_fields[i].0, spec_masked_text())
        } else {
            m.additional_fields[i]
        }),
    ) by {
        let p = m.additional_fields[i];
        assert(fs1[i] == p);
        let j: int = if config.strip_fields@.len() > 0 {
            choose|j: int| 0 <= j < fs2.len() && fs2[j] == p
        } else {
            i
        };
        if config.strip_fields@.len() > 0 {
            assert(spec_strip_keep(config.strip_fields@)(fs1[i]) == !spec_stripped(
                config.strip_fields@,
                fs1[i].0,
            ));
            fs1.lemma_filter_contains(spec_strip_keep(config.strip_fields@), i);
            assert(0 <= j < fs2.len() && fs2[j] == p);
        }
        assert(fs2[j] == p);
        lemma_blank_all_at(fs2, config.blank_fields@, j);
        assert(fs3[j] == (if spec_blank_named(config.blank_fields@, p.0)
            && crate::payload::spec_is_string_text(p.1) {
            (p.0, spec_masked_text())
        } else {
            p
        }));
    }
}


/// An emitted chunk header reads back as it was written: parsing the
/// wire bytes of an outbound chunk yields the id, sequence number and
/// total count that went in.
pub proof fn lemma_chunk_header_parses(id: u64, seq_no: u8, total: u8, fragment: Seq<u8>)
    ensures
        spec_chunk_info(spec_chunk_packet(id, seq_no, total, fragment)) == (id, seq_no, total),
{
    let d = spec_chunk_packet(id, seq_no, total, fragment);
    assert(d.len() >= 12);
    assert(d[0] == 0x1e && d[1] == 0x0f);
    assert(d.subrange(2, 10) =~= spec_u64_be_bytes(id));
    lemma_be_bytes_roundtrip(id);
    assert(d[10] == seq_no && d[11] == total);
}

} // verus!
