//! The GELF chunk codec: chunk-header parsing and emission.
//!
//! A chunked GELF datagram starts with the magic bytes 0x1E 0x0F, followed
//! by an 8-byte big-endian message id, a one-byte sequence number and a
//! one-byte total chunk count; the payload fragment follows that 12-byte
//! header.

use vstd::prelude::*;

use crate::net::SockAddress;

verus! {

pub const GELF_MAGIC_0: u8 = 0x1e;

pub const GELF_MAGIC_1: u8 = 0x0f;

/// Length of the GELF chunk header: 2 magic bytes, 8 id bytes, sequence,
/// total.
pub const CHUNK_HEADER_LEN: usize = 12;

/// The big-endian value of a byte sequence.
pub open spec fn be_value(b: Seq<u8>) -> nat
    decreases b.len(),
{
    if b.len() == 0 {
        0
    } else {
        be_value(b.drop_last()) * 256 + b.last() as nat
    }
}

/// 256 to the power of `n`.
pub open spec fn pow256(n: nat) -> nat
    decreases n,
{
    if n == 0 {
        1
    } else {
        256 * pow256((n - 1) as nat)
    }
}

/// `n` bytes can hold no value of `pow256(n)` or above.
pub proof fn lemma_be_value_bound(b: Seq<u8>)
    ensures
        be_value(b) < pow256(b.len()),
    decreases b.len(),
{
    if b.len() == 0 {
    } else {
        lemma_be_value_bound(b.drop_last());
    }
}

/// A datagram is treated as chunked when it starts with the two magic
/// bytes and is at least 5 bytes long. The length floor is deliberately
/// lax: a datagram of 5 to 11 bytes that starts with the magic still
/// counts as chunked even though no full header can be read from it, in
/// which case the header fields read as zero.
pub open spec fn spec_is_chunk_datagram(d: Seq<u8>) -> bool {
    d.len() >= 5 && d[0] == GELF_MAGIC_0 && d[1] == GELF_MAGIC_1
}

/// The `(message_id, sequence_number, total_chunks)` triple read from a
/// datagram: the header fields when the magic matches and a full 12-byte
/// header is present, and zeroes otherwise.
pub open spec fn spec_chunk_info(d: Seq<u8>) -> (u64, u8, u8) {
    if d.len() >= 12 && d[0] == GELF_MAGIC_0 && d[1] == GELF_MAGIC_1 {
        (be_value(d.subrange(2, 10)) as u64, d[10], d[11])
    } else {
        (0u64, 0u8, 0u8)
    }
}

/// Read the bytes `data[start..end]` as one big-endian unsigned integer.
pub fn be_u64_of_slice(data: &[u8], start: usize, end: usize) -> (r: u64)
    requires
        start <= end <= data@.len(),
        end - start <= 8,
    ensures
        r == be_value(data@.subrange(start as int, end as int)),
{
    let ghost d = data@;
    let mut acc: u64 = 0;
    let mut i: usize = start;
    while i < end
        invariant
            start <= i <= end <= d.len(),
            end - start <= 8,
            d == data@,
            acc == be_value(d.subrange(start as int, i as int)),
        decreases end - i,
    {
        proof {
            lemma_be_value_bound(d.subrange(start as int, i as int));
            lemma_pow256_monotone((i - start) as nat, 7);
            reveal_with_fuel(pow256, 9);
            assert(d.subrange(start as int, i + 1 as int).drop_last() =~= d.subrange(
                start as int,
                i as int,
            ));
        }
        acc = acc * 256 + (data[i] as u64);
        i = i + 1;
    }
    acc
}

/// Parse a datagram's chunk header, returning message id, sequence number
/// and total chunk count, or all zeroes when the datagram does not carry a
/// full chunk header.
pub fn parse_chunk_info(data: &[u8]) -> (r: (u64, u8, u8))
    ensures
        r == spec_chunk_info(data@),
{
    if data.len() >= 12 && data[0] == GELF_MAGIC_0 && data[1] == GELF_MAGIC_1 {
        let id = be_u64_of_slice(data, 2, 10);
        (id, data[10], data[11])
    } else {
        (0u64, 0u8, 0u8)
    }
}

pub proof fn lemma_pow256_monotone(a: nat, b: nat)
    requires
        a <= b,
    ensures
        pow256(a) <= pow256(b),
    decreases b,
{
    if a < b {
        lemma_pow256_monotone(a, (b - 1) as nat);
        assert(pow256(b) == 256 * pow256((b - 1) as nat));
    }
}

/// The eight bytes of `x`, most significant first.
pub open spec fn spec_u64_be_bytes(x: u64) -> Seq<u8> {
    Seq::new(8, |i: int| ((x as nat / pow256((7 - i) as nat)) % 256) as u8)
}

/// Emit `x` as eight big-endian bytes.
pub fn u64_be_bytes(x: u64) -> (r: Vec<u8>)
    ensures
        r@ == spec_u64_be_bytes(x),
{
    let mut r: Vec<u8> = Vec::new();
    r.push((x / 0x100000000000000 % 256) as u8);
    r.push((x / 0x1000000000000 % 256) as u8);
    r.push((x / 0x10000000000 % 256) as u8);
    r.push((x / 0x100000000 % 256) as u8);
    r.push((x / 0x1000000 % 256) as u8);
    r.push((x / 0x10000 % 256) as u8);
    r.push((x / 0x100 % 256) as u8);
    r.push((x % 256) as u8);
    proof {
        assert forall|i: int| 0 <= i < 8 implies r@[i] == spec_u64_be_bytes(x)[i] by {
            reveal_with_fuel(pow256, 9);
            if i == 0 {
                assert(pow256(7) == 0x100000000000000);
            } else if i == 1 {
                assert(pow256(6) == 0x1000000000000);
            } else if i == 2 {
                assert(pow256(5) == 0x10000000000);
            } else if i == 3 {
                assert(pow256(4) == 0x100000000);
            } else if i == 4 {
                assert(pow256(3) == 0x1000000);
            } else if i == 5 {
                assert(pow256(2) == 0x10000);
            } else if i == 6 {
                assert(pow256(1) == 0x100);
            } else {
                assert(pow256(0) == 1);
            }
        }
        assert(r@ =~= spec_u64_be_bytes(x));
    }
    r
}

/// The big-endian bytes of a 64-bit value read back as a 64-bit value give
/// the value itself.
pub proof fn lemma_be_bytes_roundtrip(x: u64)
    ensures
        be_value(spec_u64_be_bytes(x)) == x,
{
    lemma_be_bytes_roundtrip_aux(x, 8);
    assert(spec_u64_be_bytes(x).subrange(0, 8) =~= spec_u64_be_bytes(x));
    reveal_with_fuel(pow256, 1);
    assert(pow256(0) == 1);
    assert(x as nat / 1 == x as nat) by (nonlinear_arith);
}

proof fn lemma_be_bytes_roundtrip_aux(x: u64, k: int)
    requires
        0 <= k <= 8,
    ensures
        be_value(spec_u64_be_bytes(x).subrange(0, k)) == x as nat / pow256((8 - k) as nat),
    decreases k,
{
    if k == 0 {
        reveal_with_fuel(pow256, 9);
        lemma_be_value_bound(spec_u64_be_bytes(x));
        vstd::arithmetic::div_mod::lemma_basic_div(x as int, pow256(8) as int);
    } else {
        lemma_be_bytes_roundtrip_aux(x, k - 1);
        let s = spec_u64_be_bytes(x);
        let p = pow256((8 - k) as nat);
        lemma_pow256_monotone(0, (8 - k) as nat);
        assert(p >= 1);
        assert(s.subrange(0, k).drop_last() =~= s.subrange(0, k - 1));
        assert(s.subrange(0, k).last() == s[k - 1]);
        assert(s[k - 1] == ((x as nat / p) % 256) as u8);
        assert(pow256((8 - (k - 1)) as nat) == 256 * p);
        // x / (256 * p) * 256 + (x / p) % 256 == x / p
        let y = x as nat / p;
        vstd::arithmetic::div_mod::lemma_div_denominator(x as int, 256, p as int);
        assert(x as nat / (256 * p) == y / 256) by {
            vstd::arithmetic::div_mod::lemma_div_denominator(x as int, p as int, 256);
            assert(p * 256 == 256 * p) by (nonlinear_arith);
        }
        vstd::arithmetic::div_mod::lemma_fundamental_div_mod(y as int, 256);
        assert(be_value(s.subrange(0, k)) == (y / 256) * 256 + y % 256);
        assert((y / 256) * 256 + y % 256 == y) by (nonlinear_arith);
    }
}

/// Sum of a sequence of fragment sizes.
pub open spec fn sum_sizes(s: Seq<usize>) -> int
    decreases s.len(),
{
    if s.len() == 0 {
        0
    } else {
        sum_sizes(s.drop_last()) + s.last()
    }
}

pub proof fn lemma_sum_sizes_nonneg(s: Seq<usize>)
    ensures
        sum_sizes(s) >= 0,
    decreases s.len(),
{
    if s.len() > 0 {
        lemma_sum_sizes_nonneg(s.drop_last());
    }
}

/// The byte offset at which fragment `i` starts when a payload is split
/// into fragments of the given sizes.
pub open spec fn frag_offset(sizes: Seq<usize>, i: int) -> int {
    sum_sizes(sizes.subrange(0, i))
}

pub proof fn lemma_frag_offset_step(sizes: Seq<usize>, i: int)
    requires
        0 <= i < sizes.len(),
    ensures
        frag_offset(sizes, i + 1) == frag_offset(sizes, i) + sizes[i],
{
    assert(sizes.subrange(0, i + 1).drop_last() =~= sizes.subrange(0, i));
}

pub proof fn lemma_sum_sizes_prefix(s: Seq<usize>, k: int)
    requires
        0 <= k <= s.len(),
    ensures
        sum_sizes(s.subrange(0, k)) <= sum_sizes(s),
    decreases s.len(),
{
    if k == s.len() {
        assert(s.subrange(0, k) =~= s);
    } else {
        assert(s.subrange(0, k) =~= s.drop_last().subrange(0, k));
        lemma_sum_sizes_prefix(s.drop_last(), k);
    }
}

/// The fragment sizes used to split a payload of `total_size` bytes into
/// packets of at most `max_packet_size` bytes: full fragments of the
/// maximum size, then the remainder if any.
pub open spec fn spec_packet_sizes(total_size: usize, max_packet_size: usize) -> Seq<usize>
    recommends
        max_packet_size >= 1,
{
    let full = total_size as int / max_packet_size as int;
    let rem = total_size as int % max_packet_size as int;
    let fulls = Seq::new(full as nat, |i: int| max_packet_size);
    if rem > 0 {
        fulls.push(rem as usize)
    } else {
        fulls
    }
}

pub proof fn lemma_sum_of_constant_sizes(n: int, m: usize)
    requires
        n >= 0,
    ensures
        sum_sizes(Seq::new(n as nat, |i: int| m)) == n * m,
    decreases n,
{
    if n == 0 {
    } else {
        let s = Seq::new(n as nat, |i: int| m);
        assert(s.drop_last() =~= Seq::new((n - 1) as nat, |i: int| m));
        lemma_sum_of_constant_sizes(n - 1, m);
        assert((n - 1) * m + m == n * m) by (nonlinear_arith);
    }
}

/// Split a total size into per-packet fragment sizes: as many full
/// fragments of `max_packet_size` bytes as fit, then the remainder if it
/// is not zero. Returns the number of fragments together with the sizes.
pub fn calculate_packet_sizes(total_size: usize, max_packet_size: usize) -> (r: (usize, Vec<usize>))
    requires
        max_packet_size >= 1,
    ensures
        r.1@ == spec_packet_sizes(total_size, max_packet_size),
        r.0 == r.1@.len(),
        sum_sizes(r.1@) == total_size,
        forall|i: int| 0 <= i < r.1@.len() ==> 1 <= #[trigger] r.1@[i] <= max_packet_size,
{
    let number_of_full_packets = total_size / max_packet_size;
    let remaining_bytes = total_size % max_packet_size;
    proof {
        vstd::arithmetic::div_mod::lemma_fundamental_div_mod(
            total_size as int,
            max_packet_size as int,
        );
        vstd::arithmetic::div_mod::lemma_remainder_lower(total_size as int, max_packet_size as int);
        assert(number_of_full_packets <= number_of_full_packets * max_packet_size)
            by (nonlinear_arith)
            requires
                max_packet_size >= 1,
                number_of_full_packets >= 0,
        ;
    }
    let number_of_packets = if remaining_bytes > 0 {
        number_of_full_packets + 1
    } else {
        number_of_full_packets
    };
    let mut packet_sizes: Vec<usize> = Vec::new();
    let ghost fulls = Seq::new(number_of_full_packets as nat, |i: int| max_packet_size);
    for i in 0..number_of_full_packets
        invariant
            packet_sizes@ =~= fulls.subrange(0, i as int),
            fulls == Seq::new(number_of_full_packets as nat, |j: int| max_packet_size),
    {
        packet_sizes.push(max_packet_size);
        proof {
            assert(packet_sizes@ =~= fulls.subrange(0, i + 1));
        }
    }
    proof {
        assert(packet_sizes@ =~= fulls);
        lemma_sum_of_constant_sizes(number_of_full_packets as int, max_packet_size);
    }
    if remaining_bytes > 0 {
        packet_sizes.push(remaining_bytes);
        proof {
            assert(packet_sizes@.drop_last() =~= fulls);
        }
    }
    proof {
        assert(packet_sizes@ =~= spec_packet_sizes(total_size, max_packet_size));
    }
    (number_of_packets, packet_sizes)
}

/// The wire bytes of one outbound chunk: magic, id, sequence number, total
/// count, then the payload fragment.
pub open spec fn spec_chunk_packet(id: u64, seq_no: u8, total: u8, fragment: Seq<u8>) -> Seq<u8> {
    seq![GELF_MAGIC_0, GELF_MAGIC_1] + spec_u64_be_bytes(id) + seq![seq_no, total] + fragment
}

/// Build the wire bytes of each outbound chunk of a payload: fragment `i`
/// is the payload slice `[frag_offset(i), frag_offset(i + 1))`, prefixed
/// with a 12-byte chunk header carrying `id`, the 0-based fragment index
/// and the total fragment count.
pub fn create_packets(data: &[u8], packet_sizes: &Vec<usize>, id: u64) -> (r: Vec<Vec<u8>>)
    requires
        sum_sizes(packet_sizes@) == data@.len(),
        packet_sizes@.len() <= 255,
    ensures
        r@.len() == packet_sizes@.len(),
        forall|i: int|
            0 <= i < r@.len() ==> #[trigger] r@[i]@ == spec_chunk_packet(
                id,
                i as u8,
                packet_sizes@.len() as u8,
                data@.subrange(frag_offset(packet_sizes@, i), frag_offset(packet_sizes@, i + 1)),
            ),
{
    let id_bytes = u64_be_bytes(id);
    let data_len = data.len();
    let n = packet_sizes.len();
    let total = n as u8;
    let mut packets: Vec<Vec<u8>> = Vec::new();
    let mut start: usize = 0;
    proof {
        assert(packet_sizes@.subrange(0, 0) =~= Seq::<usize>::empty());
    }
    for index in 0..n
        invariant
            n == packet_sizes@.len() <= 255,
            data_len == data@.len(),
            sum_sizes(packet_sizes@) == data@.len(),
            id_bytes@ == spec_u64_be_bytes(id),
            total == n as u8,
            start == frag_offset(packet_sizes@, index as int),
            0 <= start <= data@.len(),
            packets@.len() == index,
            forall|i: int|
                0 <= i < index ==> #[trigger] packets@[i]@ == spec_chunk_packet(
                    id,
                    i as u8,
                    packet_sizes@.len() as u8,
                    data@.subrange(
                        frag_offset(packet_sizes@, i),
                        frag_offset(packet_sizes@, i + 1),
                    ),
                ),
    {
        let size = packet_sizes[index];
        proof {
            lemma_frag_offset_step(packet_sizes@, index as int);
            lemma_sum_sizes_prefix(packet_sizes@, index + 1);
        }
        let end = start + size;
        let mut packet: Vec<u8> = Vec::new();
        packet.push(GELF_MAGIC_0);
        packet.push(GELF_MAGIC_1);
        packet.extend_from_slice(id_bytes.as_slice());
        packet.push(index as u8);
        packet.push(total);
        packet.extend_from_slice(&data[start..end]);
        proof {
            assert(packet@ =~= spec_chunk_packet(
                id,
                index as u8,
                packet_sizes@.len() as u8,
                data@.subrange(
                    frag_offset(packet_sizes@, index as int),
                    frag_offset(packet_sizes@, index + 1),
                ),
            ));
        }
        packets.push(packet);
        start = end;
    }
    packets
}

/// Concatenation of byte-sequence parts, in order.
pub open spec fn concat_bytes(parts: Seq<Seq<u8>>) -> Seq<u8>
    decreases parts.len(),
{
    if parts.len() == 0 {
        Seq::empty()
    } else {
        concat_bytes(parts.drop_last()) + parts.last()
    }
}

/// Splitting a payload at the fragment offsets and concatenating the
/// fragments again gives back the payload.
pub proof fn lemma_fragments_concat(data: Seq<u8>, sizes: Seq<usize>)
    requires
        sum_sizes(sizes) == data.len(),
    ensures
        concat_bytes(
            Seq::new(
                sizes.len(),
                |i: int| data.subrange(frag_offset(sizes, i), frag_offset(sizes, i + 1)),
            ),
        ) == data,
    decreases sizes.len(),
{
    let frags = Seq::new(
        sizes.len(),
        |i: int| data.subrange(frag_offset(sizes, i), frag_offset(sizes, i + 1)),
    );
    if sizes.len() == 0 {
        assert(frags =~= Seq::<Seq<u8>>::empty());
        assert(concat_bytes(frags) =~= data);
    } else {
        let m = sizes.len() - 1;
        let sizes2 = sizes.drop_last();
        assert(sizes.subrange(0, m) =~= sizes2);
        lemma_sum_sizes_nonneg(sizes2);
        let cut = frag_offset(sizes, m);
        assert(cut == sum_sizes(sizes2));
        assert(sum_sizes(sizes) == cut + sizes.last());
        let data2 = data.subrange(0, cut);
        let frags2 = Seq::new(
            sizes2.len(),
            |i: int| data2.subrange(frag_offset(sizes2, i), frag_offset(sizes2, i + 1)),
        );
        lemma_fragments_concat(data2, sizes2);
        assert forall|i: int| 0 <= i < m implies frags[i] == frags2[i] by {
            assert(sizes.subrange(0, i) =~= sizes2.subrange(0, i));
            assert(sizes.subrange(0, i + 1) =~= sizes2.subrange(0, i + 1));
            lemma_sum_sizes_prefix(sizes2, i + 1);
            lemma_frag_offset_step(sizes2, i);
            lemma_sum_sizes_nonneg(sizes2.subrange(0, i));
            assert(data2.subrange(frag_offset(sizes2, i), frag_offset(sizes2, i + 1))
                =~= data.subrange(frag_offset(sizes, i), frag_offset(sizes, i + 1)));
        }
        assert(frags.drop_last() =~= frags2);
        assert(sizes.subrange(0, m + 1) =~= sizes);
        assert(frags.last() == data.subrange(cut, data.len() as int));
        assert(concat_bytes(frags) == data2 + data.subrange(cut, data.len() as int));
        assert(data2 + data.subrange(cut, data.len() as int) =~= data);
    }
}

/// The fragment sizes of a payload sum to the payload's length.
pub proof fn lemma_spec_packet_sizes_sum(total_size: usize, max_packet_size: usize)
    requires
        max_packet_size >= 1,
    ensures
        sum_sizes(spec_packet_sizes(total_size, max_packet_size)) == total_size,
{
    let full = total_size as int / max_packet_size as int;
    let rem = total_size as int % max_packet_size as int;
    vstd::arithmetic::div_mod::lemma_fundamental_div_mod(total_size as int, max_packet_size as int);
    vstd::arithmetic::div_mod::lemma_remainder_lower(total_size as int, max_packet_size as int);
    let fulls = Seq::new(full as nat, |i: int| max_packet_size);
    lemma_sum_of_constant_sizes(full, max_packet_size);
    if rem > 0 {
        assert(spec_packet_sizes(total_size, max_packet_size) == fulls.push(rem as usize));
        assert(fulls.push(rem as usize).drop_last() =~= fulls);
    }
}

/// Concatenating each chunk's payload fragment, in order, gives back the
/// reassembled body byte for byte.
pub proof fn lemma_reassembled_is_concat(chunks: Seq<GelfPacket>, parts: Seq<Seq<u8>>)
    requires
        parts.len() == chunks.len(),
        forall|i: int| 0 <= i < chunks.len() ==> parts[i] == crate::payload::spec_chunk_payload(
            #[trigger] chunks[i],
        ),
    ensures
        crate::payload::spec_reassembled_body(chunks) == concat_bytes(parts),
    decreases chunks.len(),
{
    if chunks.len() > 0 {
        lemma_reassembled_is_concat(chunks.drop_last(), parts.drop_last());
    } else {
        assert(crate::payload::spec_reassembled_body(chunks) =~= concat_bytes(parts));
    }
}

/// The five bytes of an outbound message id that are taken from the clock,
/// least significant clock byte first.
pub open spec fn spec_message_id_clock_bytes(nanos: u64) -> Seq<u8> {
    seq![
        (nanos & 0xff) as u8,
        ((nanos >> 8) & 0xff) as u8,
        ((nanos >> 16) & 0xff) as u8,
        ((nanos >> 24) & 0xff) as u8,
        ((nanos >> 32) & 0xff) as u8,
    ]
}

/// An outbound message id as a big-endian byte sequence: the ASCII letters
/// 'G', 'L', 'B' followed by the five low clock bytes.
pub open spec fn spec_message_id_bytes(nanos: u64) -> Seq<u8> {
    seq![0x47u8, 0x4cu8, 0x42u8] + spec_message_id_clock_bytes(nanos)
}

pub open spec fn spec_generate_message_id(nanos: u64) -> u64 {
    be_value(spec_message_id_bytes(nanos)) as u64
}

/// Derive a fresh message id for an outbound chunk series from the current
/// wall-clock nanosecond counter, which the caller supplies. The first
/// three bytes are the ASCII letters 'G', 'L', 'B'; the last five are the
/// low 40 bits of the counter, least significant byte first. The scheme is
/// deliberately low-entropy and must not be relied on for uniqueness
/// beyond the reassembly window of a single host.
pub fn generate_message_id(nanos: u64) -> (r: u64)
    ensures
        r == spec_generate_message_id(nanos),
{
    let mut bytes: Vec<u8> = Vec::new();
    bytes.push(0x47u8);
    bytes.push(0x4cu8);
    bytes.push(0x42u8);
    bytes.push((nanos & 0xff) as u8);
    bytes.push(((nanos >> 8) & 0xff) as u8);
    bytes.push(((nanos >> 16) & 0xff) as u8);
    bytes.push(((nanos >> 24) & 0xff) as u8);
    bytes.push(((nanos >> 32) & 0xff) as u8);
    proof {
        assert(bytes@ =~= spec_message_id_bytes(nanos));
        assert(bytes@.subrange(0, 8) =~= bytes@);
    }
    be_u64_of_slice(bytes.as_slice(), 0, 8)
}

/// One wire datagram plus its metadata: the raw bytes as received or
/// constructed, the source address of the original sender, and, when the
/// datagram is a chunk, the triple read from its header. A non-chunked
/// packet carries zero for all three header fields.
#[derive(Clone, Debug)]
pub struct GelfPacket {
    pub data: Vec<u8>,
    pub message_id: u64,
    pub sequence_number: u8,
    pub total_chunks: u8,
    pub source_ip: SockAddress,
}

impl GelfPacket {
    pub fn new_chunked(
        data: Vec<u8>,
        message_id: u64,
        sequence_number: u8,
        total_chunks: u8,
        source_ip: SockAddress,
    ) -> (r: GelfPacket)
        ensures
            r.data == data,
            r.message_id == message_id,
            r.sequence_number == sequence_number,
            r.total_chunks == total_chunks,
            r.source_ip == source_ip,
    {
        GelfPacket { data, message_id, sequence_number, total_chunks, source_ip }
    }

    pub fn new_simple(data: Vec<u8>, source_ip: SockAddress) -> (r: GelfPacket)
        ensures
            r.data == data,
            r.message_id == 0,
            r.sequence_number == 0,
            r.total_chunks == 0,
            r.source_ip == source_ip,
    {
        GelfPacket { data, message_id: 0, sequence_number: 0, total_chunks: 0, source_ip }
    }

    pub open spec fn spec_is_chunked(&self) -> bool {
        spec_is_chunk_datagram(self.data@)
    }

    /// Whether the packet's raw bytes mark it as a chunk of a larger
    /// message.
    #[verifier::when_used_as_spec(spec_is_chunked)]
    pub fn is_chunked(&self) -> (r: bool)
        ensures
            r == self.spec_is_chunked(),
    {
        self.data.len() >= 5 && self.data[0] == GELF_MAGIC_0 && self.data[1] == GELF_MAGIC_1
    }
}

/// An in-progress or completed reassembly of one chunked message: its id,
/// the wall-clock second at which its first chunk arrived, the total chunk
/// count declared by the first chunk observed, and the chunks themselves,
/// held in arrival order.
#[derive(Debug)]
pub struct GelfChunkedMessage {
    pub chunks: Vec<GelfPacket>,
    pub arrival_time: i64,
    pub expected_max_chunks: usize,
    pub id: u64,
}

impl GelfChunkedMessage {
    /// Well-formedness: at least one chunk, and every chunk carries the
    /// message's id.
    pub open spec fn wf(&self) -> bool {
        &&& self.chunks@.len() >= 1
        &&& forall|i: int| 0 <= i < self.chunks@.len() ==> self.chunks@[i].message_id == self.id
    }

    /// Start a reassembly from the first chunk observed, stamped with the
    /// caller's clock reading in whole seconds.
    pub fn new(initial_packet: GelfPacket, now_seconds: i64) -> (r: GelfChunkedMessage)
        ensures
            r.id == initial_packet.message_id,
            r.arrival_time == now_seconds,
            r.expected_max_chunks == initial_packet.total_chunks,
            r.chunks@.len() == 1,
            r.chunks@[0] == initial_packet,
            r.wf(),
    {
        let id = initial_packet.message_id;
        let expected = initial_packet.total_chunks as usize;
        let mut chunks: Vec<GelfPacket> = Vec::new();
        chunks.push(initial_packet);
        GelfChunkedMessage { chunks, arrival_time: now_seconds, expected_max_chunks: expected, id }
    }

    /// Seconds elapsed since the first chunk arrived, against the caller's
    /// clock reading.
    pub fn age_in_seconds(&self, now_seconds: i64) -> (r: i64)
        requires
            self.arrival_time <= now_seconds,
            now_seconds - self.arrival_time <= i64::MAX,
        ensures
            r == now_seconds - self.arrival_time,
    {
        now_seconds - self.arrival_time
    }

    pub open spec fn spec_is_complete(&self) -> bool {
        self.chunks@.len() >= self.expected_max_chunks
    }

    /// Whether every expected chunk has been collected.
    #[verifier::when_used_as_spec(spec_is_complete)]
    pub fn is_complete(&self) -> (r: bool)
        ensures
            r == self.spec_is_complete(),
    {
        self.chunks.len() >= self.expected_max_chunks
    }
}

/// A tagged wrapper over the two message shapes: a (possibly partial)
/// chunked message, or a single non-chunked datagram. All pipeline stages
/// operate uniformly on the wrapper.
#[derive(Debug)]
pub enum GelfMessageWrapper {
    Chunked(GelfChunkedMessage),
    Simple(GelfPacket),
}

impl GelfMessageWrapper {
    /// Well-formedness of whichever shape the wrapper holds.
    pub open spec fn wf(&self) -> bool {
        match self {
            GelfMessageWrapper::Chunked(m) => m.wf(),
            GelfMessageWrapper::Simple(_) => true,
        }
    }

    pub open spec fn spec_pkg_id(&self) -> Option<u64> {
        match self {
            GelfMessageWrapper::Chunked(m) => Some(m.id),
            GelfMessageWrapper::Simple(_) => None,
        }
    }

    /// The message id of a chunked wrapper; a simple packet has none.
    #[verifier::when_used_as_spec(spec_pkg_id)]
    pub fn pkg_id(&self) -> (r: Option<u64>)
        ensures
            r == self.spec_pkg_id(),
    {
        match self {
            GelfMessageWrapper::Chunked(m) => Some(m.id),
            GelfMessageWrapper::Simple(_) => None,
        }
    }

    pub open spec fn spec_pkg_src(&self) -> SockAddress {
        match self {
            GelfMessageWrapper::Chunked(m) => m.chunks@[0].source_ip,
            GelfMessageWrapper::Simple(p) => p.source_ip,
        }
    }

    /// The source address of the original sender, read from the first
    /// chunk of a chunked message.
    pub fn pkg_src(&self) -> (r: SockAddress)
        requires
            self.wf(),
        ensures
            r == self.spec_pkg_src(),
    {
        match self {
            GelfMessageWrapper::Chunked(m) => m.chunks[0].source_ip,
            GelfMessageWrapper::Simple(p) => p.source_ip,
        }
    }

    pub open spec fn spec_is_chunked(&self) -> bool {
        matches!(self, GelfMessageWrapper::Chunked(_))
    }

    #[verifier::when_used_as_spec(spec_is_chunked)]
    pub fn is_chunked(&self) -> (r: bool)
        ensures
            r == self.spec_is_chunked(),
    {
        matches!(self, GelfMessageWrapper::Chunked(_))
    }

    pub open spec fn spec_is_complete(&self) -> bool {
        match self {
            GelfMessageWrapper::Chunked(m) => m.spec_is_complete(),
            GelfMessageWrapper::Simple(_) => true,
        }
    }

    /// A simple packet is always complete; a chunked message is complete
    /// once every expected chunk has been collected.
    #[verifier::when_used_as_spec(spec_is_complete)]
    pub fn is_complete(&self) -> (r: bool)
        ensures
            r == self.spec_is_complete(),
    {
        match self {
            GelfMessageWrapper::Chunked(m) => m.is_complete(),
            GelfMessageWrapper::Simple(_) => true,
        }
    }
}

} // verus!
