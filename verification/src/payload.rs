//! The decoded GELF log record and its JSON codec.
//!
//! A record's string-typed fields are held as JSON value text (the bytes
//! of the quoted, escaped JSON string), and each additional field as its
//! raw UTF-8 name together with the JSON text of its value. Encoding is
//! the library's own, byte-exact logic; parsing of the incoming JSON is
//! delegated to the `serde_json` crate behind a trusted wrapper, which
//! hands back the top-level fields as plain byte pairs.

use vstd::prelude::*;

use vstd::string::StringSliceAdditionalSpecFns;

use crate::configuration::Configuration;
use crate::gelf::CHUNK_HEADER_LEN;
use crate::gelf::{
    calculate_packet_sizes, create_packets, frag_offset, generate_message_id, spec_chunk_packet,
    spec_generate_message_id, spec_packet_sizes, GelfChunkedMessage, GelfMessageWrapper,
    GelfPacket,
};
use crate::gzip::{gunzip_of, gzip_compress, gzip_decompress, GZIP_MAGIC_0, GZIP_MAGIC_1};

verus! {

/// The spec-level value of a [`GelfMessage`]: every byte buffer replaced
/// by its byte sequence.
pub struct GelfMessageView {
    pub version: Seq<u8>,
    pub host: Seq<u8>,
    pub short_message: Seq<u8>,
    pub full_message: Option<Seq<u8>>,
    pub timestamp: Option<Seq<u8>>,
    pub level: Option<u8>,
    pub facility: Option<Seq<u8>>,
    pub file: Option<Seq<u8>>,
    pub line: Option<Seq<u8>>,
    pub additional_fields: Seq<(Seq<u8>, Seq<u8>)>,
}

/// The decoded logical log record: the required and optional GELF fields,
/// plus the remaining top-level JSON members as additional fields. The
/// string-typed fields hold JSON value text; `level` holds the parsed
/// number; `line` is normalised to JSON string text on decode.
#[derive(Debug)]
pub struct GelfMessage {
    pub version: Vec<u8>,
    pub host: Vec<u8>,
    pub short_message: Vec<u8>,
    pub full_message: Option<Vec<u8>>,
    pub timestamp: Option<Vec<u8>>,
    pub level: Option<u8>,
    pub facility: Option<Vec<u8>>,
    pub file: Option<Vec<u8>>,
    pub line: Option<Vec<u8>>,
    pub additional_fields: Vec<(Vec<u8>, Vec<u8>)>,
}

pub open spec fn spec_opt_bytes(v: Option<Vec<u8>>) -> Option<Seq<u8>> {
    match v {
        None => None,
        Some(b) => Some(b@),
    }
}

impl View for GelfMessage {
    type V = GelfMessageView;

    open spec fn view(&self) -> GelfMessageView {
        GelfMessageView {
            version: self.version@,
            host: self.host@,
            short_message: self.short_message@,
            full_message: spec_opt_bytes(self.full_message),
            timestamp: spec_opt_bytes(self.timestamp),
            level: self.level,
            facility: spec_opt_bytes(self.facility),
            file: spec_opt_bytes(self.file),
            line: spec_opt_bytes(self.line),
            additional_fields: Seq::new(
                self.additional_fields@.len(),
                |i: int| (self.additional_fields@[i].0@, self.additional_fields@[i].1@),
            ),
        }
    }
}

impl GelfMessageView {
    /// Well-formedness: additional-field names are pairwise distinct.
    pub open spec fn wf(&self) -> bool {
        forall|i: int, j: int|
            0 <= i < j < self.additional_fields.len() ==> self.additional_fields[i].0
                != self.additional_fields[j].0
    }
}

/// The JSON string escaping of one byte: quote and backslash get a
/// backslash, the common control characters their short escapes, other
/// control bytes a `\u00XX` escape, and everything else passes through.
pub open spec fn spec_escape_byte(b: u8) -> Seq<u8> {
    if b == 0x22 {
        seq![0x5cu8, 0x22u8]
    } else if b == 0x5c {
        seq![0x5cu8, 0x5cu8]
    } else if b == 0x08 {
        seq![0x5cu8, 0x62u8]
    } else if b == 0x0c {
        seq![0x5cu8, 0x66u8]
    } else if b == 0x0a {
        seq![0x5cu8, 0x6eu8]
    } else if b == 0x0d {
        seq![0x5cu8, 0x72u8]
    } else if b == 0x09 {
        seq![0x5cu8, 0x74u8]
    } else if b < 0x20 {
        seq![0x5cu8, 0x75u8, 0x30u8, 0x30u8, spec_hex_digit(b / 16), spec_hex_digit(b % 16)]
    } else {
        seq![b]
    }
}

/// The lower-case hex digit for a value below 16.
pub open spec fn spec_hex_digit(v: u8) -> u8 {
    if v < 10 {
        (0x30 + v) as u8
    } else {
        (0x57 + v) as u8
    }
}

/// The JSON string escaping of a byte sequence.
pub open spec fn spec_escape(s: Seq<u8>) -> Seq<u8>
    decreases s.len(),
{
    if s.len() == 0 {
        Seq::empty()
    } else {
        spec_escape(s.drop_last()) + spec_escape_byte(s.last())
    }
}

/// Escape a name for use inside a JSON string.
pub fn escape_json_string(s: &[u8]) -> (r: Vec<u8>)
    ensures
        r@ == spec_escape(s@),
{
    let mut out: Vec<u8> = Vec::new();
    let n = s.len();
    for i in 0..n
        invariant
            n == s@.len(),
            out@ == spec_escape(s@.subrange(0, i as int)),
    {
        let ghost pre = s@.subrange(0, i as int);
        let b = s[i];
        if b == 0x22 {
            out.push(0x5c);
            out.push(0x22);
        } else if b == 0x5c {
            out.push(0x5c);
            out.push(0x5c);
        } else if b == 0x08 {
            out.push(0x5c);
            out.push(0x62);
        } else if b == 0x0c {
            out.push(0x5c);
            out.push(0x66);
        } else if b == 0x0a {
            out.push(0x5c);
            out.push(0x6e);
        } else if b == 0x0d {
            out.push(0x5c);
            out.push(0x72);
        } else if b == 0x09 {
            out.push(0x5c);
            out.push(0x74);
        } else if b < 0x20 {
            out.push(0x5c);
            out.push(0x75);
            out.push(0x30);
            out.push(0x30);
            out.push(hex_digit(b / 16));
            out.push(hex_digit(b % 16));
        } else {
            out.push(b);
        }
        proof {
            assert(s@.subrange(0, i + 1).drop_last() =~= pre);
            assert(s@.subrange(0, i + 1).last() == b);
            assert(out@ =~= spec_escape(pre) + spec_escape_byte(b));
        }
    }
    proof {
        assert(s@.subrange(0, n as int) =~= s@);
    }
    out
}

fn hex_digit(v: u8) -> (r: u8)
    requires
        v < 16,
    ensures
        r == spec_hex_digit(v),
{
    if v < 10 {
        0x30 + v
    } else {
        0x57 + v
    }
}

/// The decimal digits of a byte value.
pub open spec fn spec_u8_decimal(v: u8) -> Seq<u8> {
    if v >= 100 {
        seq![(0x30 + v / 100) as u8, (0x30 + (v / 10) % 10) as u8, (0x30 + v % 10) as u8]
    } else if v >= 10 {
        seq![(0x30 + v / 10) as u8, (0x30 + v % 10) as u8]
    } else {
        seq![(0x30 + v) as u8]
    }
}

/// Emit a byte value as decimal digits.
pub fn u8_decimal(v: u8) -> (r: Vec<u8>)
    ensures
        r@ == spec_u8_decimal(v),
{
    let mut out: Vec<u8> = Vec::new();
    if v >= 100 {
        out.push(0x30 + v / 100);
        out.push(0x30 + (v / 10) % 10);
        out.push(0x30 + v % 10);
    } else if v >= 10 {
        out.push(0x30 + v / 10);
        out.push(0x30 + v % 10);
    } else {
        out.push(0x30 + v);
    }
    proof {
        assert(out@ =~= spec_u8_decimal(v));
    }
    out
}

/// The bytes `,"name":value` of one emitted JSON member.
pub open spec fn spec_kv(name: Seq<u8>, value: Seq<u8>) -> Seq<u8> {
    seq![0x2cu8, 0x22u8] + name + seq![0x22u8, 0x3au8] + value
}

pub open spec fn spec_opt_kv(name: Seq<u8>, value: Option<Seq<u8>>) -> Seq<u8> {
    match value {
        None => Seq::empty(),
        Some(t) => spec_kv(name, t),
    }
}

/// The emitted bytes of the additional fields, each name escaped, each
/// value spliced in as the JSON text it already is.
pub open spec fn spec_additional_fields_bytes(fs: Seq<(Seq<u8>, Seq<u8>)>) -> Seq<u8>
    decreases fs.len(),
{
    if fs.len() == 0 {
        Seq::empty()
    } else {
        spec_additional_fields_bytes(fs.drop_last()) + spec_kv(
            spec_escape(fs.last().0),
            fs.last().1,
        )
    }
}

/// The JSON serialization of a record: the three required fields, then
/// each optional field that is present (absent fields are omitted
/// entirely, never emitted as null), then the additional fields, in
/// order.
pub open spec fn spec_encode(m: GelfMessageView) -> Seq<u8> {
    seq![0x7bu8, 0x22u8] + ("version").spec_bytes() + seq![0x22u8, 0x3au8] + m.version + spec_kv(
        ("host").spec_bytes(),
        m.host,
    ) + spec_kv(("short_message").spec_bytes(), m.short_message) + spec_opt_kv(
        ("full_message").spec_bytes(),
        m.full_message,
    ) + spec_opt_kv(("timestamp").spec_bytes(), m.timestamp) + spec_opt_kv(
        ("level").spec_bytes(),
        match m.level {
            None => None,
            Some(l) => Some(spec_u8_decimal(l)),
        },
    ) + spec_opt_kv(("facility").spec_bytes(), m.facility) + spec_opt_kv(
        ("file").spec_bytes(),
        m.file,
    ) + spec_opt_kv(("line").spec_bytes(), m.line) + spec_additional_fields_bytes(
        m.additional_fields,
    ) + seq![0x7du8]
}

fn append_bytes(out: &mut Vec<u8>, b: &[u8])
    ensures
        final(out)@ == old(out)@ + b@,
{
    out.extend_from_slice(b);
}

/// Append `,"name":value`.
fn append_kv(out: &mut Vec<u8>, name: &[u8], value: &[u8])
    ensures
        final(out)@ == old(out)@ + spec_kv(name@, value@),
{
    out.push(0x2c);
    out.push(0x22);
    out.extend_from_slice(name);
    out.push(0x22);
    out.push(0x3a);
    out.extend_from_slice(value);
    proof {
        assert(out@ =~= old(out)@ + spec_kv(name@, value@));
    }
}

/// Why a payload could not be decoded.
#[derive(Clone, Copy, PartialEq, Eq, Structural, Debug)]
pub enum DecodeError {
    /// A chunk of the message is shorter than the 12-byte chunk header.
    ShortChunk,
    /// The body carries the GZip magic but does not decompress.
    GzipFailed,
    /// The body is not a JSON object.
    BodyNotJson,
    /// One of `version`, `host`, `short_message` is absent.
    MissingRequiredField,
    /// A known field holds a value of the wrong type.
    BadFieldValue,
}

/// What parsing a body as a JSON object yields: the object's members in
/// a fixed order, each as its raw UTF-8 name and the canonical JSON text
/// of its value; nothing when the body is not a JSON object. The result
/// is a function of the body bytes alone.
pub uninterp spec fn entries_of(body: Seq<u8>) -> Option<Seq<(Seq<u8>, Seq<u8>)>>;

/// The spec-level value of a list of decoded members.
pub open spec fn entries_view(fs: Seq<(Vec<u8>, Vec<u8>)>) -> Seq<(Seq<u8>, Seq<u8>)> {
    Seq::new(fs.len(), |i: int| (fs[i].0@, fs[i].1@))
}

/// Relies on serde_json's `from_slice` for `Map<String, Value>` and its
/// `to_vec` for `Value`: the body parsed as a JSON object, each member
/// handed out as its name's UTF-8 bytes and its value re-serialized as
/// canonical JSON text. The map is backed by an ordered map, so member
/// names come out sorted and pairwise distinct, and the whole result is
/// a function of the body bytes alone.
#[verifier::external_body]
fn json_object_entries(body: &[u8]) -> (r: Option<Vec<(Vec<u8>, Vec<u8>)>>)
    ensures
        match r {
            Some(v) => {
                &&& entries_of(body@) == Some(entries_view(v@))
                &&& forall|i: int, j: int| 0 <= i < j < v@.len() ==> v@[i].0@ != v@[j].0@
            },
            None => entries_of(body@) is None,
        },
{
    match serde_json::from_slice::<serde_json::Map<String, serde_json::Value>>(body) {
        Ok(m) => Some(
            m.into_iter().map(
                |(k, v)| (k.into_bytes(), serde_json::to_vec(&v).unwrap_or_default()),
            ).collect(),
        ),
        Err(_) => None,
    }
}

/// The first value under `name`, scanning members front to back.
pub open spec fn spec_lookup(fs: Seq<(Seq<u8>, Seq<u8>)>, name: Seq<u8>) -> Option<Seq<u8>>
    decreases fs.len(),
{
    if fs.len() == 0 {
        None
    } else if fs[0].0 == name {
        Some(fs[0].1)
    } else {
        spec_lookup(fs.drop_first(), name)
    }
}

proof fn lemma_spec_lookup_hit(fs: Seq<(Seq<u8>, Seq<u8>)>, name: Seq<u8>, i: int)
    requires
        0 <= i < fs.len(),
        fs[i].0 == name,
        forall|j: int| 0 <= j < i ==> fs[j].0 != name,
    ensures
        spec_lookup(fs, name) == Some(fs[i].1),
    decreases i,
{
    if i == 0 {
    } else {
        lemma_spec_lookup_hit(fs.drop_first(), name, i - 1);
    }
}

proof fn lemma_spec_lookup_miss(fs: Seq<(Seq<u8>, Seq<u8>)>, name: Seq<u8>)
    requires
        forall|j: int| 0 <= j < fs.len() ==> fs[j].0 != name,
    ensures
        spec_lookup(fs, name) is None,
    decreases fs.len(),
{
    if fs.len() > 0 {
        lemma_spec_lookup_miss(fs.drop_first(), name);
    }
}

/// Byte-for-byte equality of two slices.
pub fn bytes_eq(a: &[u8], b: &[u8]) -> (r: bool)
    ensures
        r == (a@ == b@),
{
    if a.len() != b.len() {
        return false;
    }
    let n = a.len();
    for i in 0..n
        invariant
            n == a@.len() == b@.len(),
            forall|j: int| 0 <= j < i ==> a@[j] == b@[j],
    {
        if a[i] != b[i] {
            return false;
        }
    }
    proof {
        assert(a@ =~= b@);
    }
    true
}

/// The index of the first member named `name`, if any.
fn find_key(fs: &Vec<(Vec<u8>, Vec<u8>)>, name: &[u8]) -> (r: Option<usize>)
    ensures
        match r {
            Some(i) => {
                &&& i < fs@.len()
                &&& fs@[i as int].0@ == name@
                &&& spec_lookup(entries_view(fs@), name@) == Some(fs@[i as int].1@)
            },
            None => spec_lookup(entries_view(fs@), name@) is None,
        },
{
    let n = fs.len();
    for i in 0..n
        invariant
            n == fs@.len(),
            forall|j: int| 0 <= j < i ==> (#[trigger] fs@[j]).0@ != name@,
    {
        if bytes_eq(fs[i].0.as_slice(), name) {
            proof {
                lemma_spec_lookup_hit(entries_view(fs@), name@, i as int);
            }
            return Some(i);
        }
    }
    proof {
        lemma_spec_lookup_miss(entries_view(fs@), name@);
    }
    None
}

/// Whether a JSON value text is a string (canonical string text starts
/// with a quote).
pub open spec fn spec_is_string_text(t: Seq<u8>) -> bool {
    t.len() >= 1 && t[0] == 0x22
}

/// Whether a byte sequence is one or more decimal digits.
pub open spec fn spec_is_digits(t: Seq<u8>) -> bool {
    t.len() >= 1 && forall|i: int| 0 <= i < t.len() ==> 0x30 <= #[trigger] t[i] <= 0x39
}

/// The numeric value of a digit sequence.
pub open spec fn spec_digits_value(t: Seq<u8>) -> int
    decreases t.len(),
{
    if t.len() == 0 {
        0
    } else {
        spec_digits_value(t.drop_last()) * 10 + (t.last() - 0x30)
    }
}

proof fn lemma_digits_value_monotone(t: Seq<u8>, i: int)
    requires
        spec_is_digits(t),
        0 <= i <= t.len(),
    ensures
        spec_digits_value(t.subrange(0, i)) <= spec_digits_value(t),
        spec_digits_value(t) >= 0,
    decreases t.len() - i,
{
    if i == t.len() {
        assert(t.subrange(0, i) =~= t);
        lemma_digits_value_nonneg(t);
    } else {
        lemma_digits_value_monotone(t, i + 1);
        assert(t.subrange(0, i + 1).drop_last() =~= t.subrange(0, i));
        lemma_digits_value_nonneg(t.subrange(0, i));
    }
}

proof fn lemma_digits_value_nonneg(t: Seq<u8>)
    requires
        forall|i: int| 0 <= i < t.len() ==> 0x30 <= #[trigger] t[i] <= 0x39,
    ensures
        spec_digits_value(t) >= 0,
    decreases t.len(),
{
    if t.len() > 0 {
        lemma_digits_value_nonneg(t.drop_last());
    }
}

/// Parse a decimal byte value: the digits' value when the text is all
/// digits and the value fits a byte, and nothing otherwise.
pub fn parse_u8_digits(t: &[u8]) -> (r: Option<u8>)
    ensures
        r == (if spec_is_digits(t@) && spec_digits_value(t@) <= 255 {
            Some(spec_digits_value(t@) as u8)
        } else {
            None::<u8>
        }),
{
    if t.len() == 0 {
        return None;
    }
    let n = t.len();
    let mut val: u32 = 0;
    for i in 0..n
        invariant
            n == t@.len(),
            forall|j: int| 0 <= j < i ==> 0x30 <= #[trigger] t@[j] <= 0x39,
            val == spec_digits_value(t@.subrange(0, i as int)),
            val <= 255,
    {
        let b = t[i];
        if b < 0x30 || b > 0x39 {
            return None;
        }
        proof {
            assert(t@.subrange(0, i + 1).drop_last() =~= t@.subrange(0, i as int));
        }
        val = val * 10 + ((b - 0x30) as u32);
        if val > 255 {
            proof {
                if spec_is_digits(t@) {
                    lemma_digits_value_monotone(t@, i + 1);
                }
            }
            return None;
        }
        proof {
            lemma_digits_value_nonneg(t@.subrange(0, i + 1));
        }
    }
    proof {
        assert(t@.subrange(0, n as int) =~= t@);
    }
    Some(val as u8)
}

/// Whether the text is one or more decimal digits.
pub fn all_digits(t: &[u8]) -> (r: bool)
    ensures
        r == spec_is_digits(t@),
{
    if t.len() == 0 {
        return false;
    }
    let n = t.len();
    for i in 0..n
        invariant
            n == t@.len(),
            forall|j: int| 0 <= j < i ==> 0x30 <= #[trigger] t@[j] <= 0x39,
    {
        let b = t[i];
        if b < 0x30 || b > 0x39 {
            return false;
        }
    }
    true
}

/// Whether `k` is one of the nine field names the record itself carries.
pub open spec fn spec_is_known_key(k: Seq<u8>) -> bool {
    ||| k == ("version").spec_bytes()
    ||| k == ("host").spec_bytes()
    ||| k == ("short_message").spec_bytes()
    ||| k == ("full_message").spec_bytes()
    ||| k == ("timestamp").spec_bytes()
    ||| k == ("level").spec_bytes()
    ||| k == ("facility").spec_bytes()
    ||| k == ("file").spec_bytes()
    ||| k == ("line").spec_bytes()
}

fn is_known_key(k: &[u8]) -> (r: bool)
    ensures
        r == spec_is_known_key(k@),
{
    bytes_eq(k, "version".as_bytes()) || bytes_eq(k, "host".as_bytes()) || bytes_eq(
        k,
        "short_message".as_bytes(),
    ) || bytes_eq(k, "full_message".as_bytes()) || bytes_eq(k, "timestamp".as_bytes())
        || bytes_eq(k, "level".as_bytes()) || bytes_eq(k, "facility".as_bytes()) || bytes_eq(
        k,
        "file".as_bytes(),
    ) || bytes_eq(k, "line".as_bytes())
}

/// The predicate on which a member stays an additional field.
pub open spec fn spec_additional_pred() -> spec_fn((Seq<u8>, Seq<u8>)) -> bool {
    |p: (Seq<u8>, Seq<u8>)| !spec_is_known_key(p.0)
}

/// An optional string-typed field: absent or null means none, a string
/// is kept as its text, anything else is refused.
pub open spec fn spec_opt_string_field(fs: Seq<(Seq<u8>, Seq<u8>)>, name: Seq<u8>) -> Result<
    Option<Seq<u8>>,
    DecodeError,
> {
    match spec_lookup(fs, name) {
        None => Ok(None),
        Some(t) => {
            if t == ("null").spec_bytes() {
                Ok(None)
            } else if spec_is_string_text(t) {
                Ok(Some(t))
            } else {
                Err(DecodeError::BadFieldValue)
            }
        },
    }
}

/// The `level` field: absent or null means none, an integer up to 255 is
/// its value, anything else is refused.
pub open spec fn spec_level_field(fs: Seq<(Seq<u8>, Seq<u8>)>) -> Result<Option<u8>, DecodeError> {
    match spec_lookup(fs, ("level").spec_bytes()) {
        None => Ok(None),
        Some(t) => {
            if t == ("null").spec_bytes() {
                Ok(None)
            } else if spec_is_digits(t) && spec_digits_value(t) <= 255 {
                Ok(Some(spec_digits_value(t) as u8))
            } else {
                Err(DecodeError::BadFieldValue)
            }
        },
    }
}

/// The `line` field: absent or null means none, a string stays as it is,
/// an unsigned integer is re-emitted as string text, anything else is
/// refused.
pub open spec fn spec_line_field(fs: Seq<(Seq<u8>, Seq<u8>)>) -> Result<
    Option<Seq<u8>>,
    DecodeError,
> {
    match spec_lookup(fs, ("line").spec_bytes()) {
        None => Ok(None),
        Some(t) => {
            if t == ("null").spec_bytes() {
                Ok(None)
            } else if spec_is_string_text(t) {
                Ok(Some(t))
            } else if spec_is_digits(t) {
                Ok(Some(seq![0x22u8] + t + seq![0x22u8]))
            } else {
                Err(DecodeError::BadFieldValue)
            }
        },
    }
}

/// Build a record from a JSON object's members: `version`, `host` and
/// `short_message` must be present and strings; the optional fields are
/// read as [`spec_opt_string_field`], [`spec_level_field`] and
/// [`spec_line_field`] say; every member with an unknown name stays an
/// additional field, in order.
pub open spec fn spec_payload_from_entries(fs: Seq<(Seq<u8>, Seq<u8>)>) -> Result<
    GelfMessageView,
    DecodeError,
> {
    let version = spec_lookup(fs, ("version").spec_bytes());
    let host = spec_lookup(fs, ("host").spec_bytes());
    let short_message = spec_lookup(fs, ("short_message").spec_bytes());
    if version is None || host is None || short_message is None {
        Err(DecodeError::MissingRequiredField)
    } else if !spec_is_string_text(version.unwrap()) || !spec_is_string_text(host.unwrap())
        || !spec_is_string_text(short_message.unwrap()) {
        Err(DecodeError::BadFieldValue)
    } else {
        match spec_opt_string_field(fs, ("full_message").spec_bytes()) {
            Err(e) => Err(e),
            Ok(full_message) => match spec_opt_string_field(fs, ("timestamp").spec_bytes()) {
                Err(e) => Err(e),
                Ok(timestamp) => match spec_level_field(fs) {
                    Err(e) => Err(e),
                    Ok(level) => match spec_opt_string_field(fs, ("facility").spec_bytes()) {
                        Err(e) => Err(e),
                        Ok(facility) => match spec_opt_string_field(fs, ("file").spec_bytes()) {
                            Err(e) => Err(e),
                            Ok(file) => match spec_line_field(fs) {
                                Err(e) => Err(e),
                                Ok(line) => Ok(
                                    GelfMessageView {
                                        version: version.unwrap(),
                                        host: host.unwrap(),
                                        short_message: short_message.unwrap(),
                                        full_message,
                                        timestamp,
                                        level,
                                        facility,
                                        file,
                                        line,
                                        additional_fields: fs.filter(spec_additional_pred()),
                                    },
                                ),
                            },
                        },
                    },
                },
            },
        }
    }
}

/// Serialize a record to JSON, exactly as [`spec_encode`] lays it out.
pub fn encode_payload(m: &GelfMessage) -> (r: Vec<u8>)
    ensures
        r@ == spec_encode(m@),
{
    let mut out: Vec<u8> = Vec::new();
    out.push(0x7b);
    out.push(0x22);
    append_bytes(&mut out, "version".as_bytes());
    out.push(0x22);
    out.push(0x3a);
    append_bytes(&mut out, m.version.as_slice());
    let ghost acc = seq![0x7bu8, 0x22u8] + ("version").spec_bytes() + seq![0x22u8, 0x3au8]
        + m@.version;
    proof {
        assert(out@ =~= acc);
    }
    append_kv(&mut out, "host".as_bytes(), m.host.as_slice());
    let ghost acc = acc + spec_kv(("host").spec_bytes(), m@.host);
    append_kv(&mut out, "short_message".as_bytes(), m.short_message.as_slice());
    let ghost acc = acc + spec_kv(("short_message").spec_bytes(), m@.short_message);
    match &m.full_message {
        Some(t) => append_kv(&mut out, "full_message".as_bytes(), t.as_slice()),
        None => (),
    }
    let ghost acc = acc + spec_opt_kv(("full_message").spec_bytes(), m@.full_message);
    proof {
        if m.full_message is None {
            assert(out@ =~= acc);
        }
        assert(out@ == acc);
    }
    match &m.timestamp {
        Some(t) => append_kv(&mut out, "timestamp".as_bytes(), t.as_slice()),
        None => (),
    }
    let ghost acc = acc + spec_opt_kv(("timestamp").spec_bytes(), m@.timestamp);
    proof {
        if m.timestamp is None {
            assert(out@ =~= acc);
        }
        assert(out@ == acc);
    }
    match m.level {
        Some(l) => {
            let digits = u8_decimal(l);
            append_kv(&mut out, "level".as_bytes(), digits.as_slice());
        },
        None => (),
    }
    let ghost acc = acc + spec_opt_kv(
        ("level").spec_bytes(),
        match m@.level {
            None => None,
            Some(l) => Some(spec_u8_decimal(l)),
        },
    );
    proof {
        if m.level is None {
            assert(out@ =~= acc);
        }
        assert(out@ == acc);
    }
    match &m.facility {
        Some(t) => append_kv(&mut out, "facility".as_bytes(), t.as_slice()),
        None => (),
    }
    let ghost acc = acc + spec_opt_kv(("facility").spec_bytes(), m@.facility);
    proof {
        if m.facility is None {
            assert(out@ =~= acc);
        }
        assert(out@ == acc);
    }
    match &m.file {
        Some(t) => append_kv(&mut out, "file".as_bytes(), t.as_slice()),
        None => (),
    }
    let ghost acc = acc + spec_opt_kv(("file").spec_bytes(), m@.file);
    proof {
        if m.file is None {
            assert(out@ =~= acc);
        }
        assert(out@ == acc);
    }
    match &m.line {
        Some(t) => append_kv(&mut out, "line".as_bytes(), t.as_slice()),
        None => (),
    }
    let ghost acc = acc + spec_opt_kv(("line").spec_bytes(), m@.line);
    proof {
        if m.line is None {
            assert(out@ =~= acc);
        }
        assert(out@ == acc);
    }
    let nf = m.additional_fields.len();
    proof {
        assert(m@.additional_fields.subrange(0, 0) =~= Seq::<(Seq<u8>, Seq<u8>)>::empty());
        assert(acc + spec_additional_fields_bytes(m@.additional_fields.subrange(0, 0)) =~= acc);
    }
    for i in 0..nf
        invariant
            nf == m.additional_fields@.len(),
            out@ == acc + spec_additional_fields_bytes(m@.additional_fields.subrange(0, i as int)),
    {
        let ghost pre = m@.additional_fields.subrange(0, i as int);
        let name = escape_json_string(m.additional_fields[i].0.as_slice());
        append_kv(&mut out, name.as_slice(), m.additional_fields[i].1.as_slice());
        proof {
            assert(m@.additional_fields.subrange(0, i + 1).drop_last() =~= pre);
            assert(m@.additional_fields[i as int].0 == m.additional_fields@[i as int].0@);
            assert(m@.additional_fields[i as int].1 == m.additional_fields@[i as int].1@);
            assert((acc + spec_additional_fields_bytes(pre)) + spec_kv(
                spec_escape(m@.additional_fields[i as int].0),
                m@.additional_fields[i as int].1,
            ) =~= acc + spec_additional_fields_bytes(m@.additional_fields.subrange(0, i + 1)));
        }
    }
    proof {
        assert(m@.additional_fields.subrange(0, nf as int) =~= m@.additional_fields);
    }
    let ghost acc = acc + spec_additional_fields_bytes(m@.additional_fields);
    out.push(0x7d);
    proof {
        assert(out@ =~= acc + seq![0x7du8]);
    }
    out
}


/// Every element of a filtered sequence is an element of the sequence.
pub proof fn lemma_filter_element_of<A>(s: Seq<A>, pred: spec_fn(A) -> bool, k: int)
    requires
        0 <= k < s.filter(pred).len(),
    ensures
        exists|i: int| 0 <= i < s.len() && s[i] == s.filter(pred)[k],
    decreases s.len(),
{
    reveal(Seq::filter);
    if s.len() > 0 {
        let f2 = s.drop_last().filter(pred);
        if pred(s.last()) && k == f2.len() {
            assert(s[s.len() - 1] == s.filter(pred)[k]);
        } else {
            lemma_filter_element_of(s.drop_last(), pred, k);
            let i = choose|i: int|
                0 <= i < s.drop_last().len() && s.drop_last()[i] == s.drop_last().filter(pred)[k];
            assert(s[i] == s.filter(pred)[k]);
        }
    }
}

/// Filtering keeps member names pairwise distinct.
pub proof fn lemma_filter_distinct_keys(
    s: Seq<(Seq<u8>, Seq<u8>)>,
    pred: spec_fn((Seq<u8>, Seq<u8>)) -> bool,
)
    requires
        forall|i: int, j: int| 0 <= i < j < s.len() ==> s[i].0 != s[j].0,
    ensures
        forall|i: int, j: int|
            0 <= i < j < s.filter(pred).len() ==> s.filter(pred)[i].0 != s.filter(pred)[j].0,
    decreases s.len(),
{
    reveal(Seq::filter);
    if s.len() > 0 {
        let s2 = s.drop_last();
        lemma_filter_distinct_keys(s2, pred);
        let f = s.filter(pred);
        let f2 = s2.filter(pred);
        assert forall|i: int, j: int| 0 <= i < j < f.len() implies f[i].0 != f[j].0 by {
            if pred(s.last()) && j == f.len() - 1 {
                assert(f[i] == f2[i]);
                lemma_filter_element_of(s2, pred, i);
                let a = choose|a: int| 0 <= a < s2.len() && s2[a] == f2[i];
                assert(s[a] == f[i]);
                assert(s[a].0 != s[s.len() - 1].0);
            } else {
                assert(f[i] == f2[i] && f[j] == f2[j]);
            }
        }
    }
}

/// Copy a byte slice into an owned buffer.
pub fn copy_bytes(b: &[u8]) -> (r: Vec<u8>)
    ensures
        r@ == b@,
{
    let mut v: Vec<u8> = Vec::new();
    v.extend_from_slice(b);
    proof {
        assert(v@ =~= b@);
    }
    v
}

/// Read one optional string-typed field, as [`spec_opt_string_field`]
/// says.
fn opt_string_field(fs: &Vec<(Vec<u8>, Vec<u8>)>, name: &[u8]) -> (r: Result<
    Option<Vec<u8>>,
    DecodeError,
>)
    ensures
        match r {
            Ok(o) => spec_opt_string_field(entries_view(fs@), name@) == Ok::<
                Option<Seq<u8>>,
                DecodeError,
            >(spec_opt_bytes(o)),
            Err(e) => spec_opt_string_field(entries_view(fs@), name@) == Err::<
                Option<Seq<u8>>,
                DecodeError,
            >(e),
        },
{
    match find_key(fs, name) {
        None => Ok(None),
        Some(i) => {
            let t = &fs[i].1;
            if bytes_eq(t.as_slice(), "null".as_bytes()) {
                Ok(None)
            } else if t.len() >= 1 && t[0] == 0x22 {
                Ok(Some(copy_bytes(t.as_slice())))
            } else {
                Err(DecodeError::BadFieldValue)
            }
        },
    }
}

/// Read the `level` field, as [`spec_level_field`] says.
fn level_field(fs: &Vec<(Vec<u8>, Vec<u8>)>) -> (r: Result<Option<u8>, DecodeError>)
    ensures
        match r {
            Ok(o) => spec_level_field(entries_view(fs@)) == Ok::<Option<u8>, DecodeError>(o),
            Err(e) => spec_level_field(entries_view(fs@)) == Err::<Option<u8>, DecodeError>(e),
        },
{
    match find_key(fs, "level".as_bytes()) {
        None => Ok(None),
        Some(i) => {
            let t = &fs[i].1;
            if bytes_eq(t.as_slice(), "null".as_bytes()) {
                Ok(None)
            } else {
                match parse_u8_digits(t.as_slice()) {
                    Some(v) => Ok(Some(v)),
                    None => Err(DecodeError::BadFieldValue),
                }
            }
        },
    }
}

/// Read the `line` field, as [`spec_line_field`] says.
fn line_field(fs: &Vec<(Vec<u8>, Vec<u8>)>) -> (r: Result<Option<Vec<u8>>, DecodeError>)
    ensures
        match r {
            Ok(o) => spec_line_field(entries_view(fs@)) == Ok::<Option<Seq<u8>>, DecodeError>(
                spec_opt_bytes(o),
            ),
            Err(e) => spec_line_field(entries_view(fs@)) == Err::<Option<Seq<u8>>, DecodeError>(e),
        },
{
    match find_key(fs, "line".as_bytes()) {
        None => Ok(None),
        Some(i) => {
            let t = &fs[i].1;
            if bytes_eq(t.as_slice(), "null".as_bytes()) {
                Ok(None)
            } else if t.len() >= 1 && t[0] == 0x22 {
                Ok(Some(copy_bytes(t.as_slice())))
            } else if all_digits(t.as_slice()) {
                let mut q: Vec<u8> = Vec::new();
                q.push(0x22);
                q.extend_from_slice(t.as_slice());
                q.push(0x22);
                proof {
                    assert(q@ =~= seq![0x22u8] + fs@[i as int].1@ + seq![0x22u8]);
                }
                Ok(Some(q))
            } else {
                Err(DecodeError::BadFieldValue)
            }
        },
    }
}

/// Build a record from a JSON object's members, exactly as
/// [`spec_payload_from_entries`] says.
#[verifier::rlimit(60)]
pub fn payload_from_entries(fs: &Vec<(Vec<u8>, Vec<u8>)>) -> (r: Result<GelfMessage, DecodeError>)
    ensures
        match r {
            Ok(m) => spec_payload_from_entries(entries_view(fs@)) == Ok::<
                GelfMessageView,
                DecodeError,
            >(m@),
            Err(e) => spec_payload_from_entries(entries_view(fs@)) == Err::<
                GelfMessageView,
                DecodeError,
            >(e),
        },
{
    let ghost fsv = entries_view(fs@);
    let version_i = find_key(fs, "version".as_bytes());
    let host_i = find_key(fs, "host".as_bytes());
    let sm_i = find_key(fs, "short_message".as_bytes());
    let (vi, hi, si) = match (version_i, host_i, sm_i) {
        (Some(a), Some(b), Some(c)) => (a, b, c),
        _ => {
            return Err(DecodeError::MissingRequiredField);
        },
    };
    let version = &fs[vi].1;
    let host = &fs[hi].1;
    let short_message = &fs[si].1;
    if !(version.len() >= 1 && version[0] == 0x22) || !(host.len() >= 1 && host[0] == 0x22) || !(
    short_message.len() >= 1 && short_message[0] == 0x22) {
        return Err(DecodeError::BadFieldValue);
    }
    let full_message = match opt_string_field(fs, "full_message".as_bytes()) {
        Ok(o) => o,
        Err(e) => {
            return Err(e);
        },
    };
    let timestamp = match opt_string_field(fs, "timestamp".as_bytes()) {
        Ok(o) => o,
        Err(e) => {
            return Err(e);
        },
    };
    let level = match level_field(fs) {
        Ok(o) => o,
        Err(e) => {
            return Err(e);
        },
    };
    let facility = match opt_string_field(fs, "facility".as_bytes()) {
        Ok(o) => o,
        Err(e) => {
            return Err(e);
        },
    };
    let file = match opt_string_field(fs, "file".as_bytes()) {
        Ok(o) => o,
        Err(e) => {
            return Err(e);
        },
    };
    let line = match line_field(fs) {
        Ok(o) => o,
        Err(e) => {
            return Err(e);
        },
    };
    let mut additional_fields: Vec<(Vec<u8>, Vec<u8>)> = Vec::new();
    let n = fs.len();
    proof {
        reveal(Seq::filter);
        assert(fsv.subrange(0, 0) =~= Seq::<(Seq<u8>, Seq<u8>)>::empty());
        assert(entries_view(additional_fields@) =~= fsv.subrange(0, 0).filter(
            spec_additional_pred(),
        ));
    }
    for i in 0..n
        invariant
            n == fs@.len(),
            fsv == entries_view(fs@),
            entries_view(additional_fields@) == fsv.subrange(0, i as int).filter(
                spec_additional_pred(),
            ),
    {
        let ghost pre = fsv.subrange(0, i as int);
        let ghost acc = entries_view(additional_fields@);
        let known = is_known_key(fs[i].0.as_slice());
        if !known {
            let k = copy_bytes(fs[i].0.as_slice());
            let v = copy_bytes(fs[i].1.as_slice());
            additional_fields.push((k, v));
            proof {
                assert(entries_view(additional_fields@) =~= acc.push(fsv[i as int]));
            }
        }
        proof {
            reveal(Seq::filter);
            assert(fsv.subrange(0, i + 1).drop_last() =~= pre);
            assert(fsv.subrange(0, i + 1).last() == fsv[i as int]);
            assert(spec_additional_pred()(fsv[i as int]) == !spec_is_known_key(fsv[i as int].0));
            assert(fsv[i as int].0 == fs@[i as int].0@);
            assert(entries_view(additional_fields@) =~= fsv.subrange(0, i + 1).filter(
                spec_additional_pred(),
            ));
        }
    }
    proof {
        assert(fsv.subrange(0, n as int) =~= fsv);
    }
    let m = GelfMessage {
        version: copy_bytes(version.as_slice()),
        host: copy_bytes(host.as_slice()),
        short_message: copy_bytes(short_message.as_slice()),
        full_message,
        timestamp,
        level,
        facility,
        file,
        line,
        additional_fields,
    };
    proof {
        assert(m@.additional_fields =~= fsv.filter(spec_additional_pred()));
        assert(spec_payload_from_entries(fsv) == Ok::<GelfMessageView, DecodeError>(m@));
    }
    Ok(m)
}


/// The payload fragment a chunk contributes to reassembly: its bytes
/// after the 12-byte header, or nothing when it is too short to carry
/// one.
pub open spec fn spec_chunk_payload(p: GelfPacket) -> Seq<u8> {
    if p.data@.len() >= 12 {
        p.data@.skip(12)
    } else {
        Seq::empty()
    }
}

/// The body of a chunked message: the chunks' payload fragments
/// concatenated in arrival order.
pub open spec fn spec_reassembled_body(chunks: Seq<GelfPacket>) -> Seq<u8>
    decreases chunks.len(),
{
    if chunks.len() == 0 {
        Seq::empty()
    } else {
        spec_reassembled_body(chunks.drop_last()) + spec_chunk_payload(chunks.last())
    }
}

pub open spec fn spec_has_short_chunk(chunks: Seq<GelfPacket>) -> bool {
    exists|i: int| 0 <= i < chunks.len() && (#[trigger] chunks[i]).data@.len() < 12
}

/// Whether a body starts with the GZip magic (and is long enough for the
/// check the pipeline applies).
pub open spec fn spec_is_gzipped(b: Seq<u8>) -> bool {
    b.len() > 3 && b[0] == GZIP_MAGIC_0 && b[1] == GZIP_MAGIC_1
}

/// The textual body: the body itself, or its decompression when it
/// carries the GZip magic.
pub open spec fn spec_body_text(body: Seq<u8>) -> Result<Seq<u8>, DecodeError> {
    if spec_is_gzipped(body) {
        match gunzip_of(body) {
            Some(t) => Ok(t),
            None => Err(DecodeError::GzipFailed),
        }
    } else {
        Ok(body)
    }
}

/// Decode a message body: decompress if needed, parse as a JSON object,
/// and build the record.
pub open spec fn spec_decode_body(body: Seq<u8>) -> Result<GelfMessageView, DecodeError> {
    match spec_body_text(body) {
        Err(e) => Err(e),
        Ok(text) => match entries_of(text) {
            None => Err(DecodeError::BodyNotJson),
            Some(fs) => spec_payload_from_entries(fs),
        },
    }
}

/// What decoding a wrapper's payload yields: a chunked message is
/// reassembled by concatenation in arrival order first (refused when a
/// chunk is too short to carry a header), a simple packet's bytes are the
/// body as they stand.
pub open spec fn spec_get_payload(w: GelfMessageWrapper) -> Result<GelfMessageView, DecodeError> {
    match w {
        GelfMessageWrapper::Chunked(m) => {
            if spec_has_short_chunk(m.chunks@) {
                Err(DecodeError::ShortChunk)
            } else {
                spec_decode_body(spec_reassembled_body(m.chunks@))
            }
        },
        GelfMessageWrapper::Simple(p) => spec_decode_body(p.data@),
    }
}

fn decode_body(body: &[u8]) -> (r: Result<GelfMessage, DecodeError>)
    ensures
        match r {
            Ok(m) => spec_decode_body(body@) == Ok::<GelfMessageView, DecodeError>(m@) && m@.wf(),
            Err(e) => spec_decode_body(body@) == Err::<GelfMessageView, DecodeError>(e),
        },
{
    let text: Vec<u8>;
    if body.len() > 3 && body[0] == GZIP_MAGIC_0 && body[1] == GZIP_MAGIC_1 {
        match gzip_decompress(body) {
            Some(t) => {
                text = t;
            },
            None => {
                return Err(DecodeError::GzipFailed);
            },
        }
    } else {
        text = copy_bytes(body);
    }
    match json_object_entries(text.as_slice()) {
        None => Err(DecodeError::BodyNotJson),
        Some(fs) => {
            match payload_from_entries(&fs) {
                Ok(m) => {
                    proof {
                        assert forall|i: int, j: int|
                            0 <= i < j < entries_view(fs@).len() implies entries_view(fs@)[i].0
                            != entries_view(fs@)[j].0 by {
                            assert(fs@[i].0@ != fs@[j].0@);
                        }
                        lemma_filter_distinct_keys(entries_view(fs@), spec_additional_pred());
                    }
                    Ok(m)
                },
                Err(e) => Err(e),
            }
        },
    }
}

impl GelfMessageWrapper {
    /// Decode the wrapper's payload to a record, exactly as
    /// [`spec_get_payload`] says: reassemble a chunked message by
    /// concatenating its fragments in arrival order, decompress a body
    /// carrying the GZip magic, parse the JSON object, and build the
    /// record. On success the record's additional-field names are
    /// pairwise distinct.
    pub fn get_payload(&self) -> (r: Result<GelfMessage, DecodeError>)
        ensures
            match r {
                Ok(m) => spec_get_payload(*self) == Ok::<GelfMessageView, DecodeError>(m@)
                    && m@.wf(),
                Err(e) => spec_get_payload(*self) == Err::<GelfMessageView, DecodeError>(e),
            },
    {
        match self {
            GelfMessageWrapper::Chunked(msg) => {
                let mut body: Vec<u8> = Vec::new();
                let n = msg.chunks.len();
                proof {
                    assert(msg.chunks@.subrange(0, 0) =~= Seq::<GelfPacket>::empty());
                }
                for i in 0..n
                    invariant
                        *self == GelfMessageWrapper::Chunked(*msg),
                        n == msg.chunks@.len(),
                        body@ == spec_reassembled_body(msg.chunks@.subrange(0, i as int)),
                        forall|j: int|
                            0 <= j < i ==> (#[trigger] msg.chunks@[j]).data@.len() >= 12,
                {
                    let ghost pre = msg.chunks@.subrange(0, i as int);
                    let c = &msg.chunks[i];
                    if c.data.len() < CHUNK_HEADER_LEN {
                        proof {
                            assert(msg.chunks@[i as int].data@.len() < 12);
                            assert(spec_has_short_chunk(msg.chunks@));
                        }
                        return Err(DecodeError::ShortChunk);
                    }
                    body.extend_from_slice(&c.data.as_slice()[12..c.data.len()]);
                    proof {
                        assert(msg.chunks@.subrange(0, i + 1).drop_last() =~= pre);
                        assert(msg.chunks@.subrange(0, i + 1).last() == msg.chunks@[i as int]);
                        assert(c.data@.subrange(12, c.data@.len() as int) =~= c.data@.skip(12));
                        assert(body@ =~= spec_reassembled_body(pre) + spec_chunk_payload(
                            msg.chunks@[i as int],
                        ));
                    }
                }
                proof {
                    assert(msg.chunks@.subrange(0, n as int) =~= msg.chunks@);
                    assert(!spec_has_short_chunk(msg.chunks@));
                }
                decode_body(body.as_slice())
            },
            GelfMessageWrapper::Simple(pkg) => decode_body(pkg.data.as_slice()),
        }
    }
}


/// Why a payload could not be re-encoded.
#[derive(Clone, Copy, PartialEq, Eq, Structural, Debug)]
pub enum EncodeError {
    /// The payload splits into more chunks than the one-byte total count
    /// can carry.
    TooManyChunks,
}

/// Whether a payload whose JSON serialization is `json` splits into more
/// chunks than a series can carry: directly for a plain body, and for a
/// compressed body through the bytes the compressor produced.
pub open spec fn spec_rechunk_overflow(json: Seq<u8>, use_gzip: bool, chunk_size: u64) -> bool {
    if use_gzip {
        exists|z: Seq<u8>|
            {
                &&& gunzip_of(z) == Some(json)
                &&& spec_is_gzipped(z)
                &&& z.len() <= usize::MAX
                &&& #[trigger] spec_packet_sizes(
                    z.len() as usize,
                    (chunk_size - CHUNK_OVERHEAD) as usize,
                ).len() > 255
            }
    } else {
        spec_packet_sizes(json.len() as usize, (chunk_size - CHUNK_OVERHEAD) as usize).len() > 255
    }
}

/// Allowance for IP and UDP headers: a worst-case 60-byte IPv4 header
/// plus the 8-byte UDP header.
pub const WIRE_OVERHEAD: usize = 68;

/// Allowance per chunk: the wire overhead plus the 12-byte chunk header.
pub const CHUNK_OVERHEAD: usize = 80;

/// How a wrapper replaced by a fresh payload relates to the payload
/// bytes. When the bytes plus wire overhead fit the configured chunk
/// size, the new wrapper is one simple packet holding them. Otherwise
/// the bytes are split at the fragment offsets and each fragment gets a
/// 12-byte chunk header; the series keeps the old message id when there
/// was one and otherwise derives a fresh id from the clock. Either way
/// the original sender's address is kept.
pub open spec fn spec_rechunk_ok(
    w_old: GelfMessageWrapper,
    w_new: GelfMessageWrapper,
    bytes: Seq<u8>,
    chunk_size: u64,
    clock_nanos: u64,
    now_seconds: i64,
) -> bool {
    if bytes.len() + WIRE_OVERHEAD <= chunk_size {
        match w_new {
            GelfMessageWrapper::Simple(p) => {
                &&& p.data@ == bytes
                &&& p.message_id == 0
                &&& p.sequence_number == 0
                &&& p.total_chunks == 0
                &&& p.source_ip == w_old.spec_pkg_src()
            },
            GelfMessageWrapper::Chunked(_) => false,
        }
    } else {
        let sizes = spec_packet_sizes(bytes.len() as usize, (chunk_size - CHUNK_OVERHEAD) as usize);
        let id = match w_old.spec_pkg_id() {
            Some(i) => i,
            None => spec_generate_message_id(clock_nanos),
        };
        match w_new {
            GelfMessageWrapper::Chunked(m) => {
                &&& m.id == id
                &&& m.arrival_time == now_seconds
                &&& m.expected_max_chunks == sizes.len()
                &&& m.chunks@.len() == sizes.len()
                &&& forall|i: int|
                    0 <= i < sizes.len() ==> {
                        let p = #[trigger] m.chunks@[i];
                        &&& p.data@ == spec_chunk_packet(
                            id,
                            i as u8,
                            sizes.len() as u8,
                            bytes.subrange(frag_offset(sizes, i), frag_offset(sizes, i + 1)),
                        )
                        &&& p.message_id == id
                        &&& p.sequence_number == i as u8
                        &&& p.total_chunks == sizes.len() as u8
                        &&& p.source_ip == w_old.spec_pkg_src()
                    }
            },
            GelfMessageWrapper::Simple(_) => false,
        }
    }
}

/// A body that fits a single datagram never overflows a chunk series:
/// it is at most 12 bytes longer than one fragment, so it splits into a
/// handful of fragments at worst.
proof fn lemma_small_body_no_overflow(total: usize, chunk_size: u64)
    requires
        80 < chunk_size <= usize::MAX,
        total + WIRE_OVERHEAD <= chunk_size,
    ensures
        spec_packet_sizes(total, (chunk_size - CHUNK_OVERHEAD) as usize).len() <= 255,
{
    let max = (chunk_size - CHUNK_OVERHEAD) as usize;
    assert(max >= 1);
    assert(total <= max + 12);
    assert(total as int / max as int <= 13) by (nonlinear_arith)
        requires
            1 <= max,
            0 <= total <= max + 12,
    ;
    vstd::arithmetic::div_mod::lemma_fundamental_div_mod(total as int, max as int);
}

impl GelfMessageWrapper {
    /// Replace the wrapper's payload with a freshly serialized record:
    /// encode it to JSON, GZip-compress when configured, and re-chunk as
    /// [`spec_rechunk_ok`] says. The caller supplies its clock readings:
    /// whole seconds for the new arrival stamp and the nanosecond counter
    /// from which a fresh message id is derived when the wrapper had
    /// none. Without compression the outcome is pinned exactly;
    /// with compression it is pinned up to the compressed bytes, which
    /// decompress back to the encoded record. The one refusal is a split
    /// into more than 255 chunks, and it must come with a witness: the
    /// wrapper is then unchanged and the (possibly compressed) body
    /// provably overflows the series. Everything else succeeds.
    pub fn set_payload(
        &mut self,
        new_payload_msg: &GelfMessage,
        config: &Configuration,
        now_seconds: i64,
        clock_nanos: u64,
    ) -> (r: Result<(), EncodeError>)
        requires
            old(self).wf(),
            80 < config.chunk_size <= usize::MAX,
        ensures
            match r {
                Ok(()) => {
                    &&& final(self).wf()
                    &&& if config.use_gzip == Some(true) {
                        exists|z: Seq<u8>|
                            {
                                &&& gunzip_of(z) == Some(spec_encode(new_payload_msg@))
                                &&& spec_is_gzipped(z)
                                &&& z.len() <= usize::MAX
                                &&& #[trigger] spec_rechunk_ok(
                                    *old(self),
                                    *final(self),
                                    z,
                                    config.chunk_size,
                                    clock_nanos,
                                    now_seconds,
                                )
                            }
                    } else {
                        spec_rechunk_ok(
                            *old(self),
                            *final(self),
                            spec_encode(new_payload_msg@),
                            config.chunk_size,
                            clock_nanos,
                            now_seconds,
                        )
                    }
                },
                Err(e) => {
                    &&& *final(self) == *old(self)
                    &&& e == EncodeError::TooManyChunks
                    &&& spec_rechunk_overflow(
                        spec_encode(new_payload_msg@),
                        config.use_gzip == Some(true),
                        config.chunk_size,
                    )
                },
            },
            config.use_gzip != Some(true) && spec_packet_sizes(
                spec_encode(new_payload_msg@).len() as usize,
                (config.chunk_size - CHUNK_OVERHEAD) as usize,
            ).len() > 255 ==> r is Err,
    {
        let json = encode_payload(new_payload_msg);
        let use_gzip = match config.use_gzip {
            Some(b) => b,
            None => false,
        };
        let bytes: Vec<u8>;
        if use_gzip {
            match gzip_compress(json.as_slice()) {
                Some(z) => {
                    bytes = z;
                },
                None => {
                    proof {
                        assert(false);
                    }
                    bytes = Vec::new();
                },
            }
        } else {
            bytes = json;
        }
        let ghost payload_bytes = bytes@;
        let cs = config.chunk_size as usize;
        if bytes.len() <= cs - WIRE_OVERHEAD {
            proof {
                lemma_small_body_no_overflow(bytes@.len() as usize, config.chunk_size);
            }
            let src = self.pkg_src();
            *self = GelfMessageWrapper::Simple(GelfPacket::new_simple(bytes, src));
            proof {
                assert(payload_bytes.len() + WIRE_OVERHEAD <= config.chunk_size);
                assert(spec_rechunk_ok(
                    *old(self),
                    *self,
                    payload_bytes,
                    config.chunk_size,
                    clock_nanos,
                    now_seconds,
                ));
            }
            Ok(())
        } else {
            let (count, sizes) = calculate_packet_sizes(bytes.len(), cs - CHUNK_OVERHEAD);
            if count > 255 {
                proof {
                    assert(sizes@ == spec_packet_sizes(
                        payload_bytes.len() as usize,
                        (config.chunk_size - CHUNK_OVERHEAD) as usize,
                    ));
                    if use_gzip {
                        assert(spec_is_gzipped(payload_bytes));
                        assert(spec_packet_sizes(
                            payload_bytes.len() as usize,
                            (config.chunk_size - CHUNK_OVERHEAD) as usize,
                        ).len() > 255);
                    } else {
                        assert(payload_bytes == spec_encode(new_payload_msg@));
                    }
                    assert(spec_rechunk_overflow(
                        spec_encode(new_payload_msg@),
                        config.use_gzip == Some(true),
                        config.chunk_size,
                    ));
                }
                return Err(EncodeError::TooManyChunks);
            }
            let id = match self.pkg_id() {
                Some(i) => i,
                None => generate_message_id(clock_nanos),
            };
            let src = self.pkg_src();
            let mut datas = create_packets(bytes.as_slice(), &sizes, id);
            let ghost all_datas = datas@;
            let mut chunks: Vec<GelfPacket> = Vec::new();
            let mut seq_no: usize = 0;
            while datas.len() > 0
                invariant
                    all_datas.len() == count <= 255,
                    seq_no + datas@.len() == count,
                    datas@ =~= all_datas.subrange(seq_no as int, count as int),
                    chunks@.len() == seq_no,
                    forall|i: int|
                        0 <= i < seq_no ==> {
                            let p = #[trigger] chunks@[i];
                            &&& p.data@ == all_datas[i]@
                            &&& p.message_id == id
                            &&& p.sequence_number == i as u8
                            &&& p.total_chunks == count as u8
                            &&& p.source_ip == src
                        },
                decreases datas@.len(),
            {
                let d = datas.remove(0);
                proof {
                    assert(d@ == all_datas[seq_no as int]@);
                }
                chunks.push(GelfPacket::new_chunked(d, id, seq_no as u8, count as u8, src));
                seq_no = seq_no + 1;
                proof {
                    assert(datas@ =~= all_datas.subrange(seq_no as int, count as int));
                }
            }
            *self = GelfMessageWrapper::Chunked(
                GelfChunkedMessage {
                    id,
                    arrival_time: now_seconds,
                    expected_max_chunks: count,
                    chunks,
                },
            );
            proof {
                if count == 0 {
                    assert(sizes@ =~= Seq::<usize>::empty());
                    assert(crate::gelf::sum_sizes(sizes@) == 0);
                    assert(false);
                }
                assert(!(payload_bytes.len() + WIRE_OVERHEAD <= config.chunk_size));
                assert(spec_rechunk_ok(
                    *old(self),
                    *self,
                    payload_bytes,
                    config.chunk_size,
                    clock_nanos,
                    now_seconds,
                ));
            }
            Ok(())
        }
    }
}

} // verus!
