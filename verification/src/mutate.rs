//! In-flight payload rewriting: attaching the original source address,
//! stripping fields, and blanking string values.

use vstd::prelude::*;

use vstd::string::StringSliceAdditionalSpecFns;
use vstd::utf8::encode_utf8;

use crate::payload::{
    bytes_eq, copy_bytes, entries_view, spec_is_string_text, GelfMessage, GelfMessageView,
};

verus! {

/// The name of the additional field that carries the original sender's
/// address.
pub open spec fn spec_source_addr_key() -> Seq<u8> {
    ("_gelflb_original_source_addr").spec_bytes()
}

/// The replacement JSON text for a blanked string value: `"******"`.
pub open spec fn spec_masked_text() -> Seq<u8> {
    seq![0x22u8, 0x2au8, 0x2au8, 0x2au8, 0x2au8, 0x2au8, 0x2au8, 0x22u8]
}

/// Whether some additional field carries this name.
pub open spec fn spec_has_field(fs: Seq<(Seq<u8>, Seq<u8>)>, name: Seq<u8>) -> bool {
    exists|i: int| 0 <= i < fs.len() && (#[trigger] fs[i]).0 == name
}

/// Attach the sender's IP address under the source-address key, unless a
/// field of that name is already present. The address text is spliced in
/// as a plain JSON string; every other part of the record is unchanged.
pub fn attach_source_info(m: &mut GelfMessage, src_ip_text: &Vec<u8>)
    ensures
        final(m)@ == (GelfMessageView {
            additional_fields: if spec_has_field(old(m)@.additional_fields, spec_source_addr_key()) {
                old(m)@.additional_fields
            } else {
                old(m)@.additional_fields.push(
                    (spec_source_addr_key(), seq![0x22u8] + src_ip_text@ + seq![0x22u8]),
                )
            },
            ..old(m)@
        }),
{
    let key = "_gelflb_original_source_addr".as_bytes();
    let n = m.additional_fields.len();
    let mut found = false;
    for i in 0..n
        invariant
            n == m.additional_fields@.len(),
            *m == *old(m),
            key@ == spec_source_addr_key(),
            found == exists|j: int|
                0 <= j < i && (#[trigger] m@.additional_fields[j]).0 == spec_source_addr_key(),
    {
        if bytes_eq(m.additional_fields[i].0.as_slice(), key) {
            proof {
                assert(m@.additional_fields[i as int].0 == spec_source_addr_key());
            }
            found = true;
        }
    }
    if !found {
        let mut value: Vec<u8> = Vec::new();
        value.push(0x22);
        value.extend_from_slice(src_ip_text.as_slice());
        value.push(0x22);
        let key_owned = copy_bytes(key);
        m.additional_fields.push((key_owned, value));
        proof {
            assert(value@ =~= seq![0x22u8] + src_ip_text@ + seq![0x22u8]);
            assert(m@.additional_fields =~= old(m)@.additional_fields.push(
                (spec_source_addr_key(), seq![0x22u8] + src_ip_text@ + seq![0x22u8]),
            ));
        }
    }
    proof {
        assert(final(m)@ == (GelfMessageView {
            additional_fields: if spec_has_field(old(m)@.additional_fields, spec_source_addr_key()) {
                old(m)@.additional_fields
            } else {
                old(m)@.additional_fields.push(
                    (spec_source_addr_key(), seq![0x22u8] + src_ip_text@ + seq![0x22u8]),
                )
            },
            ..old(m)@
        }));
    }
}

/// Whether the strip list names this field: some entry, prefixed with
/// an underscore, equals the field's name — the same convention the
/// blank list uses.
pub open spec fn spec_stripped(strip: Seq<String>, key: Seq<u8>) -> bool {
    exists|i: int|
        0 <= i < strip.len() && key == seq![0x5fu8] + encode_utf8((#[trigger] strip[i])@)
}

/// The predicate on which stripping keeps an additional field.
pub open spec fn spec_strip_keep(strip: Seq<String>) -> spec_fn((Seq<u8>, Seq<u8>)) -> bool {
    |p: (Seq<u8>, Seq<u8>)| !spec_stripped(strip, p.0)
}

fn is_stripped(strip: &Vec<String>, key: &[u8]) -> (r: bool)
    ensures
        r == spec_stripped(strip@, key@),
{
    let n = strip.len();
    for i in 0..n
        invariant
            n == strip@.len(),
            forall|j: int| 0 <= j < i ==> key@ != seq![0x5fu8] + encode_utf8(
                (#[trigger] strip@[j])@,
            ),
    {
        if key_is_underscored_name(key, &strip[i]) {
            proof {
                assert(key@ == seq![0x5fu8] + encode_utf8(strip@[i as int]@));
            }
            return true;
        }
    }
    false
}

/// Remove every additional field that the strip list names: a listed
/// name, prefixed with an underscore, matches the field of that name,
/// just as blanking matches its targets. The surviving fields keep
/// their order, and every other part of the record is unchanged.
pub fn strip_fields_apply(m: &mut GelfMessage, strip: &Vec<String>)
    ensures
        final(m)@ == (GelfMessageView {
            additional_fields: old(m)@.additional_fields.filter(spec_strip_keep(strip@)),
            ..old(m)@
        }),
{
    let ghost fs0 = m@.additional_fields;
    let mut kept: Vec<(Vec<u8>, Vec<u8>)> = Vec::new();
    let n = m.additional_fields.len();
    proof {
        reveal(Seq::filter);
        assert(fs0.subrange(0, 0) =~= Seq::<(Seq<u8>, Seq<u8>)>::empty());
        assert(entries_view(kept@) =~= fs0.subrange(0, 0).filter(spec_strip_keep(strip@)));
    }
    for i in 0..n
        invariant
            n == m.additional_fields@.len(),
            *m == *old(m),
            fs0 == m@.additional_fields,
            entries_view(kept@) == fs0.subrange(0, i as int).filter(spec_strip_keep(strip@)),
    {
        let ghost pre = fs0.subrange(0, i as int);
        let ghost acc = entries_view(kept@);
        let hit = is_stripped(strip, m.additional_fields[i].0.as_slice());
        if !hit {
            let k = copy_bytes(m.additional_fields[i].0.as_slice());
            let v = copy_bytes(m.additional_fields[i].1.as_slice());
            kept.push((k, v));
            proof {
                assert(entries_view(kept@) =~= acc.push(fs0[i as int]));
            }
        }
        proof {
            reveal(Seq::filter);
            assert(fs0.subrange(0, i + 1).drop_last() =~= pre);
            assert(fs0.subrange(0, i + 1).last() == fs0[i as int]);
            assert(spec_strip_keep(strip@)(fs0[i as int]) == !spec_stripped(
                strip@,
                fs0[i as int].0,
            ));
            assert(fs0[i as int].0 == m.additional_fields@[i as int].0@);
            assert(entries_view(kept@) =~= fs0.subrange(0, i + 1).filter(spec_strip_keep(strip@)));
        }
    }
    proof {
        assert(fs0.subrange(0, n as int) =~= fs0);
    }
    m.additional_fields = kept;
    proof {
        assert(final(m)@ == (GelfMessageView {
            additional_fields: old(m)@.additional_fields.filter(spec_strip_keep(strip@)),
            ..old(m)@
        }));
    }
}

/// What blanking one configured name does to one field: when the field's
/// name is the configured name prefixed with an underscore and its value
/// is a string, the value becomes `"******"`; otherwise the field is
/// unchanged.
pub open spec fn spec_blank_pair(p: (Seq<u8>, Seq<u8>), name: Seq<char>) -> (Seq<u8>, Seq<u8>) {
    if p.0 == seq![0x5fu8] + encode_utf8(name) && spec_is_string_text(p.1) {
        (p.0, spec_masked_text())
    } else {
        p
    }
}

pub open spec fn spec_blank_one(fs: Seq<(Seq<u8>, Seq<u8>)>, name: Seq<char>) -> Seq<
    (Seq<u8>, Seq<u8>),
> {
    Seq::new(fs.len(), |i: int| spec_blank_pair(fs[i], name))
}

/// The blank list applied in order, each name a full pass.
pub open spec fn spec_blank_all(fs: Seq<(Seq<u8>, Seq<u8>)>, blank: Seq<String>) -> Seq<
    (Seq<u8>, Seq<u8>),
>
    decreases blank.len(),
{
    if blank.len() == 0 {
        fs
    } else {
        spec_blank_one(spec_blank_all(fs, blank.drop_last()), blank.last()@)
    }
}

/// Whether the blank list names this field: some entry, prefixed with
/// an underscore, equals the field's name.
pub open spec fn spec_blank_named(blank: Seq<String>, key: Seq<u8>) -> bool {
    exists|b: int|
        0 <= b < blank.len() && key == seq![0x5fu8] + encode_utf8((#[trigger] blank[b])@)
}

/// Whether `key` equals `name` prefixed with an underscore.
fn key_is_underscored_name(key: &[u8], name: &String) -> (r: bool)
    ensures
        r == (key@ == seq![0x5fu8] + encode_utf8(name@)),
{
    if key.len() == 0 || key[0] != 0x5f {
        proof {
            if key@ == seq![0x5fu8] + encode_utf8(name@) {
                assert(key@[0] == 0x5f);
            }
        }
        return false;
    }
    let b = name.as_str().as_bytes();
    let hit = bytes_eq(&key[1..key.len()], b);
    proof {
        if hit {
            assert(key@ =~= seq![0x5fu8] + encode_utf8(name@));
        }
        if key@ == seq![0x5fu8] + encode_utf8(name@) {
            assert(key@.subrange(1, key@.len() as int) =~= encode_utf8(name@));
        }
    }
    hit
}

fn blank_one_name(fields: &mut Vec<(Vec<u8>, Vec<u8>)>, name: &String)
    ensures
        entries_view(final(fields)@) == spec_blank_one(entries_view(old(fields)@), name@),
{
    let n = fields.len();
    for j in 0..n
        invariant
            n == fields@.len(),
            fields@.len() == old(fields)@.len(),
            forall|k: int|
                0 <= k < j ==> (#[trigger] entries_view(fields@)[k]) == spec_blank_pair(
                    entries_view(old(fields)@)[k],
                    name@,
                ),
            forall|k: int|
                j <= k < n ==> (#[trigger] fields@[k]) == old(fields)@[k],
    {
        let ghost fs_entry = fields@;
        let hit = key_is_underscored_name(fields[j].0.as_slice(), name);
        let is_string = fields[j].1.len() >= 1 && fields[j].1[0] == 0x22;
        if hit && is_string {
            let mut masked: Vec<u8> = Vec::new();
            masked.push(0x22);
            masked.push(0x2a);
            masked.push(0x2a);
            masked.push(0x2a);
            masked.push(0x2a);
            masked.push(0x2a);
            masked.push(0x2a);
            masked.push(0x22);
            proof {
                assert(masked@ =~= spec_masked_text());
            }
            let pair = &mut fields[j];
            pair.1 = masked;
        }
        proof {
            assert(entries_view(fields@)[j as int] == spec_blank_pair(
                entries_view(old(fields)@)[j as int],
                name@,
            ));
            assert forall|k: int|
                0 <= k < j + 1 implies (#[trigger] entries_view(fields@)[k]) == spec_blank_pair(
                entries_view(old(fields)@)[k],
                name@,
            ) by {
                if k < j {
                    assert(fields@[k] == fs_entry[k]);
                    assert(entries_view(fs_entry)[k] == spec_blank_pair(
                        entries_view(old(fields)@)[k],
                        name@,
                    ));
                }
            }
            assert forall|k: int| j + 1 <= k < n implies (#[trigger] fields@[k]) == old(
                fields,
            )@[k] by {
                assert(fields@[k] == fs_entry[k]);
            }
        }
    }
    proof {
        assert(entries_view(fields@) =~= spec_blank_one(entries_view(old(fields)@), name@));
    }
}

/// For each configured name, blank the string value of the field whose
/// name equals it prefixed with an underscore; non-string values and all
/// other parts of the record are unchanged.
pub fn blank_fields_apply(m: &mut GelfMessage, blank: &Vec<String>)
    ensures
        final(m)@ == (GelfMessageView {
            additional_fields: spec_blank_all(old(m)@.additional_fields, blank@),
            ..old(m)@
        }),
{
    let n = blank.len();
    proof {
        assert(blank@.subrange(0, 0) =~= Seq::<String>::empty());
    }
    for i in 0..n
        invariant
            n == blank@.len(),
            m.version == old(m).version,
            m.host == old(m).host,
            m.short_message == old(m).short_message,
            m.full_message == old(m).full_message,
            m.timestamp == old(m).timestamp,
            m.level == old(m).level,
            m.facility == old(m).facility,
            m.file == old(m).file,
            m.line == old(m).line,
            m@.additional_fields == spec_blank_all(
                old(m)@.additional_fields,
                blank@.subrange(0, i as int),
            ),
    {
        let ghost pre = blank@.subrange(0, i as int);
        blank_one_name(&mut m.additional_fields, &blank[i]);
        proof {
            assert(blank@.subrange(0, i + 1).drop_last() =~= pre);
            assert(blank@.subrange(0, i + 1).last() == blank@[i as int]);
        }
    }
    proof {
        assert(blank@.subrange(0, n as int) =~= blank@);
        assert(final(m)@ == (GelfMessageView {
            additional_fields: spec_blank_all(old(m)@.additional_fields, blank@),
            ..old(m)@
        }));
    }
}

} // verus!
