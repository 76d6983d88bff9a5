//! The record payload encoding: a self-describing binary serialization of
//! metadata and vector records.  Every multi-byte integer in a payload is
//! little-endian; every string is an 8-byte length prefix followed by its
//! UTF-8 bytes; every field value carries a one-byte variant tag.
//!
//! Serialization and parsing are written against spec-level encoders and
//! parsers, and parsing a serialized record is proved to yield the record
//! back (see [`lemma_meta_round_trip`] and [`lemma_vector_round_trip`]).

use vstd::prelude::*;
use vstd::bytes::*;
use vstd::utf8::{encode_utf8, decode_utf8, valid_utf8};
use vstd::slice::{slice_subrange, slice_to_vec};
use vstd::string::StrSliceExecFns;
use crate::metadata::{
    FieldValue, FieldV, MetaData, MetaDataV, fields_view, spec_string_size,
    spec_field_value_size, spec_fields_size, spec_meta_size,
};
use crate::record::{RecordId, VectorRecord, VectorRecordV};

verus! {

/// Variant tag of a UUID field value.
pub const TAG_UUID: u8 = 0;

/// Variant tag of a string field value.
pub const TAG_STRING: u8 = 1;

/// Variant tag of a u8 field value.
pub const TAG_U8: u8 = 2;

/// Variant tag of a u16 field value.
pub const TAG_U16: u8 = 3;

/// Variant tag of a u32 field value.
pub const TAG_U32: u8 = 4;

/// Variant tag of a u64 field value.
pub const TAG_U64: u8 = 5;

/// Variant tag of an i8 field value.
pub const TAG_I8: u8 = 6;

/// Variant tag of an i16 field value.
pub const TAG_I16: u8 = 7;

/// Variant tag of an i32 field value.
pub const TAG_I32: u8 = 8;

/// Variant tag of an i64 field value.
pub const TAG_I64: u8 = 9;

/// Variant tag of a 32-bit floating-point field value (stored as bits).
pub const TAG_F32: u8 = 10;

/// Variant tag of a 64-bit floating-point field value (stored as bits).
pub const TAG_F64: u8 = 11;

// ---------------------------------------------------------------------------
// Well-formedness: every string in a record must be length-prefixable.
// ---------------------------------------------------------------------------

/// A string value is well formed when its UTF-8 length fits the 8-byte prefix.
pub open spec fn spec_string_wf(s: Seq<char>) -> bool {
    encode_utf8(s).len() <= u64::MAX
}

/// A field value is well formed when any string it carries is.
pub open spec fn spec_field_value_wf(v: FieldV) -> bool {
    match v {
        FieldV::StringValue(s) => spec_string_wf(s),
        _ => true,
    }
}

/// A field list is well formed when every key and value is.
pub open spec fn spec_fields_wf(fs: Seq<(Seq<char>, FieldV)>) -> bool {
    forall|i: int|
        0 <= i < fs.len() ==> spec_string_wf(#[trigger] fs[i].0) && spec_field_value_wf(fs[i].1)
}

/// A metadata record is well formed when all its strings are.
pub open spec fn spec_meta_wf(m: MetaDataV) -> bool {
    spec_string_wf(m.original_text) && spec_fields_wf(m.custom_fields)
}

// ---------------------------------------------------------------------------
// Spec-level encoders.
// ---------------------------------------------------------------------------

/// Encoding of one string value: 8-byte length prefix, then UTF-8 bytes.
pub open spec fn spec_ser_string(s: Seq<char>) -> Seq<u8>
    recommends
        spec_string_wf(s),
{
    spec_u64_to_le_bytes(encode_utf8(s).len() as u64) + encode_utf8(s)
}

/// Encoding of one field value: variant tag, then fixed or length-prefixed payload.
pub open spec fn spec_ser_field_value(v: FieldV) -> Seq<u8>
    recommends
        spec_field_value_wf(v),
{
    match v {
        FieldV::UUIDValue(u) => seq![TAG_UUID] + spec_u128_to_le_bytes(u),
        FieldV::StringValue(s) => seq![TAG_STRING] + spec_ser_string(s),
        FieldV::U8Value(x) => seq![TAG_U8, x],
        FieldV::U16Value(x) => seq![TAG_U16] + spec_u16_to_le_bytes(x),
        FieldV::U32Value(x) => seq![TAG_U32] + spec_u32_to_le_bytes(x),
        FieldV::U64Value(x) => seq![TAG_U64] + spec_u64_to_le_bytes(x),
        FieldV::I8Value(x) => seq![TAG_I8, x as u8],
        FieldV::I16Value(x) => seq![TAG_I16] + spec_u16_to_le_bytes(x as u16),
        FieldV::I32Value(x) => seq![TAG_I32] + spec_u32_to_le_bytes(x as u32),
        FieldV::I64Value(x) => seq![TAG_I64] + spec_u64_to_le_bytes(x as u64),
        FieldV::F32Value(x) => seq![TAG_F32] + spec_u32_to_le_bytes(x),
        FieldV::F64Value(x) => seq![TAG_F64] + spec_u64_to_le_bytes(x),
    }
}

/// Encoding of a field list: each key then its tagged value, in list order.
pub open spec fn spec_ser_fields(fs: Seq<(Seq<char>, FieldV)>) -> Seq<u8>
    decreases fs.len(),
{
    if fs.len() == 0 {
        Seq::empty()
    } else {
        spec_ser_string(fs[0].0) + spec_ser_field_value(fs[0].1) + spec_ser_fields(
            fs.drop_first(),
        )
    }
}

/// Encoding of a whole metadata record.
pub open spec fn spec_ser_meta(m: MetaDataV) -> Seq<u8> {
    spec_u128_to_le_bytes(m.id) + spec_ser_string(m.original_text) + spec_u64_to_le_bytes(
        m.vector_offset,
    ) + spec_ser_fields(m.custom_fields)
}

/// Encoding of a list of vector components.
pub open spec fn spec_ser_values(vs: Seq<u32>) -> Seq<u8>
    decreases vs.len(),
{
    if vs.len() == 0 {
        Seq::empty()
    } else {
        spec_u32_to_le_bytes(vs[0]) + spec_ser_values(vs.drop_first())
    }
}

/// Encoding of a whole vector record: identifier, then the components.
pub open spec fn spec_ser_vector(v: VectorRecordV) -> Seq<u8> {
    spec_u128_to_le_bytes(v.id) + spec_ser_values(v.values)
}

// ---------------------------------------------------------------------------
// Spec-level parsers.  Each consumes a prefix and returns the rest.
// ---------------------------------------------------------------------------

pub open spec fn spec_parse_u8(b: Seq<u8>) -> Option<(u8, Seq<u8>)> {
    if b.len() >= 1 {
        Some((b[0], b.skip(1)))
    } else {
        None
    }
}

pub open spec fn spec_parse_u16(b: Seq<u8>) -> Option<(u16, Seq<u8>)> {
    if b.len() >= 2 {
        Some((spec_u16_from_le_bytes(b.take(2)), b.skip(2)))
    } else {
        None
    }
}

pub open spec fn spec_parse_u32(b: Seq<u8>) -> Option<(u32, Seq<u8>)> {
    if b.len() >= 4 {
        Some((spec_u32_from_le_bytes(b.take(4)), b.skip(4)))
    } else {
        None
    }
}

pub open spec fn spec_parse_u64(b: Seq<u8>) -> Option<(u64, Seq<u8>)> {
    if b.len() >= 8 {
        Some((spec_u64_from_le_bytes(b.take(8)), b.skip(8)))
    } else {
        None
    }
}

pub open spec fn spec_parse_u128(b: Seq<u8>) -> Option<(u128, Seq<u8>)> {
    if b.len() >= 16 {
        Some((spec_u128_from_le_bytes(b.take(16)), b.skip(16)))
    } else {
        None
    }
}

pub open spec fn spec_parse_string(b: Seq<u8>) -> Option<(Seq<char>, Seq<u8>)> {
    if b.len() < 8 {
        None
    } else {
        let n = spec_u64_from_le_bytes(b.take(8)) as int;
        if 8 + n <= b.len() {
            let sb = b.subrange(8, 8 + n);
            if valid_utf8(sb) {
                Some((decode_utf8(sb), b.skip(8 + n)))
            } else {
                None
            }
        } else {
            None
        }
    }
}

pub open spec fn spec_parse_field_value(b: Seq<u8>) -> Option<(FieldV, Seq<u8>)> {
    if b.len() < 1 {
        None
    } else {
        let tag = b[0];
        let r = b.skip(1);
        if tag == TAG_UUID {
            match spec_parse_u128(r) {
                Some((x, rest)) => Some((FieldV::UUIDValue(x), rest)),
                None => None,
            }
        } else if tag == TAG_STRING {
            match spec_parse_string(r) {
                Some((s, rest)) => Some((FieldV::StringValue(s), rest)),
                None => None,
            }
        } else if tag == TAG_U8 {
            match spec_parse_u8(r) {
                Some((x, rest)) => Some((FieldV::U8Value(x), rest)),
                None => None,
            }
        } else if tag == TAG_U16 {
            match spec_parse_u16(r) {
                Some((x, rest)) => Some((FieldV::U16Value(x), rest)),
                None => None,
            }
        } else if tag == TAG_U32 {
            match spec_parse_u32(r) {
                Some((x, rest)) => Some((FieldV::U32Value(x), rest)),
                None => None,
            }
        } else if tag == TAG_U64 {
            match spec_parse_u64(r) {
                Some((x, rest)) => Some((FieldV::U64Value(x), rest)),
                None => None,
            }
        } else if tag == TAG_I8 {
            match spec_parse_u8(r) {
                Some((x, rest)) => Some((FieldV::I8Value(x as i8), rest)),
                None => None,
            }
        } else if tag == TAG_I16 {
            match spec_parse_u16(r) {
                Some((x, rest)) => Some((FieldV::I16Value(x as i16), rest)),
                None => None,
            }
        } else if tag == TAG_I32 {
            match spec_parse_u32(r) {
                Some((x, rest)) => Some((FieldV::I32Value(x as i32), rest)),
                None => None,
            }
        } else if tag == TAG_I64 {
            match spec_parse_u64(r) {
                Some((x, rest)) => Some((FieldV::I64Value(x as i64), rest)),
                None => None,
            }
        } else if tag == TAG_F32 {
            match spec_parse_u32(r) {
                Some((x, rest)) => Some((FieldV::F32Value(x), rest)),
                None => None,
            }
        } else if tag == TAG_F64 {
            match spec_parse_u64(r) {
                Some((x, rest)) => Some((FieldV::F64Value(x), rest)),
                None => None,
            }
        } else {
            None
        }
    }
}

/// Parse fields until the input is exhausted; any leftover that does not
/// parse as a field makes the whole record malformed.
pub open spec fn spec_parse_fields(b: Seq<u8>) -> Option<Seq<(Seq<char>, FieldV)>>
    decreases b.len(),
{
    if b.len() == 0 {
        Some(Seq::empty())
    } else {
        match spec_parse_string(b) {
            None => None,
            Some((k, r1)) => match spec_parse_field_value(r1) {
                None => None,
                Some((v, r2)) => if r2.len() < b.len() {
                    match spec_parse_fields(r2) {
                        None => None,
                        Some(rest) => Some(seq![(k, v)] + rest),
                    }
                } else {
                    None
                },
            },
        }
    }
}

/// Parse a whole metadata record from exactly the given bytes.
pub open spec fn spec_deser_meta(b: Seq<u8>) -> Option<MetaDataV> {
    match spec_parse_u128(b) {
        None => None,
        Some((id, r1)) => match spec_parse_string(r1) {
            None => None,
            Some((text, r2)) => match spec_parse_u64(r2) {
                None => None,
                Some((off, r3)) => match spec_parse_fields(r3) {
                    None => None,
                    Some(fs) => Some(
                        MetaDataV {
                            id,
                            original_text: text,
                            vector_offset: off,
                            custom_fields: fs,
                        },
                    ),
                },
            },
        },
    }
}

/// Parse vector components until the input is exhausted.
pub open spec fn spec_parse_values(b: Seq<u8>) -> Option<Seq<u32>>
    decreases b.len(),
{
    if b.len() == 0 {
        Some(Seq::empty())
    } else if b.len() >= 4 {
        match spec_parse_values(b.skip(4)) {
            None => None,
            Some(rest) => Some(seq![spec_u32_from_le_bytes(b.take(4))] + rest),
        }
    } else {
        None
    }
}

/// Parse a whole vector record from exactly the given bytes.
pub open spec fn spec_deser_vector(b: Seq<u8>) -> Option<VectorRecordV> {
    match spec_parse_u128(b) {
        None => None,
        Some((id, r1)) => match spec_parse_values(r1) {
            None => None,
            Some(vs) => Some(VectorRecordV { id, values: vs }),
        },
    }
}

// ---------------------------------------------------------------------------
// Round-trip proofs: parsing a serialized value yields the value back.
// ---------------------------------------------------------------------------

proof fn lemma_parse_u16_ser(x: u16, rest: Seq<u8>)
    ensures
        spec_parse_u16(spec_u16_to_le_bytes(x) + rest) == Some((x, rest)),
{
    lemma_auto_spec_u16_to_from_le_bytes();
    let b = spec_u16_to_le_bytes(x) + rest;
    assert(b.take(2) =~= spec_u16_to_le_bytes(x));
    assert(b.skip(2) =~= rest);
}

proof fn lemma_parse_u32_ser(x: u32, rest: Seq<u8>)
    ensures
        spec_parse_u32(spec_u32_to_le_bytes(x) + rest) == Some((x, rest)),
{
    lemma_auto_spec_u32_to_from_le_bytes();
    let b = spec_u32_to_le_bytes(x) + rest;
    assert(b.take(4) =~= spec_u32_to_le_bytes(x));
    assert(b.skip(4) =~= rest);
}

proof fn lemma_parse_u64_ser(x: u64, rest: Seq<u8>)
    ensures
        spec_parse_u64(spec_u64_to_le_bytes(x) + rest) == Some((x, rest)),
{
    lemma_auto_spec_u64_to_from_le_bytes();
    let b = spec_u64_to_le_bytes(x) + rest;
    assert(b.take(8) =~= spec_u64_to_le_bytes(x));
    assert(b.skip(8) =~= rest);
}

proof fn lemma_parse_u128_ser(x: u128, rest: Seq<u8>)
    ensures
        spec_parse_u128(spec_u128_to_le_bytes(x) + rest) == Some((x, rest)),
{
    lemma_auto_spec_u128_to_from_le_bytes();
    let b = spec_u128_to_le_bytes(x) + rest;
    assert(b.take(16) =~= spec_u128_to_le_bytes(x));
    assert(b.skip(16) =~= rest);
}

proof fn lemma_parse_string_ser(s: Seq<char>, rest: Seq<u8>)
    requires
        spec_string_wf(s),
    ensures
        spec_parse_string(spec_ser_string(s) + rest) == Some((s, rest)),
        spec_ser_string(s).len() == spec_string_size(s),
{
    lemma_auto_spec_u64_to_from_le_bytes();
    let e = encode_utf8(s);
    let lenb = spec_u64_to_le_bytes((e.len() as u64));
    let b = spec_ser_string(s) + rest;
    assert(b =~= lenb + (e + rest));
    assert(b.take(8) =~= lenb);
    assert(spec_u64_from_le_bytes(b.take(8)) == e.len() as u64);
    assert(b.subrange(8, 8 + e.len() as int) =~= e);
    assert(b.skip(8 + e.len() as int) =~= rest);
    vstd::utf8::encode_utf8_valid_utf8(s);
    vstd::utf8::encode_utf8_decode_utf8(s);
}

proof fn lemma_parse_field_value_ser(v: FieldV, rest: Seq<u8>)
    requires
        spec_field_value_wf(v),
    ensures
        spec_parse_field_value(spec_ser_field_value(v) + rest) == Some((v, rest)),
        spec_ser_field_value(v).len() == spec_field_value_size(v),
        spec_ser_field_value(v).len() >= 1,
{
    let b = spec_ser_field_value(v) + rest;
    match v {
        FieldV::UUIDValue(x) => {
            assert(b.skip(1) =~= spec_u128_to_le_bytes(x) + rest);
            lemma_parse_u128_ser(x, rest);
            lemma_auto_spec_u128_to_from_le_bytes();
        },
        FieldV::StringValue(s) => {
            assert(b.skip(1) =~= spec_ser_string(s) + rest);
            lemma_parse_string_ser(s, rest);
        },
        FieldV::U8Value(x) => {
            assert(b.skip(1) =~= seq![x] + rest);
            assert(b.skip(1).skip(1) =~= rest);
        },
        FieldV::U16Value(x) => {
            assert(b.skip(1) =~= spec_u16_to_le_bytes(x) + rest);
            lemma_parse_u16_ser(x, rest);
            lemma_auto_spec_u16_to_from_le_bytes();
        },
        FieldV::U32Value(x) => {
            assert(b.skip(1) =~= spec_u32_to_le_bytes(x) + rest);
            lemma_parse_u32_ser(x, rest);
            lemma_auto_spec_u32_to_from_le_bytes();
        },
        FieldV::U64Value(x) => {
            assert(b.skip(1) =~= spec_u64_to_le_bytes(x) + rest);
            lemma_parse_u64_ser(x, rest);
            lemma_auto_spec_u64_to_from_le_bytes();
        },
        FieldV::I8Value(x) => {
            assert(b.skip(1) =~= seq![x as u8] + rest);
            assert(b.skip(1).skip(1) =~= rest);
            assert((x as u8) as i8 == x) by (bit_vector);
        },
        FieldV::I16Value(x) => {
            assert(b.skip(1) =~= spec_u16_to_le_bytes(x as u16) + rest);
            lemma_parse_u16_ser(x as u16, rest);
            lemma_auto_spec_u16_to_from_le_bytes();
            assert(((x as u16) as i16) == x) by (bit_vector);
        },
        FieldV::I32Value(x) => {
            assert(b.skip(1) =~= spec_u32_to_le_bytes(x as u32) + rest);
            lemma_parse_u32_ser(x as u32, rest);
            lemma_auto_spec_u32_to_from_le_bytes();
            assert(((x as u32) as i32) == x) by (bit_vector);
        },
        FieldV::I64Value(x) => {
            assert(b.skip(1) =~= spec_u64_to_le_bytes(x as u64) + rest);
            lemma_parse_u64_ser(x as u64, rest);
            lemma_auto_spec_u64_to_from_le_bytes();
            assert(((x as u64) as i64) == x) by (bit_vector);
        },
        FieldV::F32Value(x) => {
            assert(b.skip(1) =~= spec_u32_to_le_bytes(x) + rest);
            lemma_parse_u32_ser(x, rest);
            lemma_auto_spec_u32_to_from_le_bytes();
        },
        FieldV::F64Value(x) => {
            assert(b.skip(1) =~= spec_u64_to_le_bytes(x) + rest);
            lemma_parse_u64_ser(x, rest);
            lemma_auto_spec_u64_to_from_le_bytes();
        },
    }
}

proof fn lemma_parse_fields_ser(fs: Seq<(Seq<char>, FieldV)>)
    requires
        spec_fields_wf(fs),
    ensures
        spec_parse_fields(spec_ser_fields(fs)) == Some(fs),
        spec_ser_fields(fs).len() == spec_fields_size(fs),
    decreases fs.len(),
{
    if fs.len() == 0 {
        assert(spec_ser_fields(fs) =~= Seq::<u8>::empty());
        assert(spec_parse_fields(spec_ser_fields(fs)) == Some(Seq::<(Seq<char>, FieldV)>::empty()));
        assert(Some(Seq::<(Seq<char>, FieldV)>::empty()) == Some(fs));
    } else {
        let k = fs[0].0;
        let v = fs[0].1;
        let tail = fs.drop_first();
        assert(spec_fields_wf(tail)) by {
            assert(forall|i: int|
                0 <= i < tail.len() ==> #[trigger] tail[i] == fs[i + 1]);
        }
        let b = spec_ser_fields(fs);
        let after_k = spec_ser_field_value(v) + spec_ser_fields(tail);
        assert(b =~= spec_ser_string(k) + after_k);
        lemma_parse_string_ser(k, after_k);
        lemma_parse_field_value_ser(v, spec_ser_fields(tail));
        lemma_parse_fields_ser(tail);
        assert(b.len() > 0);
        assert(spec_parse_string(b) == Some((k, after_k)));
        assert(spec_parse_field_value(after_k) == Some((v, spec_ser_fields(tail))));
        assert(spec_ser_fields(tail).len() < b.len());
        assert(seq![(k, v)] + tail =~= fs);
    }
}

/// Round trip for metadata records: parsing a serialized record yields
/// exactly the record that was serialized.
pub proof fn lemma_meta_round_trip(m: MetaDataV)
    requires
        spec_meta_wf(m),
    ensures
        spec_deser_meta(spec_ser_meta(m)) == Some(m),
{
    let b = spec_ser_meta(m);
    let r1 = spec_ser_string(m.original_text) + (spec_u64_to_le_bytes(m.vector_offset)
        + spec_ser_fields(m.custom_fields));
    assert(b =~= spec_u128_to_le_bytes(m.id) + r1);
    lemma_parse_u128_ser(m.id, r1);
    let r2 = spec_u64_to_le_bytes(m.vector_offset) + spec_ser_fields(m.custom_fields);
    lemma_parse_string_ser(m.original_text, r2);
    lemma_parse_u64_ser(m.vector_offset, spec_ser_fields(m.custom_fields));
    lemma_parse_fields_ser(m.custom_fields);
}

/// The metadata size encoder agrees with the serializer: the computed size
/// is exactly the serialized byte length.
pub proof fn lemma_meta_size_is_ser_len(m: MetaDataV)
    ensures
        spec_ser_meta(m).len() == spec_meta_size(m),
    decreases m.custom_fields.len(),
{
    lemma_auto_spec_u64_to_from_le_bytes();
    lemma_auto_spec_u128_to_from_le_bytes();
    lemma_ser_fields_len(m.custom_fields);
}

/// The field-list encoder emits exactly as many bytes as the size encoder counts.
proof fn lemma_ser_fields_len(fs: Seq<(Seq<char>, FieldV)>)
    ensures
        spec_ser_fields(fs).len() == spec_fields_size(fs),
    decreases fs.len(),
{
    if fs.len() == 0 {
    } else {
        lemma_ser_fields_len(fs.drop_first());
        lemma_auto_spec_u64_to_from_le_bytes();
        lemma_ser_field_value_len(fs[0].1);
    }
}

proof fn lemma_ser_field_value_len(v: FieldV)
    ensures
        spec_ser_field_value(v).len() == spec_field_value_size(v),
{
    lemma_auto_spec_u16_to_from_le_bytes();
    lemma_auto_spec_u32_to_from_le_bytes();
    lemma_auto_spec_u64_to_from_le_bytes();
    lemma_auto_spec_u128_to_from_le_bytes();
}

proof fn lemma_parse_values_ser(vs: Seq<u32>)
    ensures
        spec_parse_values(spec_ser_values(vs)) == Some(vs),
        spec_ser_values(vs).len() == 4 * vs.len(),
    decreases vs.len(),
{
    if vs.len() == 0 {
        assert(spec_ser_values(vs) =~= Seq::<u8>::empty());
        assert(Some(Seq::<u32>::empty()) == Some(vs));
    } else {
        let tail = vs.drop_first();
        lemma_parse_values_ser(tail);
        lemma_auto_spec_u32_to_from_le_bytes();
        let b = spec_ser_values(vs);
        assert(b.take(4) =~= spec_u32_to_le_bytes(vs[0]));
        assert(b.skip(4) =~= spec_ser_values(tail));
        assert(seq![vs[0]] + tail =~= vs);
    }
}

/// Round trip for vector records: parsing a serialized record yields
/// exactly the record that was serialized.
pub proof fn lemma_vector_round_trip(v: VectorRecordV)
    ensures
        spec_deser_vector(spec_ser_vector(v)) == Some(v),
{
    let b = spec_ser_vector(v);
    assert(b =~= spec_u128_to_le_bytes(v.id) + spec_ser_values(v.values));
    lemma_parse_u128_ser(v.id, spec_ser_values(v.values));
    lemma_parse_values_ser(v.values);
}

// ---------------------------------------------------------------------------
// Bounds: a record whose computed size fits the machine is well formed.
// ---------------------------------------------------------------------------

proof fn lemma_fields_size_ge(fs: Seq<(Seq<char>, FieldV)>, i: int)
    requires
        0 <= i < fs.len(),
    ensures
        spec_fields_size(fs) >= spec_string_size(fs[i].0) + spec_field_value_size(fs[i].1),
    decreases fs.len(),
{
    if i == 0 {
    } else {
        lemma_fields_size_ge(fs.drop_first(), i - 1);
    }
}

/// A record whose computed size fits in `usize` has every string short
/// enough for its 8-byte length prefix.
pub proof fn lemma_meta_size_wf(m: MetaDataV)
    requires
        spec_meta_size(m) <= usize::MAX,
    ensures
        spec_meta_wf(m),
{
    assert forall|i: int|
        0 <= i < m.custom_fields.len() implies spec_string_wf(
        #[trigger] m.custom_fields[i].0,
    ) && spec_field_value_wf(m.custom_fields[i].1) by {
        lemma_fields_size_ge(m.custom_fields, i);
    }
}

// ---------------------------------------------------------------------------
// Executable serializers.
// ---------------------------------------------------------------------------

fn write_u16(out: &mut Vec<u8>, x: u16)
    ensures
        final(out)@ == old(out)@ + spec_u16_to_le_bytes(x),
{
    let mut b = u16_to_le_bytes(x);
    out.append(&mut b);
}

fn write_u32(out: &mut Vec<u8>, x: u32)
    ensures
        final(out)@ == old(out)@ + spec_u32_to_le_bytes(x),
{
    let mut b = u32_to_le_bytes(x);
    out.append(&mut b);
}

fn write_u64(out: &mut Vec<u8>, x: u64)
    ensures
        final(out)@ == old(out)@ + spec_u64_to_le_bytes(x),
{
    let mut b = u64_to_le_bytes(x);
    out.append(&mut b);
}

fn write_u128(out: &mut Vec<u8>, x: u128)
    ensures
        final(out)@ == old(out)@ + spec_u128_to_le_bytes(x),
{
    let mut b = u128_to_le_bytes(x);
    out.append(&mut b);
}

fn write_string(out: &mut Vec<u8>, s: &String)
    requires
        spec_string_wf(s@),
    ensures
        final(out)@ == old(out)@ + spec_ser_string(s@),
{
    let mut sb = s.as_str().as_bytes_vec();
    let n: usize = sb.len();
    write_u64(out, n as u64);
    out.append(&mut sb);
}

fn write_field_value(out: &mut Vec<u8>, v: &FieldValue)
    requires
        spec_field_value_wf(v@),
    ensures
        final(out)@ == old(out)@ + spec_ser_field_value(v@),
{
    let ghost pre = out@;
    match v {
        FieldValue::UUIDValue(x) => {
            out.push(TAG_UUID);
            write_u128(out, *x);
            proof {
                assert(out@ =~= pre + spec_ser_field_value(v@));
            }
        },
        FieldValue::StringValue(s) => {
            out.push(TAG_STRING);
            write_string(out, s);
            proof {
                assert(out@ =~= pre + spec_ser_field_value(v@));
            }
        },
        FieldValue::U8Value(x) => {
            out.push(TAG_U8);
            out.push(*x);
            proof {
                assert(out@ =~= pre + spec_ser_field_value(v@));
            }
        },
        FieldValue::U16Value(x) => {
            out.push(TAG_U16);
            write_u16(out, *x);
            proof {
                assert(out@ =~= pre + spec_ser_field_value(v@));
            }
        },
        FieldValue::U32Value(x) => {
            out.push(TAG_U32);
            write_u32(out, *x);
            proof {
                assert(out@ =~= pre + spec_ser_field_value(v@));
            }
        },
        FieldValue::U64Value(x) => {
            out.push(TAG_U64);
            write_u64(out, *x);
            proof {
                assert(out@ =~= pre + spec_ser_field_value(v@));
            }
        },
        FieldValue::I8Value(x) => {
            out.push(TAG_I8);
            out.push(#[verifier::truncate] (*x as u8));
            proof {
                assert(out@ =~= pre + spec_ser_field_value(v@));
            }
        },
        FieldValue::I16Value(x) => {
            out.push(TAG_I16);
            write_u16(out, #[verifier::truncate] (*x as u16));
            proof {
                assert(out@ =~= pre + spec_ser_field_value(v@));
            }
        },
        FieldValue::I32Value(x) => {
            out.push(TAG_I32);
            write_u32(out, #[verifier::truncate] (*x as u32));
            proof {
                assert(out@ =~= pre + spec_ser_field_value(v@));
            }
        },
        FieldValue::I64Value(x) => {
            out.push(TAG_I64);
            write_u64(out, #[verifier::truncate] (*x as u64));
            proof {
                assert(out@ =~= pre + spec_ser_field_value(v@));
            }
        },
        FieldValue::F32Value(x) => {
            out.push(TAG_F32);
            write_u32(out, *x);
            proof {
                assert(out@ =~= pre + spec_ser_field_value(v@));
            }
        },
        FieldValue::F64Value(x) => {
            out.push(TAG_F64);
            write_u64(out, *x);
            proof {
                assert(out@ =~= pre + spec_ser_field_value(v@));
            }
        },
    }
}

/// Serialize a metadata record.  The result is exactly
/// [`spec_ser_meta`] of the record, and its length is exactly what the
/// metadata size encoder computes.
pub fn serialize_meta(m: &MetaData) -> (r: Vec<u8>)
    requires
        spec_meta_size(m@) <= usize::MAX,
    ensures
        r@ == spec_ser_meta(m@),
        r@.len() == spec_meta_size(m@),
{
    proof {
        lemma_meta_size_wf(m@);
        lemma_meta_size_is_ser_len(m@);
    }
    let mut out: Vec<u8> = Vec::new();
    write_u128(&mut out, m.id.value);
    write_string(&mut out, &m.original_text);
    write_u64(&mut out, m.vector_offset);

    let ghost all = m@.custom_fields;
    let ghost header = out@;
    proof {
        assert(all.skip(0) =~= all);
        assert(out@ + spec_ser_fields(all.skip(0)) =~= spec_ser_meta(m@));
    }
    let mut i: usize = 0;
    while i < m.custom_fields.len()
        invariant
            0 <= i <= m.custom_fields.len(),
            all == m@.custom_fields,
            all.len() == m.custom_fields.len(),
            spec_fields_wf(all),
            out@ + spec_ser_fields(all.skip(i as int)) == spec_ser_meta(m@),
        decreases m.custom_fields.len() - i,
    {
        let (key, value) = &m.custom_fields[i];
        proof {
            let rest = all.skip(i as int);
            assert(rest[0] == all[i as int]);
            assert(all[i as int] == (key@, value@));
            assert(rest.drop_first() =~= all.skip(i as int + 1));
            assert(spec_ser_fields(rest) == spec_ser_string(key@) + spec_ser_field_value(value@)
                + spec_ser_fields(all.skip(i as int + 1)));
        }
        let ghost before = out@;
        write_string(&mut out, key);
        write_field_value(&mut out, value);
        proof {
            assert(out@ + spec_ser_fields(all.skip(i as int + 1)) =~= before + spec_ser_fields(
                all.skip(i as int),
            ));
        }
        i = i + 1;
    }
    proof {
        assert(all.skip(all.len() as int) =~= Seq::<(Seq<char>, FieldV)>::empty());
        assert(out@ =~= spec_ser_meta(m@));
    }
    out
}

/// Serialize a vector record.  The result is exactly [`spec_ser_vector`]
/// of the record.
pub fn serialize_vector(v: &VectorRecord) -> (r: Vec<u8>)
    ensures
        r@ == spec_ser_vector(v@),
{
    let mut out: Vec<u8> = Vec::new();
    write_u128(&mut out, v.id.value);
    let ghost all = v@.values;
    proof {
        assert(all.skip(0) =~= all);
        assert(out@ + spec_ser_values(all.skip(0)) =~= spec_ser_vector(v@));
    }
    let mut i: usize = 0;
    while i < v.values.len()
        invariant
            0 <= i <= v.values.len(),
            all == v@.values,
            all.len() == v.values.len(),
            out@ + spec_ser_values(all.skip(i as int)) == spec_ser_vector(v@),
        decreases v.values.len() - i,
    {
        proof {
            let rest = all.skip(i as int);
            assert(rest[0] == all[i as int]);
            assert(rest.drop_first() =~= all.skip(i as int + 1));
        }
        let ghost before = out@;
        write_u32(&mut out, v.values[i]);
        proof {
            assert(out@ + spec_ser_values(all.skip(i as int + 1)) =~= before + spec_ser_values(
                all.skip(i as int),
            ));
        }
        i = i + 1;
    }
    proof {
        assert(all.skip(all.len() as int) =~= Seq::<u32>::empty());
        assert(out@ =~= spec_ser_vector(v@));
    }
    out
}

// ---------------------------------------------------------------------------
// Executable parsers.  Each mirrors its spec-level parser exactly.
// ---------------------------------------------------------------------------

/// Relies on `String::from_utf8` of std: it succeeds exactly on valid UTF-8
/// input and returns the string those bytes encode.
#[verifier::external_body]
fn string_from_utf8(bytes: Vec<u8>) -> (r: Option<String>)
    ensures
        r matches Some(s) ==> encode_utf8(s@) == bytes@,
        valid_utf8(bytes@) ==> r is Some,
{
    String::from_utf8(bytes).ok()
}

fn parse_u8<'a>(b: &'a [u8]) -> (r: Option<(u8, &'a [u8])>)
    ensures
        r matches Some(p) ==> spec_parse_u8(b@) == Some((p.0, p.1@)),
        r is None ==> spec_parse_u8(b@) is None,
{
    if b.len() >= 1 {
        let x: u8 = *slice_subrange(b, 0, 1).first().unwrap();
        let rest = slice_subrange(b, 1, b.len());
        proof {
            assert(b@.skip(1) =~= b@.subrange(1, b@.len() as int));
        }
        Some((x, rest))
    } else {
        None
    }
}

fn parse_u16<'a>(b: &'a [u8]) -> (r: Option<(u16, &'a [u8])>)
    ensures
        r matches Some(p) ==> spec_parse_u16(b@) == Some((p.0, p.1@)),
        r is None ==> spec_parse_u16(b@) is None,
{
    if b.len() >= 2 {
        let x = u16_from_le_bytes(slice_subrange(b, 0, 2));
        let rest = slice_subrange(b, 2, b.len());
        proof {
            assert(b@.take(2) =~= b@.subrange(0, 2));
            assert(b@.skip(2) =~= b@.subrange(2, b@.len() as int));
        }
        Some((x, rest))
    } else {
        None
    }
}

fn parse_u32<'a>(b: &'a [u8]) -> (r: Option<(u32, &'a [u8])>)
    ensures
        r matches Some(p) ==> spec_parse_u32(b@) == Some((p.0, p.1@)),
        r is None ==> spec_parse_u32(b@) is None,
{
    if b.len() >= 4 {
        let x = u32_from_le_bytes(slice_subrange(b, 0, 4));
        let rest = slice_subrange(b, 4, b.len());
        proof {
            assert(b@.take(4) =~= b@.subrange(0, 4));
            assert(b@.skip(4) =~= b@.subrange(4, b@.len() as int));
        }
        Some((x, rest))
    } else {
        None
    }
}

fn parse_u64<'a>(b: &'a [u8]) -> (r: Option<(u64, &'a [u8])>)
    ensures
        r matches Some(p) ==> spec_parse_u64(b@) == Some((p.0, p.1@)),
        r is None ==> spec_parse_u64(b@) is None,
{
    if b.len() >= 8 {
        let x = u64_from_le_bytes(slice_subrange(b, 0, 8));
        let rest = slice_subrange(b, 8, b.len());
        proof {
            assert(b@.take(8) =~= b@.subrange(0, 8));
            assert(b@.skip(8) =~= b@.subrange(8, b@.len() as int));
        }
        Some((x, rest))
    } else {
        None
    }
}

fn parse_u128<'a>(b: &'a [u8]) -> (r: Option<(u128, &'a [u8])>)
    ensures
        r matches Some(p) ==> spec_parse_u128(b@) == Some((p.0, p.1@)),
        r is None ==> spec_parse_u128(b@) is None,
{
    if b.len() >= 16 {
        let x = u128_from_le_bytes(slice_subrange(b, 0, 16));
        let rest = slice_subrange(b, 16, b.len());
        proof {
            assert(b@.take(16) =~= b@.subrange(0, 16));
            assert(b@.skip(16) =~= b@.subrange(16, b@.len() as int));
        }
        Some((x, rest))
    } else {
        None
    }
}

fn parse_string<'a>(b: &'a [u8]) -> (r: Option<(String, &'a [u8])>)
    ensures
        r matches Some(p) ==> spec_parse_string(b@) == Some((p.0@, p.1@)),
        r is None ==> spec_parse_string(b@) is None,
{
    if b.len() < 8 {
        return None;
    }
    let n = u64_from_le_bytes(slice_subrange(b, 0, 8));
    proof {
        assert(b@.take(8) =~= b@.subrange(0, 8));
    }
    if n > (b.len() - 8) as u64 {
        return None;
    }
    let nn = n as usize;
    let sb = slice_subrange(b, 8, 8 + nn);
    match string_from_utf8(slice_to_vec(sb)) {
        Some(s) => {
            let rest = slice_subrange(b, 8 + nn, b.len());
            proof {
                vstd::utf8::encode_utf8_decode_utf8(s@);
                vstd::utf8::encode_utf8_valid_utf8(s@);
                assert(b@.skip(8 + nn as int) =~= b@.subrange(8 + nn as int, b@.len() as int));
            }
            Some((s, rest))
        },
        None => None,
    }
}

fn parse_field_value<'a>(b: &'a [u8]) -> (r: Option<(FieldValue, &'a [u8])>)
    ensures
        r matches Some(p) ==> spec_parse_field_value(b@) == Some((p.0@, p.1@)),
        r is None ==> spec_parse_field_value(b@) is None,
{
    if b.len() < 1 {
        return None;
    }
    let tag: u8 = *slice_subrange(b, 0, 1).first().unwrap();
    let body = slice_subrange(b, 1, b.len());
    proof {
        assert(b@.skip(1) =~= b@.subrange(1, b@.len() as int));
    }
    if tag == TAG_UUID {
        match parse_u128(body) {
            Some((x, rest)) => Some((FieldValue::UUIDValue(x), rest)),
            None => None,
        }
    } else if tag == TAG_STRING {
        match parse_string(body) {
            Some((s, rest)) => Some((FieldValue::StringValue(s), rest)),
            None => None,
        }
    } else if tag == TAG_U8 {
        match parse_u8(body) {
            Some((x, rest)) => Some((FieldValue::U8Value(x), rest)),
            None => None,
        }
    } else if tag == TAG_U16 {
        match parse_u16(body) {
            Some((x, rest)) => Some((FieldValue::U16Value(x), rest)),
            None => None,
        }
    } else if tag == TAG_U32 {
        match parse_u32(body) {
            Some((x, rest)) => Some((FieldValue::U32Value(x), rest)),
            None => None,
        }
    } else if tag == TAG_U64 {
        match parse_u64(body) {
            Some((x, rest)) => Some((FieldValue::U64Value(x), rest)),
            None => None,
        }
    } else if tag == TAG_I8 {
        match parse_u8(body) {
            Some((x, rest)) => Some((FieldValue::I8Value(#[verifier::truncate] (x as i8)), rest)),
            None => None,
        }
    } else if tag == TAG_I16 {
        match parse_u16(body) {
            Some((x, rest)) => Some(
                (FieldValue::I16Value(#[verifier::truncate] (x as i16)), rest),
            ),
            None => None,
        }
    } else if tag == TAG_I32 {
        match parse_u32(body) {
            Some((x, rest)) => Some(
                (FieldValue::I32Value(#[verifier::truncate] (x as i32)), rest),
            ),
            None => None,
        }
    } else if tag == TAG_I64 {
        match parse_u64(body) {
            Some((x, rest)) => Some(
                (FieldValue::I64Value(#[verifier::truncate] (x as i64)), rest),
            ),
            None => None,
        }
    } else if tag == TAG_F32 {
        match parse_u32(body) {
            Some((x, rest)) => Some((FieldValue::F32Value(x), rest)),
            None => None,
        }
    } else if tag == TAG_F64 {
        match parse_u64(body) {
            Some((x, rest)) => Some((FieldValue::F64Value(x), rest)),
            None => None,
        }
    } else {
        None
    }
}

/// Glue an already-parsed prefix onto the outcome of parsing the rest.
spec fn opt_prepend_fields(
    pre: Seq<(Seq<char>, FieldV)>,
    o: Option<Seq<(Seq<char>, FieldV)>>,
) -> Option<Seq<(Seq<char>, FieldV)>> {
    match o {
        None => None,
        Some(t) => Some(pre + t),
    }
}

proof fn lemma_parse_string_len(b: Seq<u8>)
    ensures
        spec_parse_string(b) matches Some(p) ==> 8 <= b.len() && p.1.len() <= b.len() - 8,
{
}

proof fn lemma_parse_field_value_len(b: Seq<u8>)
    ensures
        spec_parse_field_value(b) matches Some(p) ==> p.1.len() < b.len(),
{
    if b.len() >= 1 {
        lemma_parse_string_len(b.skip(1));
    }
}

fn parse_fields<'a>(b: &'a [u8]) -> (r: Option<Vec<(String, FieldValue)>>)
    ensures
        r matches Some(fs) ==> spec_parse_fields(b@) == Some(fields_view(fs@)),
        r is None ==> spec_parse_fields(b@) is None,
{
    let mut acc: Vec<(String, FieldValue)> = Vec::new();
    let mut cur: &[u8] = b;
    proof {
        assert(fields_view(acc@) =~= Seq::<(Seq<char>, FieldV)>::empty());
        assert(opt_prepend_fields(fields_view(acc@), spec_parse_fields(cur@)) == spec_parse_fields(
            b@,
        )) by {
            if spec_parse_fields(cur@) is Some {
                let t = spec_parse_fields(cur@).unwrap();
                assert(Seq::<(Seq<char>, FieldV)>::empty() + t =~= t);
            }
        }
    }
    while cur.len() > 0
        invariant
            spec_parse_fields(b@) == opt_prepend_fields(fields_view(acc@), spec_parse_fields(cur@)),
        decreases cur@.len(),
    {
        let ghost pre_acc = fields_view(acc@);
        let ghost pre_cur = cur@;
        let (k, r1) = match parse_string(cur) {
            Some(p) => p,
            None => {
                return None;
            },
        };
        let (v, r2) = match parse_field_value(r1) {
            Some(p) => p,
            None => {
                return None;
            },
        };
        proof {
            lemma_parse_string_len(pre_cur);
            lemma_parse_field_value_len(r1@);
            assert(spec_parse_fields(pre_cur) == Some(seq![(k@, v@)] + spec_parse_fields(
                r2@,
            ).unwrap()) || spec_parse_fields(r2@) is None);
        }
        acc.push((k, v));
        cur = r2;
        proof {
            assert(fields_view(acc@) =~= pre_acc.push((acc@[acc@.len() - 1].0@, acc@[acc@.len()
                - 1].1@)));
            assert(opt_prepend_fields(fields_view(acc@), spec_parse_fields(cur@))
                == opt_prepend_fields(pre_acc, spec_parse_fields(pre_cur))) by {
                if spec_parse_fields(cur@) is Some {
                    let t = spec_parse_fields(cur@).unwrap();
                    assert(pre_acc + (seq![(acc@[acc@.len() - 1].0@, acc@[acc@.len() - 1].1@)] + t)
                        =~= fields_view(acc@) + t);
                }
            }
        }
    }
    proof {
        assert(spec_parse_fields(cur@) == Some(Seq::<(Seq<char>, FieldV)>::empty()));
        assert(fields_view(acc@) + Seq::<(Seq<char>, FieldV)>::empty() =~= fields_view(acc@));
    }
    Some(acc)
}

/// Deserialize a metadata record from exactly the given bytes.  Succeeds if
/// and only if the bytes are a well-formed serialized record (the spec-level
/// parser accepts them), and then returns that record.
pub fn deserialize_meta(b: &[u8]) -> (r: Option<MetaData>)
    ensures
        r matches Some(m) ==> spec_deser_meta(b@) == Some(m@),
        r is None ==> spec_deser_meta(b@) is None,
{
    let (id, r1) = match parse_u128(b) {
        Some(p) => p,
        None => {
            return None;
        },
    };
    let (text, r2) = match parse_string(r1) {
        Some(p) => p,
        None => {
            return None;
        },
    };
    let (off, r3) = match parse_u64(r2) {
        Some(p) => p,
        None => {
            return None;
        },
    };
    let fs = match parse_fields(r3) {
        Some(fs) => fs,
        None => {
            return None;
        },
    };
    Some(MetaData { id: RecordId { value: id }, original_text: text, vector_offset: off, custom_fields: fs })
}

/// Deserialize a vector record from exactly the given bytes.  Succeeds if
/// and only if the bytes are a well-formed serialized record, and then
/// returns that record.
pub fn deserialize_vector(b: &[u8]) -> (r: Option<VectorRecord>)
    ensures
        r matches Some(v) ==> spec_deser_vector(b@) == Some(v@),
        r is None ==> spec_deser_vector(b@) is None,
{
    let (id, r1) = match parse_u128(b) {
        Some(p) => p,
        None => {
            return None;
        },
    };
    let mut acc: Vec<u32> = Vec::new();
    let mut cur: &[u8] = r1;
    proof {
        assert(acc@ =~= Seq::<u32>::empty());
        if spec_parse_values(cur@) is Some {
            let t = spec_parse_values(cur@).unwrap();
            assert(Seq::<u32>::empty() + t =~= t);
        }
    }
    while cur.len() > 0
        invariant
            spec_parse_u128(b@) == Some((id, r1@)),
            spec_parse_values(r1@) == (match spec_parse_values(cur@) {
                None => None,
                Some(t) => Some(acc@ + t),
            }),
        decreases cur@.len(),
    {
        let ghost pre_acc = acc@;
        let ghost pre_cur = cur@;
        let (x, rest) = match parse_u32(cur) {
            Some(p) => p,
            None => {
                return None;
            },
        };
        acc.push(x);
        cur = rest;
        proof {
            assert(pre_cur.skip(4) == cur@);
            if spec_parse_values(cur@) is Some {
                let t = spec_parse_values(cur@).unwrap();
                assert(pre_acc + (seq![x] + t) =~= acc@ + t);
            }
        }
    }
    proof {
        assert(acc@ + Seq::<u32>::empty() =~= acc@);
    }
    Some(VectorRecord { id: RecordId { value: id }, values: acc })
}

} // verus!
