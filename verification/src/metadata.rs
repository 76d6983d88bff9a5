//! The metadata record model and the metadata size encoder: the typed field
//! values a record carries, and the exact number of bytes a record occupies
//! once serialized, used to pre-compute storage-layout offsets.

use vstd::prelude::*;
use crate::record::RecordId;
use vstd::utf8::encode_utf8;

verus! {

/// Width in bytes of a record identifier in serialized form.
pub const SIZE_UUID: usize = 16;

/// Width in bytes of the length prefix that precedes every variable-size value.
pub const SIZE_LEN_PREFIX: usize = 8;

/// Width in bytes of the tag that names a field value's variant in
/// serialized form.
pub const SIZE_TAG: usize = 1;

/// The closed set of types a custom field may carry.
#[derive(Debug, PartialEq, Eq, Structural, Hash, Clone)]
pub enum FieldType {
    UUID,
    String,
    U8,
    U16,
    U32,
    U64,
    I8,
    I16,
    I32,
    I64,
    F32,
    F64,
}

/// A typed field value.  The 32- and 64-bit floating-point variants carry the
/// IEEE-754 bit pattern of the value; callers that work in floating point
/// convert at the boundary.
#[derive(Debug, Clone)]
pub enum FieldValue {
    UUIDValue(u128),
    StringValue(String),
    U8Value(u8),
    U16Value(u16),
    U32Value(u32),
    U64Value(u64),
    I8Value(i8),
    I16Value(i16),
    I32Value(i32),
    I64Value(i64),
    F32Value(u32),
    F64Value(u64),
}

/// The mathematical value of a [`FieldValue`].
pub enum FieldV {
    UUIDValue(u128),
    StringValue(Seq<char>),
    U8Value(u8),
    U16Value(u16),
    U32Value(u32),
    U64Value(u64),
    I8Value(i8),
    I16Value(i16),
    I32Value(i32),
    I64Value(i64),
    F32Value(u32),
    F64Value(u64),
}

impl View for FieldValue {
    type V = FieldV;

    open spec fn view(&self) -> FieldV {
        match self {
            FieldValue::UUIDValue(u) => FieldV::UUIDValue(*u),
            FieldValue::StringValue(s) => FieldV::StringValue(s@),
            FieldValue::U8Value(v) => FieldV::U8Value(*v),
            FieldValue::U16Value(v) => FieldV::U16Value(*v),
            FieldValue::U32Value(v) => FieldV::U32Value(*v),
            FieldValue::U64Value(v) => FieldV::U64Value(*v),
            FieldValue::I8Value(v) => FieldV::I8Value(*v),
            FieldValue::I16Value(v) => FieldV::I16Value(*v),
            FieldValue::I32Value(v) => FieldV::I32Value(*v),
            FieldValue::I64Value(v) => FieldV::I64Value(*v),
            FieldValue::F32Value(v) => FieldV::F32Value(*v),
            FieldValue::F64Value(v) => FieldV::F64Value(*v),
        }
    }
}

/// A metadata record: the entry stored in the metadata namespace under a
/// record identifier.  `custom_fields` is an association list whose keys are
/// unique; their order carries no meaning.
#[derive(Debug, Clone)]
pub struct MetaData {
    pub id: RecordId,
    pub original_text: String,
    pub vector_offset: u64,
    pub custom_fields: Vec<(String, FieldValue)>,
}

/// The mathematical value of a [`MetaData`].
pub struct MetaDataV {
    pub id: u128,
    pub original_text: Seq<char>,
    pub vector_offset: u64,
    pub custom_fields: Seq<(Seq<char>, FieldV)>,
}

/// The mathematical value of an association list of custom fields.
pub open spec fn fields_view(fs: Seq<(String, FieldValue)>) -> Seq<(Seq<char>, FieldV)> {
    fs.map_values(|p: (String, FieldValue)| (p.0@, p.1@))
}

impl View for MetaData {
    type V = MetaDataV;

    open spec fn view(&self) -> MetaDataV {
        MetaDataV {
            id: self.id.value,
            original_text: self.original_text@,
            vector_offset: self.vector_offset,
            custom_fields: fields_view(self.custom_fields@),
        }
    }
}

/// Serialized size of one variable-size string value: an 8-byte length prefix
/// followed by the UTF-8 encoding.  An empty string costs exactly 8 bytes.
pub open spec fn spec_string_size(s: Seq<char>) -> nat {
    (SIZE_LEN_PREFIX + encode_utf8(s).len()) as nat
}

/// Serialized size of one field value: its one-byte variant tag followed by
/// its fixed- or length-prefixed payload.
pub open spec fn spec_field_value_size(v: FieldV) -> nat {
    (SIZE_TAG + match v {
        FieldV::UUIDValue(_) => SIZE_UUID as nat,
        FieldV::StringValue(s) => spec_string_size(s),
        FieldV::U8Value(_) => 1,
        FieldV::U16Value(_) => 2,
        FieldV::U32Value(_) => 4,
        FieldV::U64Value(_) => 8,
        FieldV::I8Value(_) => 1,
        FieldV::I16Value(_) => 2,
        FieldV::I32Value(_) => 4,
        FieldV::I64Value(_) => 8,
        FieldV::F32Value(_) => 4,
        FieldV::F64Value(_) => 8,
    }) as nat
}

/// Serialized size of an association list of custom fields: for each field,
/// its length-prefixed key then its tagged value.
pub open spec fn spec_fields_size(fs: Seq<(Seq<char>, FieldV)>) -> nat
    decreases fs.len(),
{
    if fs.len() == 0 {
        0
    } else {
        spec_string_size(fs[0].0) + spec_field_value_size(fs[0].1) + spec_fields_size(
            fs.drop_first(),
        )
    }
}

/// Serialized size of a whole metadata record: identifier, length-prefixed
/// original text, vector-offset word, then the custom fields.
pub open spec fn spec_meta_size(m: MetaDataV) -> nat {
    (SIZE_UUID + spec_string_size(m.original_text) + 8 + spec_fields_size(m.custom_fields)) as nat
}

impl MetaData {
    pub fn new(
        id: RecordId,
        original_text: String,
        vector_offset: u64,
        custom_fields: Vec<(String, FieldValue)>,
    ) -> (r: MetaData)
        ensures
            r.id == id,
            r.original_text == original_text,
            r.vector_offset == vector_offset,
            r.custom_fields == custom_fields,
    {
        MetaData { id, original_text, vector_offset, custom_fields }
    }

    pub fn get_id(&self) -> (r: &RecordId)
        ensures
            r == self.id,
    {
        &self.id
    }

    /// The exact number of bytes this record occupies when serialized.  Pure
    /// and side-effect-free; never fails, also on empty maps or empty strings.
    pub fn size(&self) -> (r: usize)
        requires
            spec_meta_size(self@) <= usize::MAX,
        ensures
            r == spec_meta_size(self@),
    {
        let mut total: usize = SIZE_UUID;
        total = total + self.dynamic_string_size(&self.original_text);
        total = total + 8;

        let ghost all = self@.custom_fields;
        proof {
            assert(all.skip(0) =~= all);
        }
        let mut i: usize = 0;
        while i < self.custom_fields.len()
            invariant
                0 <= i <= self.custom_fields.len(),
                all == self@.custom_fields,
                all.len() == self.custom_fields.len(),
                total + spec_fields_size(all.skip(i as int)) == spec_meta_size(self@),
                spec_meta_size(self@) <= usize::MAX,
            decreases self.custom_fields.len() - i,
        {
            let (key, value) = &self.custom_fields[i];
            proof {
                let rest = all.skip(i as int);
                assert(rest[0] == all[i as int]);
                assert(all[i as int] == (key@, value@));
                assert(rest.drop_first() =~= all.skip(i as int + 1));
                assert(spec_fields_size(rest) == spec_string_size(key@) + spec_field_value_size(
                    value@,
                ) + spec_fields_size(all.skip(i as int + 1)));
            }
            total = total + self.dynamic_string_size(key);
            total = total + Self::field_value_size(value);
            i = i + 1;
        }
        proof {
            assert(all.skip(all.len() as int) =~= Seq::<(Seq<char>, FieldV)>::empty());
        }
        total
    }

    /// Serialized size of one string value: length prefix plus UTF-8 bytes.
    fn dynamic_string_size(&self, s: &String) -> (r: usize)
        requires
            spec_string_size(s@) <= usize::MAX,
        ensures
            r == spec_string_size(s@),
    {
        SIZE_LEN_PREFIX + s.as_str().len()
    }

    /// Serialized size of one tagged field value.
    fn field_value_size(v: &FieldValue) -> (r: usize)
        requires
            spec_field_value_size(v@) <= usize::MAX,
        ensures
            r == spec_field_value_size(v@),
    {
        SIZE_TAG + match v {
            FieldValue::UUIDValue(_) => SIZE_UUID,
            FieldValue::StringValue(s) => SIZE_LEN_PREFIX + s.as_str().len(),
            FieldValue::U8Value(_) => 1,
            FieldValue::U16Value(_) => 2,
            FieldValue::U32Value(_) => 4,
            FieldValue::U64Value(_) => 8,
            FieldValue::I8Value(_) => 1,
            FieldValue::I16Value(_) => 2,
            FieldValue::I32Value(_) => 4,
            FieldValue::I64Value(_) => 8,
            FieldValue::F32Value(_) => 4,
            FieldValue::F64Value(_) => 8,
        }
    }
}

} // verus!
