//! The record model: a 128-bit record identifier and the vector record it
//! joins to a metadata entry.

use vstd::prelude::*;

verus! {

/// A 128-bit record identifier with UUID version-4 semantics: generated at
/// insert time, unique within an index, immutable thereafter.  It is the join
/// key between a metadata entry and a vector entry.
#[derive(Debug, Clone, Copy, PartialEq, Eq, Structural)]
pub struct RecordId {
    pub value: u128,
}

/// A vector record: the feature vector stored under a record identifier.
/// Each element is the bit pattern of one 32-bit IEEE-754 value; callers that
/// work in floating point convert at the boundary.
#[derive(Debug, Clone)]
pub struct VectorRecord {
    pub id: RecordId,
    pub values: Vec<u32>,
}

/// The mathematical value of a [`VectorRecord`].
pub struct VectorRecordV {
    pub id: u128,
    pub values: Seq<u32>,
}

impl View for VectorRecord {
    type V = VectorRecordV;

    open spec fn view(&self) -> VectorRecordV {
        VectorRecordV { id: self.id.value, values: self.values@ }
    }
}

impl VectorRecord {
    pub fn new(id: RecordId, values: Vec<u32>) -> (r: Self)
        ensures
            r@ == (VectorRecordV { id: id.value, values: values@ }),
    {
        Self { id, values }
    }

    pub fn get_id(&self) -> (r: &RecordId)
        ensures
            r == self.id,
    {
        &self.id
    }
}

} // verus!
