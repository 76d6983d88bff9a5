//! The index: a named pair of logical namespaces — metadata and vector —
//! over one tree of the persistent substrate.  A record's two entries live
//! under two keys built from the same identifier, and `insert` writes both
//! as one atomic batch, so that every identifier either has both entries or
//! neither.

use vstd::prelude::*;
use vstd::bytes::*;
use vstd::string::StringExecFns;
use vstd::slice::slice_subrange;
use crate::AlloyError;
use crate::codec::{
    serialize_meta, serialize_vector, deserialize_meta, deserialize_vector, spec_ser_meta,
    spec_ser_vector, spec_deser_meta, spec_deser_vector, lemma_meta_round_trip,
    lemma_vector_round_trip, lemma_meta_size_wf,
};
use crate::metadata::{MetaData, MetaDataV, FieldValue, FieldV, fields_view, spec_meta_size};
use crate::record::{RecordId, VectorRecord, VectorRecordV};
use crate::store::{
    tree_entries, is_prefix_of, lex_lt, db_open_tree, tree_get, batch_new, batch_insert,
    tree_apply_batch, tree_scan_prefix, new_record_id,
};

verus! {

/// First byte of a metadata-namespace key: the letter m.
pub const META_TAG: u8 = 0x6d;

/// First byte of a vector-namespace key: the letter v.
pub const VECTOR_TAG: u8 = 0x76;

/// Second byte of every key: a dot separating the namespace from the id.
pub const KEY_DOT: u8 = 0x2e;

/// The key prefix of the metadata namespace.
pub open spec fn spec_meta_prefix() -> Seq<u8> {
    seq![META_TAG, KEY_DOT]
}

/// The key prefix of the vector namespace.
pub open spec fn spec_vector_prefix() -> Seq<u8> {
    seq![VECTOR_TAG, KEY_DOT]
}

/// The key a record's metadata entry is stored under.
pub open spec fn spec_meta_key(id: u128) -> Seq<u8> {
    spec_meta_prefix() + spec_u128_to_le_bytes(id)
}

/// The key a record's vector entry is stored under.
pub open spec fn spec_vector_key(id: u128) -> Seq<u8> {
    spec_vector_prefix() + spec_u128_to_le_bytes(id)
}

fn meta_key(id: u128) -> (r: Vec<u8>)
    ensures
        r@ == spec_meta_key(id),
{
    let mut out: Vec<u8> = Vec::new();
    out.push(META_TAG);
    out.push(KEY_DOT);
    let mut idb = u128_to_le_bytes(id);
    out.append(&mut idb);
    proof {
        assert(out@ =~= spec_meta_key(id));
    }
    out
}

fn vector_key(id: u128) -> (r: Vec<u8>)
    ensures
        r@ == spec_vector_key(id),
{
    let mut out: Vec<u8> = Vec::new();
    out.push(VECTOR_TAG);
    out.push(KEY_DOT);
    let mut idb = u128_to_le_bytes(id);
    out.append(&mut idb);
    proof {
        assert(out@ =~= spec_vector_key(id));
    }
    out
}

fn meta_prefix_bytes() -> (r: Vec<u8>)
    ensures
        r@ == spec_meta_prefix(),
{
    let mut out: Vec<u8> = Vec::new();
    out.push(META_TAG);
    out.push(KEY_DOT);
    proof {
        assert(out@ =~= spec_meta_prefix());
    }
    out
}

fn vector_prefix_bytes() -> (r: Vec<u8>)
    ensures
        r@ == spec_vector_prefix(),
{
    let mut out: Vec<u8> = Vec::new();
    out.push(VECTOR_TAG);
    out.push(KEY_DOT);
    proof {
        assert(out@ =~= spec_vector_prefix());
    }
    out
}

/// The two namespaces never share a key, and within a namespace the key
/// determines the identifier.
pub proof fn lemma_keys_injective(a: u128, b: u128)
    ensures
        spec_meta_key(a) != spec_vector_key(b),
        spec_meta_key(a) == spec_meta_key(b) ==> a == b,
        spec_vector_key(a) == spec_vector_key(b) ==> a == b,
{
    lemma_auto_spec_u128_to_from_le_bytes();
    assert(spec_meta_key(a)[0] == META_TAG);
    assert(spec_vector_key(b)[0] == VECTOR_TAG);
    if spec_meta_key(a) == spec_meta_key(b) {
        assert(spec_u128_to_le_bytes(a) =~= spec_meta_key(a).skip(2));
        assert(spec_u128_to_le_bytes(b) =~= spec_meta_key(b).skip(2));
        assert(spec_u128_from_le_bytes(spec_u128_to_le_bytes(a)) == a);
        assert(spec_u128_from_le_bytes(spec_u128_to_le_bytes(b)) == b);
    }
    if spec_vector_key(a) == spec_vector_key(b) {
        assert(spec_u128_to_le_bytes(a) =~= spec_vector_key(a).skip(2));
        assert(spec_u128_to_le_bytes(b) =~= spec_vector_key(b).skip(2));
        assert(spec_u128_from_le_bytes(spec_u128_to_le_bytes(a)) == a);
        assert(spec_u128_from_le_bytes(spec_u128_to_le_bytes(b)) == b);
    }
}

/// The metadata entry `insert` builds from caller-supplied fields: the
/// fresh identifier, no original text, and the fields as given.
pub open spec fn spec_new_meta(id: u128, fields: Seq<(Seq<char>, FieldV)>) -> MetaDataV {
    MetaDataV { id, original_text: Seq::empty(), vector_offset: 0, custom_fields: fields }
}

/// An index: one named tree of the substrate holding the metadata namespace
/// and the vector namespace under distinct key prefixes.
pub struct Index {
    /// The name of the index.
    pub name: String,
    /// The tree that holds both namespaces.
    pub tree: sled::Tree,
}

impl Index {
    /// The metadata entry stored under `id`: present exactly when the
    /// metadata namespace holds its key and the stored bytes parse as a
    /// metadata record.
    pub open spec fn spec_meta_at(self, id: u128) -> Option<MetaDataV> {
        if tree_entries(self.tree).dom().contains(spec_meta_key(id)) {
            spec_deser_meta(tree_entries(self.tree)[spec_meta_key(id)])
        } else {
            None
        }
    }

    /// The vector entry stored under `id`: present exactly when the vector
    /// namespace holds its key and the stored bytes parse as a vector
    /// record.
    pub open spec fn spec_vector_at(self, id: u128) -> Option<VectorRecordV> {
        if tree_entries(self.tree).dom().contains(spec_vector_key(id)) {
            spec_deser_vector(tree_entries(self.tree)[spec_vector_key(id)])
        } else {
            None
        }
    }

    /// Creates a new Index with the given name over the given database: one
    /// tree of that name, holding both namespaces.  Open each name at most
    /// once per database handle: two indexes of one name would alias one
    /// tree, and the contracts here model each index's tree as its own.
    pub fn new(name: &str, db: &sled::Db) -> (r: Result<Index, AlloyError>)
        ensures
            r matches Ok(ix) ==> ix.name@ == name@,
            r matches Err(e) ==> e == AlloyError::IoError,
    {
        match db_open_tree(db, name) {
            Ok(tree) => Ok(Index { name: String::from_str(name), tree }),
            Err(e) => Err(e),
        }
    }

    /// Inserts a record: generates a fresh identifier, builds the metadata
    /// and vector entries, and commits both as one atomic batch.  After a
    /// success both entries are present under the returned identifier — the
    /// pairing invariant — and nothing else changed.
    pub fn insert(&mut self, metadata: Vec<(String, FieldValue)>, vector: Vec<u32>) -> (r: Result<
        RecordId,
        AlloyError,
    >)
        requires
            spec_meta_size(spec_new_meta(0, fields_view(metadata@))) <= usize::MAX,
        ensures
            final(self).name == old(self).name,
            r matches Ok(id) ==> {
                &&& (id.value >> 76) & 0xf == 4
                &&& (id.value >> 62) & 0x3 == 2
                &&& tree_entries(final(self).tree) == tree_entries(old(self).tree).insert(
                    spec_meta_key(id.value),
                    spec_ser_meta(spec_new_meta(id.value, fields_view(metadata@))),
                ).insert(
                    spec_vector_key(id.value),
                    spec_ser_vector(VectorRecordV { id: id.value, values: vector@ }),
                )
                &&& final(self).spec_meta_at(id.value) == Some(
                    spec_new_meta(id.value, fields_view(metadata@)),
                )
                &&& final(self).spec_vector_at(id.value) == Some(
                    VectorRecordV { id: id.value, values: vector@ },
                )
            },
            r matches Err(e) ==> e == AlloyError::IoError,
    {
        let id = new_record_id();
        let meta = MetaData {
            id,
            original_text: String::new(),
            vector_offset: 0,
            custom_fields: metadata,
        };
        proof {
            assert(meta@ == spec_new_meta(id.value, fields_view(meta.custom_fields@)));
            assert(spec_meta_size(meta@) == spec_meta_size(
                spec_new_meta(0, fields_view(meta.custom_fields@)),
            ));
        }
        let meta_bytes = serialize_meta(&meta);
        let vrec = VectorRecord { id, values: vector };
        let vec_bytes = serialize_vector(&vrec);
        let mk = meta_key(id.value);
        let vk = vector_key(id.value);
        let mut batch = batch_new();
        batch_insert(&mut batch, mk.as_slice(), meta_bytes.as_slice());
        batch_insert(&mut batch, vk.as_slice(), vec_bytes.as_slice());
        match tree_apply_batch(&mut self.tree, batch) {
            Ok(_) => {
                proof {
                    let e0 = tree_entries(old(self).tree);
                    let e1 = tree_entries(self.tree);
                    lemma_keys_injective(id.value, id.value);
                    assert(e1 =~= e0.insert(spec_meta_key(id.value), meta_bytes@).insert(
                        spec_vector_key(id.value),
                        vec_bytes@,
                    ));
                    lemma_meta_size_wf(meta@);
                    lemma_meta_round_trip(meta@);
                    lemma_vector_round_trip(vrec@);
                }
                Ok(id)
            },
            Err(e) => Err(e),
        }
    }

    /// Gets the metadata record stored under the identifier.  `None` means
    /// the identifier is absent from the metadata namespace; a stored entry
    /// that does not parse is `CorruptFormat`, and `CorruptFormat` comes
    /// only from such an entry.
    pub fn get_metadata(&self, id: &RecordId) -> (r: Result<Option<MetaData>, AlloyError>)
        ensures
            r matches Ok(o) ==> (match o {
                Some(m) => self.spec_meta_at(id.value) == Some(m@),
                None => !tree_entries(self.tree).dom().contains(spec_meta_key(id.value)),
            }),
            r matches Err(e) ==> e == AlloyError::IoError || e == AlloyError::CorruptFormat,
            r matches Err(e) ==> (e == AlloyError::CorruptFormat ==> tree_entries(
                self.tree,
            ).dom().contains(spec_meta_key(id.value)) && self.spec_meta_at(id.value) is None),
    {
        let mk = meta_key(id.value);
        match tree_get(&self.tree, mk.as_slice()) {
            Ok(Some(bytes)) => match deserialize_meta(bytes.as_slice()) {
                Some(m) => Ok(Some(m)),
                None => Err(AlloyError::CorruptFormat),
            },
            Ok(None) => Ok(None),
            Err(e) => Err(e),
        }
    }

    /// Gets the vector record stored under the identifier.  `None` means
    /// the identifier is absent from the vector namespace; a stored entry
    /// that does not parse is `CorruptFormat`, and `CorruptFormat` comes
    /// only from such an entry.
    pub fn get_vector(&self, id: &RecordId) -> (r: Result<Option<VectorRecord>, AlloyError>)
        ensures
            r matches Ok(o) ==> (match o {
                Some(v) => self.spec_vector_at(id.value) == Some(v@),
                None => !tree_entries(self.tree).dom().contains(spec_vector_key(id.value)),
            }),
            r matches Err(e) ==> e == AlloyError::IoError || e == AlloyError::CorruptFormat,
            r matches Err(e) ==> (e == AlloyError::CorruptFormat ==> tree_entries(
                self.tree,
            ).dom().contains(spec_vector_key(id.value)) && self.spec_vector_at(id.value)
                is None),
    {
        let vk = vector_key(id.value);
        match tree_get(&self.tree, vk.as_slice()) {
            Ok(Some(bytes)) => match deserialize_vector(bytes.as_slice()) {
                Some(v) => Ok(Some(v)),
                None => Err(AlloyError::CorruptFormat),
            },
            Ok(None) => Ok(None),
            Err(e) => Err(e),
        }
    }
}

// ---------------------------------------------------------------------------
// Field equality, as the metadata filter compares it.
// ---------------------------------------------------------------------------

/// The pair `p` occurs in the field list `b`.
pub open spec fn spec_fields_has(b: Seq<(Seq<char>, FieldV)>, p: (Seq<char>, FieldV)) -> bool {
    exists|j: int| 0 <= j < b.len() && b[j] == p
}

/// Two field lists carry the same mapping: every key/value pair of one
/// occurs in the other.  For keys-unique lists this is equality of the
/// mappings they denote — same keys, same values, order-irrelevant.
pub open spec fn spec_fields_equiv(
    a: Seq<(Seq<char>, FieldV)>,
    b: Seq<(Seq<char>, FieldV)>,
) -> bool {
    (forall|i: int| 0 <= i < a.len() ==> spec_fields_has(b, #[trigger] a[i])) && (forall|j: int|
        0 <= j < b.len() ==> spec_fields_has(a, #[trigger] b[j]))
}

fn field_value_eq(a: &FieldValue, b: &FieldValue) -> (r: bool)
    ensures
        r == (a@ == b@),
{
    match (a, b) {
        (FieldValue::UUIDValue(x), FieldValue::UUIDValue(y)) => *x == *y,
        (FieldValue::StringValue(x), FieldValue::StringValue(y)) => x.eq(y),
        (FieldValue::U8Value(x), FieldValue::U8Value(y)) => *x == *y,
        (FieldValue::U16Value(x), FieldValue::U16Value(y)) => *x == *y,
        (FieldValue::U32Value(x), FieldValue::U32Value(y)) => *x == *y,
        (FieldValue::U64Value(x), FieldValue::U64Value(y)) => *x == *y,
        (FieldValue::I8Value(x), FieldValue::I8Value(y)) => *x == *y,
        (FieldValue::I16Value(x), FieldValue::I16Value(y)) => *x == *y,
        (FieldValue::I32Value(x), FieldValue::I32Value(y)) => *x == *y,
        (FieldValue::I64Value(x), FieldValue::I64Value(y)) => *x == *y,
        (FieldValue::F32Value(x), FieldValue::F32Value(y)) => *x == *y,
        (FieldValue::F64Value(x), FieldValue::F64Value(y)) => *x == *y,
        _ => false,
    }
}

fn fields_contains(list: &Vec<(String, FieldValue)>, key: &String, val: &FieldValue) -> (r: bool)
    ensures
        r == spec_fields_has(fields_view(list@), (key@, val@)),
{
    let mut j: usize = 0;
    while j < list.len()
        invariant
            0 <= j <= list@.len(),
            forall|t: int| 0 <= t < j ==> #[trigger] fields_view(list@)[t] != (key@, val@),
        decreases list@.len() - j,
    {
        let (k, v) = &list[j];
        if k.eq(key) && field_value_eq(v, val) {
            proof {
                assert(fields_view(list@)[j as int] == (key@, val@));
            }
            return true;
        }
        proof {
            assert(fields_view(list@)[j as int] == (list@[j as int].0@, list@[j as int].1@));
        }
        j = j + 1;
    }
    proof {
        assert(fields_view(list@).len() == list@.len());
        assert(!spec_fields_has(fields_view(list@), (key@, val@)));
    }
    false
}

/// Whether two field lists carry the same mapping — same keys, same
/// values, order-irrelevant.
#[verifier::loop_isolation(false)]
pub fn fields_equal(a: &Vec<(String, FieldValue)>, b: &Vec<(String, FieldValue)>) -> (r: bool)
    ensures
        r == spec_fields_equiv(fields_view(a@), fields_view(b@)),
{
    proof {
        assert(fields_view(a@).len() == a@.len());
        assert(fields_view(b@).len() == b@.len());
    }
    let mut i: usize = 0;
    while i < a.len()
        invariant
            0 <= i <= a@.len(),
            forall|t: int|
                0 <= t < i ==> spec_fields_has(fields_view(b@), #[trigger] fields_view(a@)[t]),
        decreases a@.len() - i,
    {
        let (k, v) = &a[i];
        proof {
            assert(fields_view(a@)[i as int] == (k@, v@));
        }
        if !fields_contains(b, k, v) {
            proof {
                assert(!spec_fields_equiv(fields_view(a@), fields_view(b@)));
            }
            return false;
        }
        i = i + 1;
    }
    let mut j: usize = 0;
    while j < b.len()
        invariant
            0 <= j <= b@.len(),
            forall|t: int|
                0 <= t < fields_view(a@).len() ==> spec_fields_has(
                    fields_view(b@),
                    #[trigger] fields_view(a@)[t],
                ),
            forall|t: int|
                0 <= t < j ==> spec_fields_has(fields_view(a@), #[trigger] fields_view(b@)[t]),
        decreases b@.len() - j,
    {
        let (k, v) = &b[j];
        proof {
            assert(fields_view(b@)[j as int] == (k@, v@));
        }
        if !fields_contains(a, k, v) {
            proof {
                assert(!spec_fields_equiv(fields_view(a@), fields_view(b@)));
            }
            return false;
        }
        j = j + 1;
    }
    true
}

fn bytes_equal(a: &[u8], b: &[u8]) -> (r: bool)
    ensures
        r == (a@ == b@),
{
    if a.len() != b.len() {
        return false;
    }
    let mut i: usize = 0;
    while i < a.len()
        invariant
            0 <= i <= a@.len(),
            a@.len() == b@.len(),
            forall|t: int| 0 <= t < i ==> a@[t] == b@[t],
        decreases a@.len() - i,
    {
        let x: u8 = *slice_subrange(a, i, i + 1).first().unwrap();
        let y: u8 = *slice_subrange(b, i, i + 1).first().unwrap();
        if x != y {
            return false;
        }
        i = i + 1;
    }
    proof {
        assert(a@ =~= b@);
    }
    true
}

impl Index {
    /// All metadata records of the index, one per stored metadata entry:
    /// every returned record is stored under its own identifier's key, every
    /// key of the metadata namespace is accounted for, no identifier appears
    /// twice, and the records come in ascending persisted key order — so
    /// re-invoking on an unchanged index yields the same sequence.  A stored
    /// entry that does not parse, or whose key does not match its
    /// identifier, is `CorruptFormat` — and `CorruptFormat` comes only from
    /// such an entry.
    pub fn all_metadata(&self) -> (r: Result<Vec<MetaData>, AlloyError>)
        ensures
            r matches Ok(v) ==> {
                &&& forall|i: int|
                    0 <= i < v@.len() ==> self.spec_meta_at((#[trigger] v@[i])@.id) == Some(
                        v@[i]@,
                    )
                &&& forall|k: Seq<u8>|
                    #[trigger] tree_entries(self.tree).dom().contains(k) && is_prefix_of(
                        spec_meta_prefix(),
                        k,
                    ) ==> exists|i: int|
                        0 <= i < v@.len() && spec_meta_key((#[trigger] v@[i])@.id) == k
                &&& forall|i: int, j: int|
                    0 <= i < v@.len() && 0 <= j < v@.len() && i != j ==> (#[trigger] v@[i])@.id
                        != (#[trigger] v@[j])@.id
                &&& forall|i: int, j: int|
                    0 <= i < j < v@.len() ==> lex_lt(
                        spec_meta_key((#[trigger] v@[i])@.id),
                        spec_meta_key((#[trigger] v@[j])@.id),
                    )
            },
            r matches Err(e) ==> e == AlloyError::IoError || e == AlloyError::CorruptFormat,
            r matches Err(e) ==> (e == AlloyError::CorruptFormat ==> exists|k: Seq<u8>|
                #[trigger] tree_entries(self.tree).dom().contains(k) && is_prefix_of(
                    spec_meta_prefix(),
                    k,
                ) && (match spec_deser_meta(tree_entries(self.tree)[k]) {
                    None => true,
                    Some(m) => spec_meta_key(m.id) != k,
                })),
    {
        let prefix = meta_prefix_bytes();
        let items = match tree_scan_prefix(&self.tree, prefix.as_slice()) {
            Ok(x) => x,
            Err(e) => {
                return Err(e);
            },
        };
        let ghost entries = tree_entries(self.tree);
        let mut out: Vec<MetaData> = Vec::new();
        let mut i: usize = 0;
        while i < items.len()
            invariant
                0 <= i <= items@.len(),
                entries == tree_entries(self.tree),
                forall|t: int|
                    0 <= t < items@.len() ==> is_prefix_of(
                        spec_meta_prefix(),
                        (#[trigger] items@[t]).0@,
                    ) && entries.dom().contains(items@[t].0@) && entries[items@[t].0@]
                        == items@[t].1@,
                forall|k: Seq<u8>|
                    #[trigger] entries.dom().contains(k) && is_prefix_of(spec_meta_prefix(), k)
                        ==> exists|t: int| 0 <= t < items@.len() && (#[trigger] items@[t]).0@ == k,
                forall|t1: int, t2: int|
                    0 <= t1 < t2 < items@.len() ==> lex_lt(
                        (#[trigger] items@[t1]).0@,
                        (#[trigger] items@[t2]).0@,
                    ),
                out@.len() == i,
                forall|u: int|
                    0 <= u < out@.len() ==> self.spec_meta_at((#[trigger] out@[u])@.id) == Some(
                        out@[u]@,
                    ),
                forall|u: int|
                    0 <= u < out@.len() ==> spec_meta_key((#[trigger] out@[u])@.id)
                        == items@[u].0@,
            decreases items@.len() - i,
        {
            let (k, val) = &items[i];
            let m = match deserialize_meta(val.as_slice()) {
                Some(m) => m,
                None => {
                    proof {
                        assert(tree_entries(self.tree).dom().contains(items@[i as int].0@));
                        assert(spec_deser_meta(tree_entries(self.tree)[items@[i as int].0@])
                            is None);
                    }
                    return Err(AlloyError::CorruptFormat);
                },
            };
            let mk = meta_key(m.id.value);
            if !bytes_equal(k.as_slice(), mk.as_slice()) {
                proof {
                    assert(tree_entries(self.tree).dom().contains(items@[i as int].0@));
                    assert(spec_deser_meta(tree_entries(self.tree)[items@[i as int].0@]) == Some(
                        m@,
                    ));
                    assert(spec_meta_key(m@.id) != items@[i as int].0@);
                }
                return Err(AlloyError::CorruptFormat);
            }
            proof {
                assert(k@ == spec_meta_key(m@.id));
                assert(entries[spec_meta_key(m@.id)] == val@);
                assert(self.spec_meta_at(m@.id) == Some(m@));
            }
            let ghost mv = m@;
            out.push(m);
            proof {
                assert(out@[out@.len() - 1]@ == mv);
                assert(spec_meta_key(out@[out@.len() - 1]@.id) == items@[i as int].0@);
            }
            i = i + 1;
        }
        proof {
            assert forall|u1: int, u2: int|
                0 <= u1 < out@.len() && 0 <= u2 < out@.len() && u1 != u2 implies (
            #[trigger] out@[u1])@.id != (#[trigger] out@[u2])@.id by {
                lemma_keys_injective(out@[u1]@.id, out@[u2]@.id);
                assert(items@[u1].0@ != items@[u2].0@);
            }
            assert forall|k: Seq<u8>|
                #[trigger] tree_entries(self.tree).dom().contains(k) && is_prefix_of(
                    spec_meta_prefix(),
                    k,
                ) implies exists|u: int|
                0 <= u < out@.len() && spec_meta_key((#[trigger] out@[u])@.id) == k by {
                let t = choose|t: int|
                    0 <= t < items@.len() && (#[trigger] items@[t]).0@ == k;
                assert(spec_meta_key(out@[t]@.id) == items@[t].0@);
            }
            assert forall|u1: int, u2: int|
                0 <= u1 < u2 < out@.len() implies lex_lt(
                spec_meta_key((#[trigger] out@[u1])@.id),
                spec_meta_key((#[trigger] out@[u2])@.id),
            ) by {
                assert(spec_meta_key(out@[u1]@.id) == items@[u1].0@);
                assert(spec_meta_key(out@[u2]@.id) == items@[u2].0@);
            }
        }
        Ok(out)
    }

    /// All vector records of the index, one per stored vector entry, under
    /// the same contract as [`Index::all_metadata`]: complete, each
    /// identifier once, in ascending persisted key order.
    pub fn all_vectors(&self) -> (r: Result<Vec<VectorRecord>, AlloyError>)
        ensures
            r matches Ok(v) ==> {
                &&& forall|i: int|
                    0 <= i < v@.len() ==> self.spec_vector_at((#[trigger] v@[i])@.id) == Some(
                        v@[i]@,
                    )
                &&& forall|k: Seq<u8>|
                    #[trigger] tree_entries(self.tree).dom().contains(k) && is_prefix_of(
                        spec_vector_prefix(),
                        k,
                    ) ==> exists|i: int|
                        0 <= i < v@.len() && spec_vector_key((#[trigger] v@[i])@.id) == k
                &&& forall|i: int, j: int|
                    0 <= i < v@.len() && 0 <= j < v@.len() && i != j ==> (#[trigger] v@[i])@.id
                        != (#[trigger] v@[j])@.id
                &&& forall|i: int, j: int|
                    0 <= i < j < v@.len() ==> lex_lt(
                        spec_vector_key((#[trigger] v@[i])@.id),
                        spec_vector_key((#[trigger] v@[j])@.id),
                    )
            },
            r matches Err(e) ==> e == AlloyError::IoError || e == AlloyError::CorruptFormat,
            r matches Err(e) ==> (e == AlloyError::CorruptFormat ==> exists|k: Seq<u8>|
                #[trigger] tree_entries(self.tree).dom().contains(k) && is_prefix_of(
                    spec_vector_prefix(),
                    k,
                ) && (match spec_deser_vector(tree_entries(self.tree)[k]) {
                    None => true,
                    Some(v) => spec_vector_key(v.id) != k,
                })),
    {
        let prefix = vector_prefix_bytes();
        let items = match tree_scan_prefix(&self.tree, prefix.as_slice()) {
            Ok(x) => x,
            Err(e) => {
                return Err(e);
            },
        };
        let ghost entries = tree_entries(self.tree);
        let mut out: Vec<VectorRecord> = Vec::new();
        let mut i: usize = 0;
        while i < items.len()
            invariant
                0 <= i <= items@.len(),
                entries == tree_entries(self.tree),
                forall|t: int|
                    0 <= t < items@.len() ==> is_prefix_of(
                        spec_vector_prefix(),
                        (#[trigger] items@[t]).0@,
                    ) && entries.dom().contains(items@[t].0@) && entries[items@[t].0@]
                        == items@[t].1@,
                forall|k: Seq<u8>|
                    #[trigger] entries.dom().contains(k) && is_prefix_of(spec_vector_prefix(), k)
                        ==> exists|t: int| 0 <= t < items@.len() && (#[trigger] items@[t]).0@ == k,
                forall|t1: int, t2: int|
                    0 <= t1 < t2 < items@.len() ==> lex_lt(
                        (#[trigger] items@[t1]).0@,
                        (#[trigger] items@[t2]).0@,
                    ),
                out@.len() == i,
                forall|u: int|
                    0 <= u < out@.len() ==> self.spec_vector_at((#[trigger] out@[u])@.id)
                        == Some(out@[u]@),
                forall|u: int|
                    0 <= u < out@.len() ==> spec_vector_key((#[trigger] out@[u])@.id)
                        == items@[u].0@,
            decreases items@.len() - i,
        {
            let (k, val) = &items[i];
            let v = match deserialize_vector(val.as_slice()) {
                Some(v) => v,
                None => {
                    proof {
                        assert(tree_entries(self.tree).dom().contains(items@[i as int].0@));
                        assert(spec_deser_vector(tree_entries(self.tree)[items@[i as int].0@])
                            is None);
                    }
                    return Err(AlloyError::CorruptFormat);
                },
            };
            let vk = vector_key(v.id.value);
            if !bytes_equal(k.as_slice(), vk.as_slice()) {
                proof {
                    assert(tree_entries(self.tree).dom().contains(items@[i as int].0@));
                    assert(spec_deser_vector(tree_entries(self.tree)[items@[i as int].0@])
                        == Some(v@));
                    assert(spec_vector_key(v@.id) != items@[i as int].0@);
                }
                return Err(AlloyError::CorruptFormat);
            }
            proof {
                assert(k@ == spec_vector_key(v@.id));
                assert(entries[spec_vector_key(v@.id)] == val@);
                assert(self.spec_vector_at(v@.id) == Some(v@));
            }
            let ghost vv = v@;
            out.push(v);
            proof {
                assert(out@[out@.len() - 1]@ == vv);
                assert(spec_vector_key(out@[out@.len() - 1]@.id) == items@[i as int].0@);
            }
            i = i + 1;
        }
        proof {
            assert forall|u1: int, u2: int|
                0 <= u1 < out@.len() && 0 <= u2 < out@.len() && u1 != u2 implies (
            #[trigger] out@[u1])@.id != (#[trigger] out@[u2])@.id by {
                lemma_keys_injective(out@[u1]@.id, out@[u2]@.id);
                assert(items@[u1].0@ != items@[u2].0@);
            }
            assert forall|k: Seq<u8>|
                #[trigger] tree_entries(self.tree).dom().contains(k) && is_prefix_of(
                    spec_vector_prefix(),
                    k,
                ) implies exists|u: int|
                0 <= u < out@.len() && spec_vector_key((#[trigger] out@[u])@.id) == k by {
                let t = choose|t: int|
                    0 <= t < items@.len() && (#[trigger] items@[t]).0@ == k;
                assert(spec_vector_key(out@[t]@.id) == items@[t].0@);
            }
            assert forall|u1: int, u2: int|
                0 <= u1 < u2 < out@.len() implies lex_lt(
                spec_vector_key((#[trigger] out@[u1])@.id),
                spec_vector_key((#[trigger] out@[u2])@.id),
            ) by {
                assert(spec_vector_key(out@[u1]@.id) == items@[u1].0@);
                assert(spec_vector_key(out@[u2]@.id) == items@[u2].0@);
            }
        }
        Ok(out)
    }
}


impl Index {
    /// Queries the index for the records matching the given selectors.
    ///
    /// With an identifier, resolves it by point lookup: the single stored
    /// pair, or nothing if the identifier was never inserted; a metadata
    /// filter given alongside must then also match, or nothing is returned.
    /// With only a metadata filter, scans the metadata namespace and returns
    /// every pair whose fields equal the filter — same keys, same values,
    /// order-irrelevant, each matching identifier exactly once.  With no
    /// selector at all the query is invalid.  A record whose vector
    /// counterpart is missing is a broken pairing invariant and is surfaced
    /// as `ConsistencyError`, never skipped — and `ConsistencyError` comes
    /// only from such a record.
    #[verifier::loop_isolation(false)]
    pub fn query(
        &self,
        id: Option<&RecordId>,
        metadata: Option<&Vec<(String, FieldValue)>>,
    ) -> (r: Result<Vec<(MetaData, VectorRecord)>, AlloyError>)
        ensures
            (id is None && metadata is None) <==> r == Err::<
                Vec<(MetaData, VectorRecord)>,
                AlloyError,
            >(AlloyError::InvalidQuery),
            r matches Err(e) ==> e == AlloyError::InvalidQuery || e == AlloyError::IoError || e
                == AlloyError::CorruptFormat || e == AlloyError::ConsistencyError,
            r matches Err(e) ==> (e == AlloyError::ConsistencyError ==> (match id {
                Some(rid) => {
                    &&& self.spec_meta_at(rid.value) is Some
                    &&& self.spec_vector_at(rid.value) is None
                    &&& (metadata matches Some(f) ==> spec_fields_equiv(
                        self.spec_meta_at(rid.value).unwrap().custom_fields,
                        fields_view(f@),
                    ))
                },
                None => (match metadata {
                    Some(f) => exists|i: u128|
                        (#[trigger] self.spec_meta_at(i)) matches Some(m) && spec_fields_equiv(
                            m.custom_fields,
                            fields_view(f@),
                        ) && self.spec_vector_at(i) is None,
                    None => false,
                }),
            })),
            r matches Ok(ps) ==> (match id {
                Some(rid) => (match self.spec_meta_at(rid.value) {
                    None => ps@.len() == 0,
                    Some(m) => {
                        let keep = match metadata {
                            Some(f) => spec_fields_equiv(m.custom_fields, fields_view(f@)),
                            None => true,
                        };
                        if keep {
                            &&& ps@.len() == 1
                            &&& ps@[0].0@ == m
                            &&& self.spec_vector_at(rid.value) == Some(ps@[0].1@)
                        } else {
                            ps@.len() == 0
                        }
                    },
                }),
                None => (match metadata {
                    Some(f) => {
                        &&& forall|u: int|
                            0 <= u < ps@.len() ==> {
                                &&& self.spec_meta_at((#[trigger] ps@[u]).0@.id) == Some(
                                    ps@[u].0@,
                                )
                                &&& spec_fields_equiv(ps@[u].0@.custom_fields, fields_view(f@))
                                &&& self.spec_vector_at(ps@[u].0@.id) == Some(ps@[u].1@)
                            }
                        &&& forall|k: Seq<u8>|
                            #[trigger] tree_entries(self.tree).dom().contains(k) && is_prefix_of(
                                spec_meta_prefix(),
                                k,
                            ) ==> (spec_deser_meta(tree_entries(self.tree)[k]) matches Some(m)
                                ==> (spec_fields_equiv(m.custom_fields, fields_view(f@))
                                ==> exists|u: int|
                                0 <= u < ps@.len() && (#[trigger] ps@[u]).0@ == m))
                        &&& forall|u1: int, u2: int|
                            0 <= u1 < ps@.len() && 0 <= u2 < ps@.len() && u1 != u2 ==> (
                            #[trigger] ps@[u1]).0@.id != (#[trigger] ps@[u2]).0@.id
                    },
                    None => true,
                }),
            }),
    {
        if let Some(rid) = id {
            let found = match self.get_metadata(rid) {
                Ok(o) => o,
                Err(e) => {
                    return Err(e);
                },
            };
            match found {
                None => {
                    return Ok(Vec::new());
                },
                Some(m) => {
                    let keep = match metadata {
                        Some(f) => fields_equal(&m.custom_fields, f),
                        None => true,
                    };
                    if !keep {
                        return Ok(Vec::new());
                    }
                    let v = match self.get_vector(rid) {
                        Ok(Some(v)) => v,
                        Ok(None) => {
                            proof {
                                assert(self.spec_meta_at(rid.value) == Some(m@));
                                assert(self.spec_vector_at(rid.value) is None);
                            }
                            return Err(AlloyError::ConsistencyError);
                        },
                        Err(e) => {
                            return Err(e);
                        },
                    };
                    let mut out: Vec<(MetaData, VectorRecord)> = Vec::new();
                    out.push((m, v));
                    return Ok(out);
                },
            }
        }
        if let Some(f) = metadata {
            let mut metas = match self.all_metadata() {
                Ok(v) => v,
                Err(e) => {
                    return Err(e);
                },
            };
            let ghost metas0 = metas@;
            proof {
                assert(metas@ =~= metas0.take(metas@.len() as int));
                assert forall|u: int| 0 <= u < metas0.len() implies self.spec_meta_at(
                    (#[trigger] metas0[u])@.id,
                ) == Some(metas0[u]@) by {
                    assert(metas@[u] == metas0[u]);
                }
                assert forall|u1: int, u2: int|
                    0 <= u1 < metas0.len() && 0 <= u2 < metas0.len() && u1 != u2 implies (
                #[trigger] metas0[u1])@.id != (#[trigger] metas0[u2])@.id by {
                    assert(metas@[u1] == metas0[u1]);
                    assert(metas@[u2] == metas0[u2]);
                }
            }
            let mut out: Vec<(MetaData, VectorRecord)> = Vec::new();
            while metas.len() > 0
                invariant
                    metas@.len() <= metas0.len(),
                    metas@ == metas0.take(metas@.len() as int),
                    forall|u: int|
                        0 <= u < out@.len() ==> {
                            &&& self.spec_meta_at((#[trigger] out@[u]).0@.id) == Some(out@[u].0@)
                            &&& spec_fields_equiv(out@[u].0@.custom_fields, fields_view(f@))
                            &&& self.spec_vector_at(out@[u].0@.id) == Some(out@[u].1@)
                        },
                    forall|t: int|
                        metas@.len() <= t < metas0.len() ==> (spec_fields_equiv(
                            (#[trigger] metas0[t])@.custom_fields,
                            fields_view(f@),
                        ) ==> exists|u: int| 0 <= u < out@.len() && (#[trigger] out@[u]).0@ == metas0[t]@),
                    forall|u: int|
                        0 <= u < out@.len() ==> exists|t: int|
                            metas@.len() <= t < metas0.len() && (#[trigger] out@[u]).0@
                                == metas0[t]@,
                    forall|u1: int, u2: int|
                        0 <= u1 < out@.len() && 0 <= u2 < out@.len() && u1 != u2 ==> (
                        #[trigger] out@[u1]).0@.id != (#[trigger] out@[u2]).0@.id,
                decreases metas@.len(),
            {
                let ghost pre = metas@;
                let ghost pl = pre.len() as int;
                proof {
                    assert(pre.len() > 0);
                    assert(pre == metas0.take(pl));
                    assert(metas0.take(pl)[pl - 1] == metas0[pl - 1]);
                }
                let m = metas.pop().unwrap();
                proof {
                    assert(m == pre[pl - 1]);
                    assert(m == metas0[pl - 1]);
                    assert(metas@ == pre.subrange(0, pl - 1));
                    assert forall|w: int| 0 <= w < pl - 1 implies #[trigger] pre.subrange(
                        0,
                        pl - 1,
                    )[w] == metas0.take(pl - 1)[w] by {
                        assert(pre.subrange(0, pl - 1)[w] == pre[w]);
                        assert(metas0.take(pl)[w] == metas0[w]);
                        assert(metas0.take(pl - 1)[w] == metas0[w]);
                    }
                    assert(metas@ =~= metas0.take(pl - 1));
                    assert(metas@ == metas0.take(metas@.len() as int));
                }
                let ghost t0 = metas@.len() as int;
                if fields_equal(&m.custom_fields, f) {
                    let mid = m.id;
                    match self.get_vector(&mid) {
                        Ok(Some(v)) => {
                            let ghost pre_out = out@;
                            let ghost mv = m@;
                            let ghost vv = v@;
                            out.push((m, v));
                            proof {
                                assert((out@[out@.len() - 1]).0@ == mv);
                                assert((out@[out@.len() - 1]).1@ == vv);
                                assert((out@[out@.len() - 1]).0@ == metas0[t0]@);
                                assert forall|u: int|
                                    0 <= u < out@.len() implies exists|t: int|
                                    metas@.len() <= t < metas0.len() && (#[trigger] out@[u]).0@
                                        == metas0[t]@ by {
                                    if u < out@.len() - 1 {
                                        let t = choose|t: int|
                                            t0 + 1 <= t < metas0.len() && (pre_out[u]).0@
                                                == metas0[t]@;
                                        assert(out@[u] == pre_out[u]);
                                    }
                                }
                                assert forall|u1: int, u2: int|
                                    0 <= u1 < out@.len() && 0 <= u2 < out@.len() && u1 != u2
                                    implies (#[trigger] out@[u1]).0@.id != (
                                #[trigger] out@[u2]).0@.id by {
                                    if u1 == out@.len() - 1 && u2 < out@.len() - 1 {
                                        let t = choose|t: int|
                                            t0 + 1 <= t < metas0.len() && (pre_out[u2]).0@
                                                == metas0[t]@;
                                        assert(out@[u2] == pre_out[u2]);
                                        assert(metas0[t]@.id != metas0[t0]@.id);
                                    } else if u2 == out@.len() - 1 && u1 < out@.len() - 1 {
                                        let t = choose|t: int|
                                            t0 + 1 <= t < metas0.len() && (pre_out[u1]).0@
                                                == metas0[t]@;
                                        assert(out@[u1] == pre_out[u1]);
                                        assert(metas0[t]@.id != metas0[t0]@.id);
                                    } else {
                                        assert(out@[u1] == pre_out[u1]);
                                        assert(out@[u2] == pre_out[u2]);
                                    }
                                }
                                assert forall|t: int|
                                    metas@.len() <= t < metas0.len() implies (spec_fields_equiv(
                                        (#[trigger] metas0[t])@.custom_fields,
                                        fields_view(f@),
                                    ) ==> exists|u: int|
                                        0 <= u < out@.len() && (#[trigger] out@[u]).0@
                                            == metas0[t]@) by {
                                    if t == t0 {
                                        assert((out@[out@.len() - 1]).0@ == metas0[t]@);
                                    } else if spec_fields_equiv(
                                        metas0[t]@.custom_fields,
                                        fields_view(f@),
                                    ) {
                                        let u = choose|u: int|
                                            0 <= u < pre_out.len() && (pre_out[u]).0@
                                                == metas0[t]@;
                                        assert(out@[u] == pre_out[u]);
                                    }
                                }
                            }
                        },
                        Ok(None) => {
                            proof {
                                assert(self.spec_meta_at(m@.id) == Some(m@));
                                assert(self.spec_vector_at(m@.id) is None);
                                assert(spec_fields_equiv(m@.custom_fields, fields_view(f@)));
                            }
                            return Err(AlloyError::ConsistencyError);
                        },
                        Err(e) => {
                            return Err(e);
                        },
                    }
                } else {
                    proof {
                        assert(m@ == metas0[t0]@);
                    }
                }
            }
            proof {
                assert(metas@.len() == 0);
                assert forall|k: Seq<u8>|
                    #[trigger] tree_entries(self.tree).dom().contains(k) && is_prefix_of(
                        spec_meta_prefix(),
                        k,
                    ) implies (spec_deser_meta(tree_entries(self.tree)[k]) matches Some(m) ==> (
                spec_fields_equiv(m.custom_fields, fields_view(f@)) ==> exists|u: int|
                    0 <= u < out@.len() && (#[trigger] out@[u]).0@ == m)) by {
                    if spec_deser_meta(tree_entries(self.tree)[k]) is Some {
                        let m = spec_deser_meta(tree_entries(self.tree)[k]).unwrap();
                        let i = choose|i: int|
                            0 <= i < metas0.len() && spec_meta_key((#[trigger] metas0[i])@.id)
                                == k;
                        assert(self.spec_meta_at(metas0[i]@.id) == Some(metas0[i]@));
                        assert(tree_entries(self.tree).dom().contains(spec_meta_key(metas0[i]@.id)));
                        assert(spec_deser_meta(tree_entries(self.tree)[k]) == Some(metas0[i]@));
                        assert(m == metas0[i]@);
                    }
                }
            }
            return Ok(out);
        }
        Err(AlloyError::InvalidQuery)
    }
}

} // verus!
