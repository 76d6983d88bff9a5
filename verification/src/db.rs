//! The database facade: owns the persistent substrate handle and a mapping
//! from index name to index, and routes upsert and query calls to the named
//! index.

use vstd::prelude::*;
use vstd::string::StringExecFns;
use crate::AlloyError;
use crate::index::{Index, spec_new_meta, spec_fields_equiv};
use crate::metadata::{FieldValue, MetaData, fields_view, spec_meta_size};
use crate::record::{RecordId, VectorRecord, VectorRecordV};
use crate::store::{sled_open, tree_entries, is_prefix_of};
use crate::index::spec_meta_prefix;
use crate::codec::spec_deser_meta;

verus! {

/// One record as a caller hands it to `upsert`: metadata fields, and vector
/// values as 32-bit IEEE-754 bit patterns.
pub struct Record {
    pub metadata: Vec<(String, FieldValue)>,
    pub vector: Vec<u32>,
}

/// The main database struct that holds the substrate handle and the
/// registered indexes, keyed by name.
pub struct AlloyDB {
    pub db: sled::Db,
    pub indexes: Vec<(String, Index)>,
}

impl AlloyDB {
    /// Whether an index of that name is registered.
    pub open spec fn spec_has_index(self, name: Seq<char>) -> bool {
        exists|i: int|
            0 <= i < self.indexes@.len() && (#[trigger] self.indexes@[i]).0@ == name
    }

    /// Well-formed: no two registered indexes share a name.
    pub open spec fn wf(self) -> bool {
        forall|i: int, j: int|
            0 <= i < j < self.indexes@.len() ==> (#[trigger] self.indexes@[i]).0@ != (
            #[trigger] self.indexes@[j]).0@
    }

    /// The registered index of that name; meaningful when one exists, and
    /// under [`AlloyDB::wf`] it is unique.
    pub open spec fn spec_index_named(self, name: Seq<char>) -> Index
        recommends
            self.spec_has_index(name),
    {
        self.indexes@[choose|i: int|
            0 <= i < self.indexes@.len() && (#[trigger] self.indexes@[i]).0@ == name].1
    }

    /// Opens or initializes the backing store at the path.  A fresh handle
    /// has no registered indexes.
    pub fn create(database_path: &str) -> (r: Result<AlloyDB, AlloyError>)
        ensures
            r matches Ok(d) ==> d.wf() && d.indexes@.len() == 0,
            r matches Err(e) ==> e == AlloyError::IoError,
    {
        let path = String::from_str(database_path).concat(".alloy");
        match sled_open(path.as_str()) {
            Ok(db) => Ok(AlloyDB { db, indexes: Vec::new() }),
            Err(e) => Err(e),
        }
    }

    /// The position of the index of that name, if one is registered.
    fn find_index(&self, name: &str) -> (r: Option<usize>)
        ensures
            r matches Some(i) ==> i < self.indexes@.len() && self.indexes@[i as int].0@ == name@,
            r is None ==> !self.spec_has_index(name@),
    {
        let key = String::from_str(name);
        let mut i: usize = 0;
        while i < self.indexes.len()
            invariant
                0 <= i <= self.indexes@.len(),
                key@ == name@,
                forall|t: int| 0 <= t < i ==> (#[trigger] self.indexes@[t]).0@ != name@,
            decreases self.indexes@.len() - i,
        {
            let p = &self.indexes[i];
            if p.0.eq(&key) {
                return Some(i);
            }
            i = i + 1;
        }
        None
    }

    /// Registers a new index under the name: fails with `DuplicateIndex` if
    /// and only if the name is already registered, and changes nothing on
    /// any failure.
    pub fn create_index(&mut self, name: &str) -> (r: Result<(), AlloyError>)
        requires
            old(self).wf(),
        ensures
            final(self).wf(),
            old(self).spec_has_index(name@) <==> r == Err::<(), AlloyError>(
                AlloyError::DuplicateIndex,
            ),
            r matches Err(e) ==> e == AlloyError::DuplicateIndex || e == AlloyError::IoError,
            r is Err ==> *final(self) == *old(self),
            r is Ok ==> final(self).indexes@.len() == old(self).indexes@.len() + 1
                && final(self).indexes@.drop_last() == old(self).indexes@
                && final(self).indexes@.last().0@ == name@ && final(self).spec_has_index(name@),
    {
        match self.find_index(name) {
            Some(_) => {
                return Err(AlloyError::DuplicateIndex);
            },
            None => (),
        }
        match Index::new(name, &self.db) {
            Ok(ix) => {
                let ghost pre = self.indexes@;
                self.indexes.push((String::from_str(name), ix));
                proof {
                    assert(self.indexes@.drop_last() =~= pre);
                    assert(self.indexes@.last().0@ == name@);
                    assert((self.indexes@[self.indexes@.len() - 1]).0@ == name@);
                    assert forall|i: int, j: int|
                        0 <= i < j < self.indexes@.len() implies (
                    #[trigger] self.indexes@[i]).0@ != (#[trigger] self.indexes@[j]).0@ by {
                        if j == self.indexes@.len() - 1 {
                            assert(self.indexes@[i] == pre[i]);
                            assert(!old(self).spec_has_index(name@));
                            assert(pre[i].0@ != name@);
                        } else {
                            assert(self.indexes@[i] == pre[i]);
                            assert(self.indexes@[j] == pre[j]);
                        }
                    }
                }
                Ok(())
            },
            Err(e) => Err(e),
        }
    }

    /// Inserts a record through the index of that name: fails with
    /// `IndexNotFound` if and only if the name is unregistered, and then
    /// changes nothing; else delegates to that index's insert.  The
    /// registered names, and every index other than the named one, are
    /// untouched either way.
    pub fn upsert(&mut self, index_id: &str, record: Record) -> (r: Result<RecordId, AlloyError>)
        requires
            old(self).wf(),
            spec_meta_size(spec_new_meta(0, fields_view(record.metadata@))) <= usize::MAX,
        ensures
            final(self).wf(),
            !old(self).spec_has_index(index_id@) <==> r == Err::<RecordId, AlloyError>(
                AlloyError::IndexNotFound,
            ),
            final(self).indexes@.len() == old(self).indexes@.len(),
            forall|t: int|
                0 <= t < final(self).indexes@.len() ==> (#[trigger] final(self).indexes@[t]).0@
                    == old(self).indexes@[t].0@,
            r matches Err(e) ==> (e == AlloyError::IndexNotFound ==> *final(self) == *old(self)),
            forall|t: int|
                0 <= t < final(self).indexes@.len() && (#[trigger] final(self).indexes@[t]).0@
                    != index_id@ ==> final(self).indexes@[t] == old(self).indexes@[t],
            r matches Ok(id) ==> (id.value >> 76) & 0xf == 4 && (id.value >> 62) & 0x3 == 2,
            r matches Ok(id) ==> exists|t: int|
                0 <= t < final(self).indexes@.len() && (#[trigger] final(self).indexes@[t]).0@
                    == index_id@ && final(self).indexes@[t].1.spec_meta_at(id.value) == Some(
                    spec_new_meta(id.value, fields_view(record.metadata@)),
                ) && final(self).indexes@[t].1.spec_vector_at(id.value) == Some(
                    VectorRecordV { id: id.value, values: record.vector@ },
                ),
    {
        let at = match self.find_index(index_id) {
            Some(i) => i,
            None => {
                return Err(AlloyError::IndexNotFound);
            },
        };
        let ghost pre = self.indexes@;
        let (nm, mut ix) = self.indexes.remove(at);
        let res = ix.insert(record.metadata, record.vector);
        let ghost ixv = ix;
        self.indexes.insert(at, (nm, ix));
        proof {
            assert(self.indexes@ =~= pre.update(at as int, (pre[at as int].0, ixv)));
            assert forall|t: int|
                0 <= t < self.indexes@.len() implies (#[trigger] self.indexes@[t]).0@
                == pre[t].0@ && ((#[trigger] self.indexes@[t]).0@ != index_id@
                ==> self.indexes@[t] == pre[t]) by {
                if t != at as int {
                    assert(self.indexes@[t] == pre[t]);
                }
            }
        }
        match res {
            Ok(id) => {
                proof {
                    assert((self.indexes@[at as int]).0@ == index_id@);
                    assert(self.indexes@[at as int].1 == ixv);
                }
                Ok(id)
            },
            Err(e) => Err(e),
        }
    }

    /// Queries the index of that name: fails with `IndexNotFound` if and
    /// only if the name is unregistered, else delegates to that index's
    /// query, under its contract: the same pairs — for a metadata filter,
    /// exactly the matching stored records, each identifier once — and the
    /// same typed errors.
    pub fn query(
        &self,
        index_id: &str,
        id: Option<&RecordId>,
        metadata: Option<&Vec<(String, FieldValue)>>,
    ) -> (r: Result<Vec<(MetaData, VectorRecord)>, AlloyError>)
        requires
            self.wf(),
        ensures
            !self.spec_has_index(index_id@) <==> r == Err::<
                Vec<(MetaData, VectorRecord)>,
                AlloyError,
            >(AlloyError::IndexNotFound),
            self.spec_has_index(index_id@) ==> ((id is None && metadata is None) <==> r == Err::<
                Vec<(MetaData, VectorRecord)>,
                AlloyError,
            >(AlloyError::InvalidQuery)),
            r matches Err(e) ==> (e == AlloyError::ConsistencyError ==> (match id {
                Some(rid) => {
                    &&& self.spec_index_named(index_id@).spec_meta_at(rid.value) is Some
                    &&& self.spec_index_named(index_id@).spec_vector_at(rid.value) is None
                    &&& (metadata matches Some(f) ==> spec_fields_equiv(
                        self.spec_index_named(index_id@).spec_meta_at(
                            rid.value,
                        ).unwrap().custom_fields,
                        fields_view(f@),
                    ))
                },
                None => (match metadata {
                    Some(f) => exists|i: u128|
                        (#[trigger] self.spec_index_named(index_id@).spec_meta_at(i)) matches Some(
                            m,
                        ) && spec_fields_equiv(m.custom_fields, fields_view(f@))
                            && self.spec_index_named(index_id@).spec_vector_at(i) is None,
                    None => false,
                }),
            })),
            r matches Ok(ps) ==> (match id {
                Some(rid) => (match self.spec_index_named(index_id@).spec_meta_at(rid.value) {
                    None => ps@.len() == 0,
                    Some(m) => {
                        let keep = match metadata {
                            Some(f) => spec_fields_equiv(m.custom_fields, fields_view(f@)),
                            None => true,
                        };
                        if keep {
                            &&& ps@.len() == 1
                            &&& ps@[0].0@ == m
                            &&& self.spec_index_named(index_id@).spec_vector_at(rid.value)
                                == Some(ps@[0].1@)
                        } else {
                            ps@.len() == 0
                        }
                    },
                }),
                None => (match metadata {
                    Some(f) => {
                        &&& forall|u: int|
                            0 <= u < ps@.len() ==> {
                                &&& self.spec_index_named(index_id@).spec_meta_at(
                                    (#[trigger] ps@[u]).0@.id,
                                ) == Some(ps@[u].0@)
                                &&& spec_fields_equiv(ps@[u].0@.custom_fields, fields_view(f@))
                                &&& self.spec_index_named(index_id@).spec_vector_at(ps@[u].0@.id)
                                    == Some(ps@[u].1@)
                            }
                        &&& forall|k: Seq<u8>|
                            #[trigger] tree_entries(
                                self.spec_index_named(index_id@).tree,
                            ).dom().contains(k) && is_prefix_of(spec_meta_prefix(), k) ==> (
                            spec_deser_meta(
                                tree_entries(self.spec_index_named(index_id@).tree)[k],
                            ) matches Some(m) ==> (spec_fields_equiv(
                                m.custom_fields,
                                fields_view(f@),
                            ) ==> exists|u: int|
                                0 <= u < ps@.len() && (#[trigger] ps@[u]).0@ == m))
                        &&& forall|u1: int, u2: int|
                            0 <= u1 < ps@.len() && 0 <= u2 < ps@.len() && u1 != u2 ==> (
                            #[trigger] ps@[u1]).0@.id != (#[trigger] ps@[u2]).0@.id
                    },
                    None => true,
                }),
            }),
    {
        let at = match self.find_index(index_id) {
            Some(i) => i,
            None => {
                return Err(AlloyError::IndexNotFound);
            },
        };
        let p = &self.indexes[at];
        let r = p.1.query(id, metadata);
        proof {
            let c = choose|i: int|
                0 <= i < self.indexes@.len() && (#[trigger] self.indexes@[i]).0@ == index_id@;
            if c != at as int {
                assert((self.indexes@[c]).0@ == (self.indexes@[at as int]).0@);
                assert(false);
            }
            assert(self.spec_index_named(index_id@) == self.indexes@[at as int].1);
        }
        r
    }
}

} // verus!
