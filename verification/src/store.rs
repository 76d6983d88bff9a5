//! The trusted boundary to the persistent substrate and the identifier
//! generator.  The substrate is sled: an embedded store of independently
//! scannable trees, each an ordered, durable map from byte keys to byte
//! values.  Each wrapper here makes exactly one outside call; its contract
//! states what sled's source shows over [`tree_entries`] and
//! [`batch_entries`], the names this module gives to a tree's and a batch's
//! contents.

use vstd::prelude::*;
use crate::AlloyError;
use crate::record::RecordId;

verus! {

#[verifier::external_type_specification]
#[verifier::external_body]
pub struct ExDb(sled::Db);

#[verifier::external_type_specification]
#[verifier::external_body]
pub struct ExTree(sled::Tree);

#[verifier::external_type_specification]
#[verifier::external_body]
pub struct ExBatch(sled::Batch);

/// The key/value pairs a tree currently holds.
pub uninterp spec fn tree_entries(t: sled::Tree) -> Map<Seq<u8>, Seq<u8>>;

/// The writes a batch will apply when it is applied to a tree.  A later
/// insert under the same key replaces an earlier one, as sled keys a batch's
/// writes by the key bytes.
pub uninterp spec fn batch_entries(b: sled::Batch) -> Map<Seq<u8>, Seq<u8>>;

/// `p` is a prefix of `k`.
pub open spec fn is_prefix_of(p: Seq<u8>, k: Seq<u8>) -> bool {
    p.len() <= k.len() && k.take(p.len() as int) == p
}

/// Strict lexicographic order on byte strings: `a` comes before `b`.  A
/// proper prefix comes before what it prefixes.  This is the order sled
/// keeps its keys in.
pub open spec fn lex_lt(a: Seq<u8>, b: Seq<u8>) -> bool
    decreases a.len(),
{
    if b.len() == 0 {
        false
    } else if a.len() == 0 {
        true
    } else if a[0] < b[0] {
        true
    } else if a[0] > b[0] {
        false
    } else {
        lex_lt(a.drop_first(), b.drop_first())
    }
}

/// Relies on `sled::open`: opens or creates the database rooted at `path`.
/// What its trees hold depends on what is on disk, so nothing is promised
/// of them; any failure is a substrate I/O failure.
#[verifier::external_body]
pub(crate) fn sled_open(path: &str) -> (r: Result<sled::Db, AlloyError>)
    ensures
        r matches Err(e) ==> e == AlloyError::IoError,
{
    match sled::open(path) {
        Ok(db) => Ok(db),
        Err(_) => Err(AlloyError::IoError),
    }
}

/// Relies on `sled::Db::open_tree`: opens or creates the independently
/// scannable tree of that name.  What the tree holds depends on what is on
/// disk, so nothing is promised of it.
#[verifier::external_body]
pub(crate) fn db_open_tree(db: &sled::Db, name: &str) -> (r: Result<sled::Tree, AlloyError>)
    ensures
        r matches Err(e) ==> e == AlloyError::IoError,
{
    match db.open_tree(name) {
        Ok(t) => Ok(t),
        Err(_) => Err(AlloyError::IoError),
    }
}

/// Relies on `sled::Tree::get`: returns the value stored under the key, or
/// `None` when the key is absent.
#[verifier::external_body]
pub(crate) fn tree_get(t: &sled::Tree, key: &[u8]) -> (r: Result<Option<Vec<u8>>, AlloyError>)
    ensures
        r matches Ok(o) ==> (match o {
            Some(v) => tree_entries(*t).dom().contains(key@) && tree_entries(*t)[key@] == v@,
            None => !tree_entries(*t).dom().contains(key@),
        }),
        r matches Err(e) ==> e == AlloyError::IoError,
{
    match t.get(key) {
        Ok(Some(v)) => Ok(Some(v.to_vec())),
        Ok(None) => Ok(None),
        Err(_) => Err(AlloyError::IoError),
    }
}

/// Relies on `sled::Batch::default`: a fresh batch holds no writes.
#[verifier::external_body]
pub(crate) fn batch_new() -> (r: sled::Batch)
    ensures
        batch_entries(r) =~= Map::empty(),
{
    sled::Batch::default()
}

/// Relies on `sled::Batch::insert`: records the write in the batch, keyed
/// by the key bytes.
#[verifier::external_body]
pub(crate) fn batch_insert(b: &mut sled::Batch, key: &[u8], value: &[u8])
    ensures
        batch_entries(*final(b)) == batch_entries(*old(b)).insert(key@, value@),
{
    b.insert(key, value);
}

/// Relies on `sled::Tree::apply_batch`: applies every write of the batch as
/// one atomic unit — after a success the tree holds its old entries
/// overridden by the batch's.
#[verifier::external_body]
pub(crate) fn tree_apply_batch(t: &mut sled::Tree, b: sled::Batch) -> (r: Result<
    (),
    AlloyError,
>)
    ensures
        r is Ok ==> tree_entries(*final(t)) == tree_entries(*old(t)).union_prefer_right(
            batch_entries(b),
        ),
        r matches Err(e) ==> e == AlloyError::IoError,
{
    match t.apply_batch(b) {
        Ok(()) => Ok(()),
        Err(_) => Err(AlloyError::IoError),
    }
}

/// Relies on `sled::Tree::scan_prefix`: yields, each exactly once and in
/// ascending lexicographic key order, the entries whose key starts with
/// the prefix, with their current values.
#[verifier::external_body]
pub(crate) fn tree_scan_prefix(t: &sled::Tree, prefix: &[u8]) -> (r: Result<
    Vec<(Vec<u8>, Vec<u8>)>,
    AlloyError,
>)
    ensures
        r matches Ok(v) ==> {
            &&& forall|i: int|
                0 <= i < v@.len() ==> is_prefix_of(prefix@, (#[trigger] v@[i]).0@)
                    && tree_entries(*t).dom().contains(v@[i].0@) && tree_entries(*t)[v@[i].0@]
                    == v@[i].1@
            &&& forall|k: Seq<u8>|
                #[trigger] tree_entries(*t).dom().contains(k) && is_prefix_of(prefix@, k)
                    ==> exists|i: int| 0 <= i < v@.len() && (#[trigger] v@[i]).0@ == k
            &&& forall|i: int, j: int|
                0 <= i < v@.len() && 0 <= j < v@.len() && i != j ==> (#[trigger] v@[i]).0@ != (
                #[trigger] v@[j]).0@
            &&& forall|i: int, j: int|
                0 <= i < j < v@.len() ==> lex_lt((#[trigger] v@[i]).0@, (#[trigger] v@[j]).0@)
        },
        r matches Err(e) ==> e == AlloyError::IoError,
{
    let mut out: Vec<(Vec<u8>, Vec<u8>)> = Vec::new();
    for item in t.scan_prefix(prefix) {
        match item {
            Ok((k, v)) => out.push((k.to_vec(), v.to_vec())),
            Err(_) => return Err(AlloyError::IoError),
        }
    }
    Ok(out)
}

/// Relies on `uuid::Uuid::new_v4` and `Uuid::as_u128`: a freshly generated
/// random identifier, big-endian as an integer, with the version nibble 4
/// and the leading variant bits `10` fixed.  The remaining bits are random,
/// so nothing more is promised.  The generator aborts the process only if
/// the operating system's randomness source fails — an environment
/// failure, not a function of any input.
#[verifier::external_body]
pub(crate) fn new_record_id() -> (r: RecordId)
    ensures
        (r.value >> 76) & 0xf == 4,
        (r.value >> 62) & 0x3 == 2,
{
    RecordId { value: uuid::Uuid::new_v4().as_u128() }
}

} // verus!
