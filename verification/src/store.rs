//! The persistent key-value store, taken on trust from sled.
//!
//! A tree's contents are named as a map from key bytes to value bytes;
//! each wrapper states, over that name, what the sled call it makes
//! does to the contents. An iterator's remaining entries are named as
//! a sequence pinned when the iterator is created; the library drains
//! every iterator before touching the tree again, which is what that
//! name assumes.

use vstd::prelude::*;

use crate::errors::ChainError;

verus! {

#[verifier::external_type_specification]
#[verifier::external_body]
pub struct ExDb(sled::Db);

#[verifier::external_type_specification]
#[verifier::external_body]
pub struct ExTree(sled::Tree);

#[verifier::external_type_specification]
#[verifier::external_body]
pub struct ExIter(sled::Iter);

#[verifier::external_type_specification]
#[verifier::external_body]
pub struct ExIVec(sled::IVec);

#[verifier::external_type_specification]
#[verifier::external_body]
pub struct ExSledError(sled::Error);

/// What a tree holds: its entries, as a map from key to value bytes.
pub uninterp spec fn tree_contents(t: sled::Tree) -> Map<Seq<u8>, Seq<u8>>;

/// The entries an iterator has still to yield, in the order it will
/// yield them.
pub uninterp spec fn iter_items(it: sled::Iter) -> Seq<(Seq<u8>, Seq<u8>)>;

/// Relies on `sled::Db::open_tree`: a handle to the named tree, whose
/// contents (whatever the disk holds) are finitely many entries.
#[verifier::external_body]
pub fn db_open_tree(db: &sled::Db, name: &[u8]) -> (r: Result<sled::Tree, ChainError>)
    ensures
        r matches Ok(t) ==> tree_contents(t).dom().finite(),
        r matches Err(e) ==> e == ChainError::Store,
{
    match db.open_tree(name) {
        Ok(t) => Ok(t),
        Err(_) => Err(ChainError::Store),
    }
}

/// Relies on `sled::Tree::get`: the value stored under `key`, `None`
/// when the key is absent.
#[verifier::external_body]
pub fn tree_get(t: &sled::Tree, key: &[u8]) -> (r: Result<Option<Vec<u8>>, ChainError>)
    ensures
        r matches Ok(o) ==> match o {
            Some(v) => tree_contents(*t).contains_key(key@) && tree_contents(*t)[key@] == v@,
            None => !tree_contents(*t).contains_key(key@),
        },
        r matches Err(e) ==> e == ChainError::Store,
{
    match t.get(key) {
        Ok(Some(v)) => Ok(Some(v.to_vec())),
        Ok(None) => Ok(None),
        Err(_) => Err(ChainError::Store),
    }
}

/// Relies on `sled::Tree::insert`: on success the tree holds `value`
/// under `key` and is otherwise unchanged. After an error the contents
/// are unknown.
#[verifier::external_body]
pub fn tree_insert(t: &mut sled::Tree, key: &[u8], value: &[u8]) -> (r: Result<(), ChainError>)
    ensures
        r is Ok ==> tree_contents(*final(t)) == tree_contents(*old(t)).insert(key@, value@)
            && tree_contents(*final(t)).dom().finite() == tree_contents(*old(t)).dom().finite(),
        r matches Err(e) ==> e == ChainError::Store,
{
    match t.insert(key, value) {
        Ok(_) => Ok(()),
        Err(_) => Err(ChainError::Store),
    }
}

/// Relies on `sled::Tree::remove`: on success the key is gone and the
/// tree is otherwise unchanged.
#[verifier::external_body]
pub fn tree_remove(t: &mut sled::Tree, key: &[u8]) -> (r: Result<(), ChainError>)
    ensures
        r is Ok ==> tree_contents(*final(t)) == tree_contents(*old(t)).remove(key@)
            && tree_contents(*final(t)).dom().finite() == tree_contents(*old(t)).dom().finite(),
        r matches Err(e) ==> e == ChainError::Store,
{
    match t.remove(key) {
        Ok(_) => Ok(()),
        Err(_) => Err(ChainError::Store),
    }
}

/// Relies on `sled::Tree::clear`: on success the tree is empty.
#[verifier::external_body]
pub fn tree_clear(t: &mut sled::Tree) -> (r: Result<(), ChainError>)
    ensures
        r is Ok ==> tree_contents(*final(t)) == tree_contents(*old(t)).restrict(
            Set::<Seq<u8>>::empty(),
        ) && tree_contents(*final(t)).dom() == Set::<Seq<u8>>::empty(),
        r matches Err(e) ==> e == ChainError::Store,
{
    match t.clear() {
        Ok(()) => Ok(()),
        Err(_) => Err(ChainError::Store),
    }
}

/// Relies on `sled::Tree::len`: how many entries the tree holds.
#[verifier::external_body]
pub fn tree_len(t: &sled::Tree) -> (r: usize)
    requires
        tree_contents(*t).dom().finite(),
    ensures
        r == tree_contents(*t).dom().len(),
{
    t.len()
}

/// Relies on `sled::Tree::iter`: an iterator that will yield exactly
/// the tree's entries, each key once, while the tree is left alone.
#[verifier::external_body]
pub fn tree_iter(t: &sled::Tree) -> (r: sled::Iter)
    ensures
        forall|i: int|
            0 <= i < iter_items(r).len() ==> tree_contents(*t).contains_pair(
                (#[trigger] iter_items(r)[i]).0,
                iter_items(r)[i].1,
            ),
        forall|k: Seq<u8>|
            tree_contents(*t).contains_key(k) ==> exists|i: int|
                0 <= i < iter_items(r).len() && (#[trigger] iter_items(r)[i]).0 == k,
        forall|i: int, j: int|
            0 <= i < j < iter_items(r).len() ==> (#[trigger] iter_items(r)[i]).0 != (
            #[trigger] iter_items(r)[j]).0,
{
    t.iter()
}

/// Relies on `sled::Iter::next`: the next remaining entry, or `None`
/// once none remain.
#[verifier::external_body]
pub fn iter_next(it: &mut sled::Iter) -> (r: Result<Option<(Vec<u8>, Vec<u8>)>, ChainError>)
    ensures
        r matches Ok(o) ==> match o {
            Some(kv) => iter_items(*old(it)).len() > 0 && iter_items(*old(it))[0] == (
                kv.0@,
                kv.1@,
            ) && iter_items(*final(it)) == iter_items(*old(it)).drop_first(),
            None => iter_items(*old(it)).len() == 0 && iter_items(*final(it)) == iter_items(
                *old(it),
            ),
        },
        r matches Err(e) ==> e == ChainError::Store,
{
    match it.next() {
        Some(Ok((k, v))) => Ok(Some((k.to_vec(), v.to_vec()))),
        Some(Err(_)) => Err(ChainError::Store),
        None => Ok(None),
    }
}

} // verus!
