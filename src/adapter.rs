use vstd::prelude::*;

use crate::error::{Error, Result};

verus! {

/// The contents of a store after `entries` were written in order, later
/// entries overriding earlier ones with the same key.
pub open spec fn apply_entries(
    m: Map<Seq<char>, Seq<char>>,
    entries: Seq<(String, String)>,
) -> Map<Seq<char>, Seq<char>>
    decreases entries.len(),
{
    if entries.len() == 0 {
        m
    } else {
        let last = entries.last();
        apply_entries(m, entries.drop_last()).insert(last.0@, last.1@)
    }
}

/// The only errors a backend reports: a missing record, or a failure of
/// its own.
pub open spec fn backend_error(e: Error) -> bool {
    e == Error::RecordNotFound || e is Storage
}

/// The capability contract of a backend: a map from text keys to text values.
pub trait StorageAdapter {
    /// The records that the backend holds. A backend that is not verified
    /// leaves this unspecified: its methods' contracts are then what its
    /// author vouches for.
    closed spec fn records(&self) -> Map<Seq<char>, Seq<char>> {
        arbitrary()
    }

    /// Whether the backend never fails on its own account (an in-memory map):
    /// then reads of present keys and all writes succeed.
    closed spec fn reliable(&self) -> bool {
        false
    }

    /// The identifier of the backend.
    closed spec fn name(&self) -> Seq<char> {
        arbitrary()
    }

    /// Names the backend, for diagnostics.
    fn id(&self) -> (r: &'static str)
        ensures
            r@ == self.name(),
    ;

    /// The value stored under `key`; `RecordNotFound` when there is none.
    fn get(&self, key: &str) -> (r: Result<String>)
        ensures
            r is Ok ==> self.records().contains_key(key@) && r->Ok_0@ == self.records()[key@],
            r is Err ==> backend_error(r->Err_0),
            r == Err::<String, Error>(Error::RecordNotFound) ==> !self.records().contains_key(key@),
            !self.records().contains_key(key@) ==> r is Err,
            self.reliable() && !self.records().contains_key(key@) ==> r == Err::<String, Error>(Error::RecordNotFound),
            self.reliable() && self.records().contains_key(key@) ==> r is Ok,
    ;

    /// Stores `record` under `key`; on failure nothing changes.
    fn set(&mut self, key: &str, record: String) -> (r: Result<()>)
        ensures
            final(self).reliable() == old(self).reliable(),
            final(self).name() == old(self).name(),
            old(self).reliable() ==> r is Ok,
            r is Ok ==> final(self).records() == old(self).records().insert(key@, record@),
            r is Err ==> final(self).records() == old(self).records() && r->Err_0 is Storage,
    ;

    /// Stores all `records` in one atomic unit: all of them or none.
    fn batch_set(&mut self, records: Vec<(String, String)>) -> (r: Result<()>)
        ensures
            final(self).reliable() == old(self).reliable(),
            final(self).name() == old(self).name(),
            old(self).reliable() ==> r is Ok,
            r is Ok ==> final(self).records() == apply_entries(old(self).records(), records@),
            r is Err ==> final(self).records() == old(self).records() && r->Err_0 is Storage,
    ;

    /// Deletes `key`; an absent key is no error. On failure nothing changes.
    fn remove(&mut self, key: &str) -> (r: Result<()>)
        ensures
            final(self).reliable() == old(self).reliable(),
            final(self).name() == old(self).name(),
            old(self).reliable() ==> r is Ok,
            r is Ok ==> final(self).records() == old(self).records().remove(key@),
            r is Err ==> final(self).records() == old(self).records() && r->Err_0 is Storage,
    ;
}

} // verus!
