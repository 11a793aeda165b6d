use vstd::prelude::*;

use crate::adapter::{apply_entries, StorageAdapter};
use crate::error::{Error, Result};

verus! {

/// The storage id of the in-memory backend.
pub const MEMORY_STORAGE_ID: &'static str = "Memory";

/// The map that a log of writes describes: later entries override earlier ones.
pub open spec fn log_map(log: Seq<(String, String)>) -> Map<Seq<char>, Seq<char>> {
    apply_entries(Map::empty(), log)
}

/// Appending entries to a log applies them to the map it describes.
proof fn lemma_log_append(log: Seq<(String, String)>, more: Seq<(String, String)>)
    ensures
        log_map(log + more) == apply_entries(log_map(log), more),
    decreases more.len(),
{
    if more.len() == 0 {
        assert(log + more =~= log);
    } else {
        lemma_log_append(log, more.drop_last());
        assert((log + more).drop_last() =~= log + more.drop_last());
    }
}

/// Past the last write of `k`, the value at `k` is the one of that prefix.
proof fn lemma_log_prefix(log: Seq<(String, String)>, j: int, k: Seq<char>)
    requires
        0 <= j <= log.len(),
        forall|i: int| j <= i < log.len() ==> log[i].0@ != k,
    ensures
        log_map(log).contains_key(k) == log_map(log.subrange(0, j)).contains_key(k),
        log_map(log).contains_key(k) ==> log_map(log)[k] == log_map(log.subrange(0, j))[k],
    decreases log.len() - j,
{
    if j < log.len() {
        let shorter = log.drop_last();
        lemma_log_prefix(shorter, j, k);
        assert(shorter.subrange(0, j) =~= log.subrange(0, j));
    } else {
        assert(log.subrange(0, j) =~= log);
    }
}

/// The log with every write of `k` left out.
pub open spec fn without_key(log: Seq<(String, String)>, k: Seq<char>) -> Seq<(String, String)>
    decreases log.len(),
{
    if log.len() == 0 {
        log
    } else if log.last().0@ == k {
        without_key(log.drop_last(), k)
    } else {
        without_key(log.drop_last(), k).push(log.last())
    }
}

/// Dropping every write of `k` from a log removes `k` from its map.
proof fn lemma_log_without(log: Seq<(String, String)>, k: Seq<char>)
    ensures
        log_map(without_key(log, k)) == log_map(log).remove(k),
    decreases log.len(),
{
    if log.len() == 0 {
        assert(log_map(log).remove(k) =~= log_map(log));
    } else {
        lemma_log_without(log.drop_last(), k);
        let w = without_key(log, k);
        if log.last().0@ != k {
            assert(w.drop_last() =~= without_key(log.drop_last(), k));
        }
        assert(log_map(w) =~= log_map(log).remove(k));
    }
}

/// A backend that holds its records in memory, as a log of writes.
#[derive(Debug)]
pub struct MemoryStorageAdapter {
    log: Vec<(String, String)>,
}

impl MemoryStorageAdapter {
    /// An empty in-memory store.
    pub fn new() -> (r: Self)
        ensures
            r.records() == Map::<Seq<char>, Seq<char>>::empty(),
            r.reliable(),
    {
        MemoryStorageAdapter { log: Vec::new() }
    }
}

impl StorageAdapter for MemoryStorageAdapter {
    closed spec fn records(&self) -> Map<Seq<char>, Seq<char>> {
        log_map(self.log@)
    }

    closed spec fn reliable(&self) -> bool {
        true
    }

    closed spec fn name(&self) -> Seq<char> {
        MEMORY_STORAGE_ID@
    }

    fn id(&self) -> (r: &'static str)
        ensures
            r == MEMORY_STORAGE_ID,
    {
        MEMORY_STORAGE_ID
    }

    fn get(&self, key: &str) -> (r: Result<String>)
        ensures
            r is Ok <==> self.records().contains_key(key@),
            r is Ok ==> r->Ok_0@ == self.records()[key@],
            r is Err ==> r == Err::<String, Error>(Error::RecordNotFound),
    {
        let k = key.to_owned();
        let mut j: usize = self.log.len();
        while j > 0
            invariant
                j <= self.log@.len(),
                k@ == key@,
                forall|i: int| j <= i < self.log@.len() ==> self.log@[i].0@ != key@,
            decreases j,
        {
            if self.log[j - 1].0 == k {
                proof {
                    lemma_log_prefix(self.log@, j as int, key@);
                    assert(self.log@.subrange(0, j as int).drop_last()
                        =~= self.log@.subrange(0, j - 1));
                }
                return Ok(self.log[j - 1].1.clone());
            }
            j = j - 1;
        }
        proof {
            lemma_log_prefix(self.log@, 0, key@);
        }
        Err(Error::RecordNotFound)
    }

    fn set(&mut self, key: &str, record: String) -> (r: Result<()>)
        ensures
            r is Ok,
            final(self).records() == old(self).records().insert(key@, record@),
    {
        let ghost before = self.log@;
        self.log.push((key.to_owned(), record));
        proof {
            assert(self.log@.drop_last() =~= before);
        }
        Ok(())
    }

    fn batch_set(&mut self, records: Vec<(String, String)>) -> (r: Result<()>)
        ensures
            r is Ok,
            final(self).records() == apply_entries(old(self).records(), records@),
    {
        let ghost before = self.log@;
        let ghost batch = records@;
        let mut records = records;
        self.log.append(&mut records);
        proof {
            lemma_log_append(before, batch);
        }
        Ok(())
    }

    fn remove(&mut self, key: &str) -> (r: Result<()>)
        ensures
            r is Ok,
            final(self).records() == old(self).records().remove(key@),
    {
        let k = key.to_owned();
        let mut kept: Vec<(String, String)> = Vec::new();
        let mut i: usize = 0;
        while i < self.log.len()
            invariant
                i <= self.log@.len(),
                k@ == key@,
                kept@ == without_key(self.log@.subrange(0, i as int), key@),
            decreases self.log@.len() - i,
        {
            proof {
                assert(self.log@.subrange(0, i + 1).drop_last() =~= self.log@.subrange(0, i as int));
            }
            if !(self.log[i].0 == k) {
                kept.push((self.log[i].0.clone(), self.log[i].1.clone()));
            }
            i = i + 1;
        }
        proof {
            assert(self.log@.subrange(0, self.log@.len() as int) =~= self.log@);
            lemma_log_without(self.log@, key@);
        }
        self.log = kept;
        Ok(())
    }
}

} // verus!
