use vstd::prelude::*;

use crate::adapter::StorageAdapter;
use crate::error::{storage_err, Error, Result};
use crate::records::{
    account_key, account_key_of, lemma_keys_distinct, decode_registry, encode_registry, registry_of_text, registry_text,
    schema_version_text, version_text, ACCOUNTS_INDEXATION_KEY, ACCOUNT_INDEXATION_KEY,
    ACCOUNT_MANAGER_INDEXATION_KEY, DATABASE_SCHEMA_VERSION_KEY, SECRET_MANAGER_KEY,
};
use crate::secret::{is_persisted, persisted, snapshot_of_text, snapshot_text, SecretManagerSnapshot};
use crate::storage::{commits, lemma_commit_reveals, reveal_text, Storage};

verus! {

/// The registry with `index` appended, unless it is already there.
pub open spec fn add_index(registry: Seq<u32>, index: u32) -> Seq<u32> {
    if registry.contains(index) {
        registry
    } else {
        registry.push(index)
    }
}

/// The registry with every occurrence of `index` left out, order kept.
pub open spec fn remove_index(registry: Seq<u32>, index: u32) -> Seq<u32>
    decreases registry.len(),
{
    if registry.len() == 0 {
        registry
    } else if registry.last() == index {
        remove_index(registry.drop_last(), index)
    } else {
        remove_index(registry.drop_last(), index).push(registry.last())
    }
}

/// How many times `index` occurs in the registry.
pub open spec fn count_of(registry: Seq<u32>, index: u32) -> nat
    decreases registry.len(),
{
    if registry.len() == 0 {
        0
    } else {
        count_of(registry.drop_last(), index) + if registry.last() == index { 1nat } else { 0nat }
    }
}

/// The registry as an operation finds it: the cache once loaded; before
/// that, the persisted registry, an absent record meaning an empty one.
/// `None` when the persisted record cannot be read as a registry.
pub open spec fn loaded_registry(
    cache: Option<Seq<u32>>,
    key: Option<Seq<u8>>,
    records: Map<Seq<char>, Seq<char>>,
) -> Option<Seq<u32>> {
    match cache {
        Some(registry) => Some(registry),
        None => if !records.contains_key(ACCOUNTS_INDEXATION_KEY@) {
            Some(Seq::empty())
        } else {
            match reveal_text(key, records[ACCOUNTS_INDEXATION_KEY@]) {
                Some(text) => registry_of_text(text),
                None => None,
            }
        },
    }
}

/// The value stored under `k`, as it reads back.
pub open spec fn read_back(key: Option<Seq<u8>>, records: Map<Seq<char>, Seq<char>>, k: Seq<char>) -> Option<Seq<char>> {
    if records.contains_key(k) {
        reveal_text(key, records[k])
    } else {
        None
    }
}

proof fn lemma_count_push(registry: Seq<u32>, x: u32, index: u32)
    ensures
        count_of(registry.push(x), index) == count_of(registry, index) + if x == index { 1nat } else { 0nat },
{
    assert(registry.push(x).drop_last() =~= registry);
}

proof fn lemma_count_absent(registry: Seq<u32>, index: u32)
    requires
        !registry.contains(index),
    ensures
        count_of(registry, index) == 0,
    decreases registry.len(),
{
    if registry.len() > 0 {
        assert(!registry.drop_last().contains(index)) by {
            if registry.drop_last().contains(index) {
                let j = choose|j: int| 0 <= j < registry.drop_last().len() && registry.drop_last()[j] == index;
                assert(registry[j] == index);
            }
        }
        lemma_count_absent(registry.drop_last(), index);
    }
}

proof fn lemma_count_unique(registry: Seq<u32>, index: u32)
    requires
        registry.no_duplicates(),
        registry.contains(index),
    ensures
        count_of(registry, index) == 1,
    decreases registry.len(),
{
    let rest = registry.drop_last();
    if registry.last() == index {
        assert(!rest.contains(index)) by {
            if rest.contains(index) {
                let j = choose|j: int| 0 <= j < rest.len() && rest[j] == index;
                assert(registry[j] == registry[registry.len() - 1]);
            }
        }
        lemma_count_absent(rest, index);
    } else {
        let j = choose|j: int| 0 <= j < registry.len() && registry[j] == index;
        assert(rest[j] == index);
        lemma_count_unique(rest, index);
    }
}

/// Adding an index keeps a registry free of duplicates.
pub proof fn lemma_add_index_unique(registry: Seq<u32>, index: u32)
    requires
        registry.no_duplicates(),
    ensures
        add_index(registry, index).no_duplicates(),
        add_index(registry, index).contains(index),
{
    if !registry.contains(index) {
        assert(registry.push(index)[registry.len() as int] == index);
    } else {
    }
}

/// Saving the same account index twice leaves it in the registry exactly
/// once, for any registry free of duplicates.
pub proof fn lemma_save_account_twice(registry: Seq<u32>, index: u32)
    requires
        registry.no_duplicates(),
    ensures
        count_of(add_index(add_index(registry, index), index), index) == 1,
{
    lemma_add_index_unique(registry, index);
    lemma_add_index_unique(add_index(registry, index), index);
    lemma_count_unique(add_index(add_index(registry, index), index), index);
}

proof fn lemma_remove_index_excludes(registry: Seq<u32>, index: u32)
    ensures
        !remove_index(registry, index).contains(index),
        forall|x: u32| x != index ==> (remove_index(registry, index).contains(x) <==> registry.contains(x)),
    decreases registry.len(),
{
    if registry.len() > 0 {
        let rest = registry.drop_last();
        lemma_remove_index_excludes(rest, index);
        assert(registry =~= rest.push(registry.last()));
        assert forall|x: u32| x != index implies (remove_index(registry, index).contains(x) <==> registry.contains(x)) by {
            if registry.contains(x) {
                let j = choose|j: int| 0 <= j < registry.len() && registry[j] == x;
                if j < rest.len() {
                    assert(rest[j] == x);
                    assert(rest.contains(x));
                    let rr = remove_index(rest, index);
                    assert(rr.contains(x));
                    let k = choose|k: int| 0 <= k < rr.len() && rr[k] == x;
                    assert(remove_index(registry, index)[k] == x);
                } else {
                    assert(remove_index(registry, index).last() == x);
                }
            }
            if remove_index(registry, index).contains(x) {
                let r = remove_index(registry, index);
                let j = choose|j: int| 0 <= j < r.len() && r[j] == x;
                if registry.last() != index && j == r.len() - 1 {
                    assert(registry[registry.len() - 1] == x);
                } else {
                    assert(remove_index(rest, index)[j] == x);
                    assert(remove_index(rest, index).contains(x));
                    assert(rest.contains(x));
                    let k = choose|k: int| 0 <= k < rest.len() && rest[k] == x;
                    assert(registry[k] == x);
                }
            }
        }
    }
}

/// Saving an account and then removing it leaves its index out of the
/// registry, while every other index saved stays in it.
pub proof fn lemma_save_then_remove_excludes(registry: Seq<u32>, index: u32)
    ensures
        !remove_index(add_index(registry, index), index).contains(index),
        forall|x: u32| x != index ==> (remove_index(add_index(registry, index), index).contains(x)
            <==> registry.contains(x)),
{
    lemma_remove_index_excludes(add_index(registry, index), index);
    assert forall|x: u32| x != index implies (add_index(registry, index).contains(x) <==> registry.contains(x)) by {
        if !registry.contains(index) {
            let r = registry.push(index);
            if r.contains(x) {
                let j = choose|j: int| 0 <= j < r.len() && r[j] == x;
                assert(registry[j] == x);
            }
            if registry.contains(x) {
                let j = choose|j: int| 0 <= j < registry.len() && registry[j] == x;
                assert(r[j] == x);
            }
        }
    }
}

/// What a read of the wallet-level configuration returns.
#[derive(Debug, Clone, PartialEq, Eq)]
pub struct AccountManagerData {
    /// The serialised wallet configuration.
    pub builder: String,
    /// The restorable secret manager, if one was saved.
    pub secret_manager: Option<SecretManagerSnapshot>,
}

/// Orchestrates the schema-version gate, the account-index registry and the
/// persistence policy of secret managers over an encrypting storage.
pub struct StorageManager<A: StorageAdapter> {
    storage: Storage<A>,
    account_indexes: Option<Vec<u32>>,
}

/// The decision on what a read of the schema-version record gave: `Ok(true)`
/// when the store has none and the running version must be written,
/// `Ok(false)` when it holds the running version, `UnsupportedSchemaVersion`
/// when it holds another; any other error is handed on.
pub fn schema_gate(found: Result<String>) -> (r: Result<bool>)
    ensures
        found is Ok && found->Ok_0@ == version_text() ==> r == Ok::<bool, Error>(false),
        found is Ok && found->Ok_0@ != version_text()
            ==> r == Err::<bool, Error>(Error::UnsupportedSchemaVersion(found->Ok_0)),
        found == Err::<String, Error>(Error::RecordNotFound) ==> r == Ok::<bool, Error>(true),
        found is Err && found != Err::<String, Error>(Error::RecordNotFound)
            ==> r == Err::<bool, Error>(found->Err_0),
{
    let expected = schema_version_text();
    match found {
        Ok(stored) => if stored == expected {
            Ok(false)
        } else {
            Err(Error::UnsupportedSchemaVersion(stored))
        },
        Err(Error::RecordNotFound) => Ok(true),
        Err(e) => Err(e),
    }
}

/// Checks the schema version of `storage`: writes the running version into
/// a store that has none, and refuses a store whose version differs, which
/// is then left untouched.
pub fn check_schema_version<A: StorageAdapter>(storage: &mut Storage<A>) -> (r: Result<()>)
    ensures
        final(storage).key() == old(storage).key(),
        final(storage).reliable() == old(storage).reliable(),
        final(storage).name() == old(storage).name(),
        r is Err ==> final(storage).records() == old(storage).records(),
        r is Err ==> r->Err_0 is UnsupportedSchemaVersion || r->Err_0 == Error::DecryptionError
            || r->Err_0 is Storage,
        r is Err && r->Err_0 is UnsupportedSchemaVersion ==> read_back(
            old(storage).key(), old(storage).records(), DATABASE_SCHEMA_VERSION_KEY@)
            == Some(r->Err_0->UnsupportedSchemaVersion_0@)
            && r->Err_0->UnsupportedSchemaVersion_0@ != version_text(),
        read_back(old(storage).key(), old(storage).records(), DATABASE_SCHEMA_VERSION_KEY@) is Some
            && read_back(old(storage).key(), old(storage).records(), DATABASE_SCHEMA_VERSION_KEY@)->Some_0
            != version_text() ==> r is Err,
        old(storage).reliable() && read_back(old(storage).key(), old(storage).records(), DATABASE_SCHEMA_VERSION_KEY@) is Some
            && read_back(old(storage).key(), old(storage).records(), DATABASE_SCHEMA_VERSION_KEY@)->Some_0
            != version_text() ==> r is Err && r->Err_0 is UnsupportedSchemaVersion,
        old(storage).reliable() && read_back(old(storage).key(), old(storage).records(), DATABASE_SCHEMA_VERSION_KEY@)
            == Some(version_text()) ==> r is Ok,
        old(storage).reliable() && old(storage).key() is None
            && !old(storage).records().contains_key(DATABASE_SCHEMA_VERSION_KEY@) ==> r is Ok,
        r is Ok ==> read_back(old(storage).key(), final(storage).records(), DATABASE_SCHEMA_VERSION_KEY@)
            == Some(version_text()),
        r is Ok && old(storage).records().contains_key(DATABASE_SCHEMA_VERSION_KEY@)
            ==> final(storage).records() == old(storage).records(),
        r is Ok ==> final(storage).records() == old(storage).records().insert(
            DATABASE_SCHEMA_VERSION_KEY@, final(storage).records()[DATABASE_SCHEMA_VERSION_KEY@]),
{
    let found = storage.get(DATABASE_SCHEMA_VERSION_KEY);
    let write = schema_gate(found)?;
    if write {
        let r = storage.set(DATABASE_SCHEMA_VERSION_KEY, schema_version_text());
        proof {
            if r is Ok {
                lemma_commit_reveals(
                    old(storage).key(),
                    storage.records()[DATABASE_SCHEMA_VERSION_KEY@],
                    version_text(),
                );
            }
        }
        r
    } else {
        proof {
            let m = storage.records();
            assert(m.insert(DATABASE_SCHEMA_VERSION_KEY@, m[DATABASE_SCHEMA_VERSION_KEY@]) =~= m);
        }
        Ok(())
    }
}

/// Opens a manager over `adapter`, encrypting values under
/// `encryption_key` when given, after the schema-version gate. The registry
/// is loaded on first use. On failure the adapter comes back, untouched.
pub fn new_storage_manager<A: StorageAdapter>(
    encryption_key: Option<[u8; 32]>,
    adapter: A,
) -> (r: core::result::Result<StorageManager<A>, (Error, A)>)
    ensures
        r is Err ==> r->Err_0.1.records() == adapter.records() && r->Err_0.1.reliable() == adapter.reliable()
            && r->Err_0.1.name() == adapter.name(),
        r is Err ==> r->Err_0.0 is UnsupportedSchemaVersion || r->Err_0.0 == Error::DecryptionError
            || r->Err_0.0 is Storage,
        r is Err && r->Err_0.0 is UnsupportedSchemaVersion ==> read_back(match encryption_key {
            Some(k) => Some(k@),
            None => None::<Seq<u8>>,
        }, adapter.records(),
            DATABASE_SCHEMA_VERSION_KEY@) == Some(r->Err_0.0->UnsupportedSchemaVersion_0@)
            && r->Err_0.0->UnsupportedSchemaVersion_0@ != version_text(),
        read_back(match encryption_key {
            Some(k) => Some(k@),
            None => None::<Seq<u8>>,
        }, adapter.records(), DATABASE_SCHEMA_VERSION_KEY@) is Some
            && read_back(match encryption_key {
            Some(k) => Some(k@),
            None => None::<Seq<u8>>,
        }, adapter.records(), DATABASE_SCHEMA_VERSION_KEY@)->Some_0 != version_text()
            ==> r is Err,
        adapter.reliable() && read_back(match encryption_key {
            Some(k) => Some(k@),
            None => None::<Seq<u8>>,
        }, adapter.records(), DATABASE_SCHEMA_VERSION_KEY@) is Some
            && read_back(match encryption_key {
            Some(k) => Some(k@),
            None => None::<Seq<u8>>,
        }, adapter.records(), DATABASE_SCHEMA_VERSION_KEY@)->Some_0 != version_text()
            ==> r is Err && r->Err_0.0 is UnsupportedSchemaVersion,
        adapter.reliable() && read_back(match encryption_key {
            Some(k) => Some(k@),
            None => None::<Seq<u8>>,
        }, adapter.records(), DATABASE_SCHEMA_VERSION_KEY@)
            == Some(version_text()) ==> r is Ok && r->Ok_0.records() == adapter.records(),
        adapter.reliable() && encryption_key is None
            && !adapter.records().contains_key(DATABASE_SCHEMA_VERSION_KEY@) ==> r is Ok,
        r is Ok ==> r->Ok_0.registry() is None,
        r is Ok && !adapter.records().contains_key(ACCOUNTS_INDEXATION_KEY@)
            ==> r->Ok_0.current_registry() == Some(Seq::<u32>::empty()),
        r is Ok ==> r->Ok_0.key() == match encryption_key {
            Some(k) => Some(k@),
            None => None::<Seq<u8>>,
        },
        r is Ok ==> r->Ok_0.reliable() == adapter.reliable() && r->Ok_0.name() == adapter.name(),
        r is Ok ==> read_back(r->Ok_0.key(), r->Ok_0.records(), DATABASE_SCHEMA_VERSION_KEY@) == Some(version_text()),
        r is Ok ==> r->Ok_0.records() == adapter.records().insert(
            DATABASE_SCHEMA_VERSION_KEY@, r->Ok_0.records()[DATABASE_SCHEMA_VERSION_KEY@]),
{
    let mut storage = Storage::new(adapter, encryption_key);
    proof {
        lemma_keys_distinct(0);
    }
    match check_schema_version(&mut storage) {
        Ok(()) => Ok(StorageManager { storage, account_indexes: None }),
        Err(e) => Err((e, storage.into_inner())),
    }
}

/// The decision on what a read of a registered account's record gave: a
/// missing record breaks the registry's consistency; anything else is
/// handed on.
pub fn account_of(index: u32, found: Result<String>) -> (r: Result<String>)
    ensures
        found == Err::<String, Error>(Error::RecordNotFound)
            ==> r == Err::<String, Error>(Error::InconsistentRegistry(index)),
        found != Err::<String, Error>(Error::RecordNotFound) ==> r == found,
{
    match found {
        Err(Error::RecordNotFound) => Err(Error::InconsistentRegistry(index)),
        other => other,
    }
}

/// The decision on what the reads of the configuration and the snapshot
/// gave: no configuration is `None`; no snapshot, or one whose variant is
/// never persisted, gives no secret manager; an unreadable snapshot is a
/// `Storage` error; other errors are handed on.
pub fn assemble(builder: Result<String>, snapshot: Result<String>) -> (r: Result<Option<AccountManagerData>>)
    ensures
        builder == Err::<String, Error>(Error::RecordNotFound) ==> r == Ok::<Option<AccountManagerData>, Error>(None),
        builder is Err && builder != Err::<String, Error>(Error::RecordNotFound)
            ==> r == Err::<Option<AccountManagerData>, Error>(builder->Err_0),
        builder is Ok && snapshot == Err::<String, Error>(Error::RecordNotFound) ==> r is Ok
            && r->Ok_0 is Some && r->Ok_0->Some_0.builder == builder->Ok_0
            && r->Ok_0->Some_0.secret_manager is None,
        builder is Ok && snapshot is Err && snapshot != Err::<String, Error>(Error::RecordNotFound)
            ==> r == Err::<Option<AccountManagerData>, Error>(snapshot->Err_0),
        builder is Ok && snapshot is Ok && snapshot_of_text(snapshot->Ok_0@) is None
            ==> r is Err && r->Err_0 is Storage,
        builder is Ok && snapshot is Ok && snapshot_of_text(snapshot->Ok_0@) is Some ==> r is Ok
            && r->Ok_0 is Some && r->Ok_0->Some_0.builder == builder->Ok_0
            && (r->Ok_0->Some_0.secret_manager is Some <==> persisted(snapshot_of_text(snapshot->Ok_0@)->Some_0.0))
            && (r->Ok_0->Some_0.secret_manager is Some ==>
                r->Ok_0->Some_0.secret_manager->Some_0.kind == snapshot_of_text(snapshot->Ok_0@)->Some_0.0
                && r->Ok_0->Some_0.secret_manager->Some_0.data@ == snapshot_of_text(snapshot->Ok_0@)->Some_0.1),
{
    let builder = match builder {
        Ok(b) => b,
        Err(Error::RecordNotFound) => return Ok(None),
        Err(e) => return Err(e),
    };
    let secret_manager = match snapshot {
        Ok(text) => match SecretManagerSnapshot::decode(text.as_str()) {
            Some(snapshot) => if is_persisted(snapshot.kind) {
                Some(snapshot)
            } else {
                None
            },
            None => return Err(storage_err("malformed secret manager snapshot".to_string())),
        },
        Err(Error::RecordNotFound) => None,
        Err(e) => return Err(e),
    };
    Ok(Some(AccountManagerData { builder, secret_manager }))
}

fn contains_index(indexes: &Vec<u32>, index: u32) -> (r: bool)
    ensures
        r == indexes@.contains(index),
{
    let mut i: usize = 0;
    while i < indexes.len()
        invariant
            i <= indexes@.len(),
            forall|j: int| 0 <= j < i ==> indexes@[j] != index,
        decreases indexes@.len() - i,
    {
        if indexes[i] == index {
            assert(indexes@[i as int] == index);
            return true;
        }
        i = i + 1;
    }
    false
}

fn clone_indexes(indexes: &Vec<u32>) -> (r: Vec<u32>)
    ensures
        r@ == indexes@,
{
    let r = indexes.clone();
    assert(r@ =~= indexes@);
    r
}

impl<A: StorageAdapter> StorageManager<A> {
    /// The records as the backend holds them.
    pub closed spec fn records(&self) -> Map<Seq<char>, Seq<char>> {
        self.storage.records()
    }

    /// The encryption key, if one is configured.
    pub closed spec fn key(&self) -> Option<Seq<u8>> {
        self.storage.key()
    }

    /// The cached registry; `None` while it is not loaded.
    pub closed spec fn registry(&self) -> Option<Seq<u32>> {
        match self.account_indexes {
            Some(v) => Some(v@),
            None => None,
        }
    }

    /// The registry as the next operation finds it.
    pub open spec fn current_registry(&self) -> Option<Seq<u32>> {
        loaded_registry(self.registry(), self.key(), self.records())
    }


    /// Whether the backend never fails on its own account.
    pub closed spec fn reliable(&self) -> bool {
        self.storage.reliable()
    }

    /// The identifier of the backend.
    pub closed spec fn name(&self) -> Seq<char> {
        self.storage.name()
    }

    /// Names the backend.
    pub fn id(&self) -> (r: &'static str)
        ensures
            r@ == self.name(),
    {
        self.storage.id()
    }

    /// Whether values are encrypted.
    pub fn is_encrypted(&self) -> (r: bool)
        ensures
            r == self.key() is Some,
    {
        self.storage.is_encrypted()
    }

    /// Closes the manager and gives the backend back.
    pub fn into_inner(self) -> (r: A)
        ensures
            r.records() == self.records(),
            r.reliable() == self.reliable(),
            r.name() == self.name(),
    {
        self.storage.into_inner()
    }

    /// The value under `key`, or `None` where there is none.
    pub fn get(&self, key: &str) -> (r: Result<Option<String>>)
        ensures
            r is Ok && r->Ok_0 is Some ==> read_back(self.key(), self.records(), key@) == Some(r->Ok_0->Some_0@),
            r == Ok::<Option<String>, Error>(None) ==> !self.records().contains_key(key@),
            r is Err ==> r->Err_0 == Error::DecryptionError || r->Err_0 is Storage,
            r == Err::<Option<String>, Error>(Error::DecryptionError) ==> self.records().contains_key(key@)
                && read_back(self.key(), self.records(), key@) is None,
            self.records().contains_key(key@) && read_back(self.key(), self.records(), key@) is None ==> r is Err,
            self.reliable() && !self.records().contains_key(key@) ==> r == Ok::<Option<String>, Error>(None),
            self.reliable() && read_back(self.key(), self.records(), key@) is Some ==> r is Ok && r->Ok_0 is Some
                && r->Ok_0->Some_0@ == read_back(self.key(), self.records(), key@)->Some_0,
            self.reliable() && self.records().contains_key(key@) && read_back(self.key(), self.records(), key@) is None
                ==> r == Err::<Option<String>, Error>(Error::DecryptionError),
    {
        match self.storage.get(key) {
            Ok(v) => Ok(Some(v)),
            Err(Error::RecordNotFound) => Ok(None),
            Err(e) => Err(e),
        }
    }

    /// The registry, loaded into the cache on first use.
    fn load_registry(&mut self) -> (r: Result<Vec<u32>>)
        ensures
            final(self).records() == old(self).records(),
            final(self).key() == old(self).key(),
            final(self).reliable() == old(self).reliable(),
            final(self).name() == old(self).name(),
            r is Ok ==> old(self).current_registry() == Some(r->Ok_0@) && final(self).registry() == Some(r->Ok_0@),
            r is Err ==> final(self).registry() == old(self).registry(),
            r is Err ==> r->Err_0 == Error::DecryptionError || r->Err_0 is Storage,
            old(self).registry() is Some ==> r is Ok,
            old(self).current_registry() is None ==> r is Err,
            old(self).reliable() && old(self).current_registry() is Some ==> r is Ok,
    {
        if let Some(cached) = &self.account_indexes {
            return Ok(clone_indexes(cached));
        }
        let indexes = match self.storage.get(ACCOUNTS_INDEXATION_KEY) {
            Ok(text) => match decode_registry(text.as_str()) {
                Some(v) => v,
                None => return Err(storage_err("malformed account index registry".to_string())),
            },
            Err(Error::RecordNotFound) => Vec::new(),
            Err(e) => return Err(e),
        };
        proof {
            if indexes@.len() == 0 {
                assert(indexes@ =~= Seq::<u32>::empty());
            }
        }
        self.account_indexes = Some(clone_indexes(&indexes));
        Ok(indexes)
    }

    /// The records of all registered accounts, in registry order, loading
    /// the registry on first use.
    pub fn get_accounts(&mut self) -> (r: Result<Vec<String>>)
        ensures
            final(self).records() == old(self).records(),
            final(self).key() == old(self).key(),
            final(self).reliable() == old(self).reliable(),
            final(self).name() == old(self).name(),
            old(self).registry() is Some ==> final(self).registry() == old(self).registry(),
            old(self).current_registry() is None ==> r is Err,
            old(self).registry() == Some(Seq::<u32>::empty()) ==> r is Ok && r->Ok_0@.len() == 0,
            old(self).reliable() && old(self).current_registry() == Some(Seq::<u32>::empty())
                ==> r is Ok && r->Ok_0@.len() == 0,
            old(self).reliable() && old(self).current_registry() is Some && (forall|i: int|
                0 <= i < old(self).current_registry()->Some_0.len() ==> (#[trigger] read_back(old(self).key(),
                old(self).records(), account_key(old(self).current_registry()->Some_0[i]))) is Some) ==> r is Ok,
            r is Ok ==> final(self).registry() == old(self).current_registry() && final(self).registry() is Some,
            r is Ok ==> r->Ok_0@.len() == final(self).registry()->Some_0.len(),
            r is Ok ==> forall|i: int| 0 <= i < r->Ok_0@.len() ==> read_back(
                final(self).key(), final(self).records(), account_key(final(self).registry()->Some_0[i]))
                == Some((#[trigger] r->Ok_0@[i])@),
            r is Err ==> r->Err_0 is InconsistentRegistry || r->Err_0 == Error::DecryptionError || r->Err_0 is Storage,
            r is Err && r->Err_0 is InconsistentRegistry ==> old(self).current_registry() is Some
                && old(self).current_registry()->Some_0.contains(r->Err_0->InconsistentRegistry_0)
                && !old(self).records().contains_key(account_key(r->Err_0->InconsistentRegistry_0)),
    {
        let indexes = self.load_registry()?;
        let mut accounts: Vec<String> = Vec::new();
        let mut i: usize = 0;
        while i < indexes.len()
            invariant
                i <= indexes@.len(),
                self.records() == old(self).records(),
                self.key() == old(self).key(),
                self.reliable() == old(self).reliable(),
                self.name() == old(self).name(),
                self.registry() == Some(indexes@),
                old(self).current_registry() == Some(indexes@),
                accounts@.len() == i,
                forall|j: int| 0 <= j < i ==> read_back(self.key(), self.records(), account_key(indexes@[j]))
                    == Some((#[trigger] accounts@[j])@),
            decreases indexes@.len() - i,
        {
            let index = indexes[i];
            let key = account_key_of(index);
            proof {
                assert(indexes@[i as int] == index);
                assert(indexes@.contains(index));
                if old(self).reliable() && (forall|j: int| 0 <= j < indexes@.len() ==> (#[trigger] read_back(
                    old(self).key(), old(self).records(), account_key(indexes@[j]))) is Some) {
                    assert(read_back(self.key(), self.records(), account_key(indexes@[i as int])) is Some);
                }
            }
            let account = account_of(index, self.storage.get(key.as_str()))?;
            accounts.push(account);
            i = i + 1;
        }
        Ok(accounts)
    }

    /// Saves the record of account `index` and registers the index, once.
    /// The registry is written before the record: a failure in between
    /// leaves the new registry without the record.
    pub fn save_account(&mut self, index: u32, account: String) -> (r: Result<()>)
        ensures
            final(self).key() == old(self).key(),
            final(self).reliable() == old(self).reliable(),
            final(self).name() == old(self).name(),
            old(self).current_registry() is None ==> r is Err,
            old(self).reliable() && old(self).key() is None && old(self).current_registry() is Some ==> r is Ok,
            r is Err ==> r->Err_0 == Error::DecryptionError || r->Err_0 is Storage,
            r is Ok ==> old(self).current_registry() is Some
                && final(self).registry() == Some(add_index(old(self).current_registry()->Some_0, index)),
            r is Ok ==> final(self).records() == old(self).records()
                .insert(ACCOUNTS_INDEXATION_KEY@, final(self).records()[ACCOUNTS_INDEXATION_KEY@])
                .insert(account_key(index), final(self).records()[account_key(index)]),
            r is Ok ==> commits(old(self).key(), final(self).records()[account_key(index)], account@),
            r is Ok ==> read_back(old(self).key(), final(self).records(), account_key(index)) == Some(account@),
            r is Ok ==> commits(old(self).key(), final(self).records()[ACCOUNTS_INDEXATION_KEY@],
                registry_text(add_index(old(self).current_registry()->Some_0, index))),
            r is Err ==> final(self).records() == old(self).records() || (old(self).current_registry() is Some
                && final(self).records() == old(self).records().insert(ACCOUNTS_INDEXATION_KEY@,
                    final(self).records()[ACCOUNTS_INDEXATION_KEY@])
                && commits(old(self).key(), final(self).records()[ACCOUNTS_INDEXATION_KEY@],
                    registry_text(add_index(old(self).current_registry()->Some_0, index)))),
    {
        let mut indexes = self.load_registry()?;
        let ghost reg = indexes@;
        if !contains_index(&indexes, index) {
            indexes.push(index);
        }
        assert(indexes@ == add_index(reg, index));
        let text = encode_registry(&indexes);
        self.account_indexes = Some(clone_indexes(&indexes));
        self.storage.set(ACCOUNTS_INDEXATION_KEY, text)?;
        let key = account_key_of(index);
        proof {
            lemma_keys_distinct(index);
        }
        let r = self.storage.set(key.as_str(), account);
        proof {
            if r is Ok {
                lemma_commit_reveals(old(self).key(), self.records()[account_key(index)], account@);
            }
        }
        r
    }

    /// Deletes the record of account `index` and drops the index from the
    /// registry, then writes the registry.
    pub fn remove_account(&mut self, index: u32) -> (r: Result<()>)
        ensures
            final(self).key() == old(self).key(),
            final(self).reliable() == old(self).reliable(),
            final(self).name() == old(self).name(),
            old(self).current_registry() is None ==> r is Err,
            old(self).reliable() && old(self).key() is None && old(self).current_registry() is Some ==> r is Ok,
            r is Err ==> r->Err_0 == Error::DecryptionError || r->Err_0 is Storage,
            r is Ok ==> old(self).current_registry() is Some
                && final(self).registry() == Some(remove_index(old(self).current_registry()->Some_0, index)),
            r is Ok ==> final(self).records() == old(self).records().remove(account_key(index))
                .insert(ACCOUNTS_INDEXATION_KEY@, final(self).records()[ACCOUNTS_INDEXATION_KEY@]),
            r is Ok ==> commits(old(self).key(), final(self).records()[ACCOUNTS_INDEXATION_KEY@],
                registry_text(remove_index(old(self).current_registry()->Some_0, index))),
            r is Err ==> (final(self).records() == old(self).records()
                && final(self).current_registry() == old(self).current_registry())
                || (old(self).current_registry() is Some
                && final(self).records() == old(self).records().remove(account_key(index))
                && final(self).registry() == Some(remove_index(old(self).current_registry()->Some_0, index))),
    {
        let indexes = self.load_registry()?;
        let key = account_key_of(index);
        self.storage.remove(key.as_str())?;
        let mut kept: Vec<u32> = Vec::new();
        let mut i: usize = 0;
        while i < indexes.len()
            invariant
                i <= indexes@.len(),
                kept@ == remove_index(indexes@.subrange(0, i as int), index),
            decreases indexes@.len() - i,
        {
            assert(indexes@.subrange(0, i + 1).drop_last() =~= indexes@.subrange(0, i as int));
            if indexes[i] != index {
                kept.push(indexes[i]);
            }
            i = i + 1;
        }
        assert(indexes@.subrange(0, indexes@.len() as int) =~= indexes@);
        let text = encode_registry(&kept);
        self.account_indexes = Some(clone_indexes(&kept));
        self.storage.set(ACCOUNTS_INDEXATION_KEY, text)
    }

    /// Saves the wallet-level configuration and, where the persistence
    /// policy allows it, the secret-manager snapshot; a mnemonic-derived
    /// secret manager is never written.
    pub fn save_account_manager_data(
        &mut self,
        builder: String,
        secret_manager: Option<SecretManagerSnapshot>,
    ) -> (r: Result<()>)
        ensures
            final(self).key() == old(self).key(),
            final(self).reliable() == old(self).reliable(),
            final(self).name() == old(self).name(),
            final(self).registry() == old(self).registry(),
            old(self).reliable() && old(self).key() is None ==> r is Ok,
            r is Err ==> r->Err_0 is Storage,
            r is Ok ==> commits(old(self).key(), final(self).records()[ACCOUNT_MANAGER_INDEXATION_KEY@], builder@),
            r is Ok ==> read_back(old(self).key(), final(self).records(), ACCOUNT_MANAGER_INDEXATION_KEY@)
                == Some(builder@),
            r is Ok && secret_manager is Some && persisted(secret_manager->Some_0.kind) ==> final(self).records()
                == old(self).records()
                .insert(ACCOUNT_MANAGER_INDEXATION_KEY@, final(self).records()[ACCOUNT_MANAGER_INDEXATION_KEY@])
                .insert(SECRET_MANAGER_KEY@, final(self).records()[SECRET_MANAGER_KEY@])
                && commits(old(self).key(), final(self).records()[SECRET_MANAGER_KEY@],
                    snapshot_text(secret_manager->Some_0.kind, secret_manager->Some_0.data@)),
            r is Ok && (secret_manager is None || !persisted(secret_manager->Some_0.kind)) ==> final(self).records()
                == old(self).records().insert(
                    ACCOUNT_MANAGER_INDEXATION_KEY@, final(self).records()[ACCOUNT_MANAGER_INDEXATION_KEY@]),
            r is Err ==> final(self).records() == old(self).records() || (final(self).records()
                == old(self).records().insert(
                    ACCOUNT_MANAGER_INDEXATION_KEY@, final(self).records()[ACCOUNT_MANAGER_INDEXATION_KEY@])
                && commits(old(self).key(), final(self).records()[ACCOUNT_MANAGER_INDEXATION_KEY@], builder@)),
    {
        let ghost text = builder@;
        self.storage.set(ACCOUNT_MANAGER_INDEXATION_KEY, builder)?;
        proof {
            lemma_keys_distinct(0);
        }
        let r = match secret_manager {
            Some(snapshot) => {
                if is_persisted(snapshot.kind) {
                    self.storage.set(SECRET_MANAGER_KEY, snapshot.encode())
                } else {
                    Ok(())
                }
            },
            None => Ok(()),
        };
        proof {
            lemma_commit_reveals(old(self).key(), self.records()[ACCOUNT_MANAGER_INDEXATION_KEY@], text);
        }
        r
    }

    /// Reads the wallet-level configuration back, with the secret manager
    /// where a restorable snapshot was saved; `None` when no configuration
    /// was saved.
    pub fn get_account_manager_data(&self) -> (r: Result<Option<AccountManagerData>>)
        ensures
            r == Ok::<Option<AccountManagerData>, Error>(None) ==> !self.records().contains_key(ACCOUNT_MANAGER_INDEXATION_KEY@),
            r is Ok && r->Ok_0 is Some ==> read_back(self.key(), self.records(), ACCOUNT_MANAGER_INDEXATION_KEY@) == Some(r->Ok_0->Some_0.builder@),
            r is Ok && r->Ok_0 is Some && r->Ok_0->Some_0.secret_manager is Some ==>
                persisted(r->Ok_0->Some_0.secret_manager->Some_0.kind) && read_back(self.key(), self.records(), SECRET_MANAGER_KEY@) is Some
                && snapshot_of_text(read_back(self.key(), self.records(), SECRET_MANAGER_KEY@)->Some_0) == Some((r->Ok_0->Some_0.secret_manager->Some_0.kind,
                    r->Ok_0->Some_0.secret_manager->Some_0.data@)),
            r is Ok && r->Ok_0 is Some && r->Ok_0->Some_0.secret_manager is None ==>
                !self.records().contains_key(SECRET_MANAGER_KEY@) || (read_back(self.key(), self.records(), SECRET_MANAGER_KEY@) is Some
                    && snapshot_of_text(read_back(self.key(), self.records(), SECRET_MANAGER_KEY@)->Some_0) is Some && !persisted(snapshot_of_text(read_back(self.key(), self.records(), SECRET_MANAGER_KEY@)->Some_0)->Some_0.0)),
            r is Err ==> r->Err_0 == Error::DecryptionError || r->Err_0 is Storage,
            self.records().contains_key(ACCOUNT_MANAGER_INDEXATION_KEY@) && read_back(self.key(), self.records(), ACCOUNT_MANAGER_INDEXATION_KEY@) is None ==> r is Err,
            self.reliable() && !self.records().contains_key(ACCOUNT_MANAGER_INDEXATION_KEY@)
                ==> r == Ok::<Option<AccountManagerData>, Error>(None),
            self.reliable() && read_back(self.key(), self.records(), ACCOUNT_MANAGER_INDEXATION_KEY@) is Some && !self.records().contains_key(SECRET_MANAGER_KEY@) ==> r is Ok
                && r->Ok_0 is Some && r->Ok_0->Some_0.builder@ == read_back(self.key(), self.records(), ACCOUNT_MANAGER_INDEXATION_KEY@)->Some_0
                && r->Ok_0->Some_0.secret_manager is None,
            self.reliable() && read_back(self.key(), self.records(), ACCOUNT_MANAGER_INDEXATION_KEY@) is Some && read_back(self.key(), self.records(), SECRET_MANAGER_KEY@) is Some && snapshot_of_text(read_back(self.key(), self.records(), SECRET_MANAGER_KEY@)->Some_0) is Some ==> r is Ok
                && r->Ok_0 is Some && r->Ok_0->Some_0.builder@ == read_back(self.key(), self.records(), ACCOUNT_MANAGER_INDEXATION_KEY@)->Some_0
                && (r->Ok_0->Some_0.secret_manager is Some <==> persisted(snapshot_of_text(read_back(self.key(), self.records(), SECRET_MANAGER_KEY@)->Some_0)->Some_0.0)),
    {
        let builder = self.storage.get(ACCOUNT_MANAGER_INDEXATION_KEY);
        let snapshot = if builder.is_ok() {
            self.storage.get(SECRET_MANAGER_KEY)
        } else {
            Err(Error::RecordNotFound)
        };
        assemble(builder, snapshot)
    }
}

} // verus!
