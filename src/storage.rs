use vstd::prelude::*;

use crate::adapter::{apply_entries, StorageAdapter};
use crate::crypto::{decode_hex, encode_hex, hex_text, lemma_hex_text_injective, lemma_hex_text_len, open, open_sealed, seal, SEAL_OVERHEAD};
use crate::error::{storage_err, Error, Result};

verus! {

/// The text that `String::from_utf8` reads from `bytes`; `None` when they
/// are not UTF-8.
pub uninterp spec fn utf8_text(bytes: Seq<u8>) -> Option<Seq<char>>;

/// Relies on `String::into_bytes`: the UTF-8 encoding of the text, which
/// takes at least one byte per character and reads back as the same text.
#[verifier::external_body]
fn text_bytes(s: String) -> (r: Vec<u8>)
    ensures
        utf8_text(r@) == Some(s@),
        r@.len() >= s@.len(),
{
    s.into_bytes()
}

/// Relies on `String::from_utf8`: the text of the bytes when they are UTF-8.
#[verifier::external_body]
fn bytes_text(bytes: Vec<u8>) -> (r: Option<String>)
    ensures
        r is Some <==> utf8_text(bytes@) is Some,
        r is Some ==> r->Some_0@ == utf8_text(bytes@)->Some_0,
{
    String::from_utf8(bytes).ok()
}

/// `stored` is what protecting the text `value` under `key` commits: the
/// hexadecimal text of a sealed value that opens to its UTF-8 bytes.
pub open spec fn protects(key: Seq<u8>, stored: Seq<char>, value: Seq<char>) -> bool {
    exists|sealed: Seq<u8>, plain: Seq<u8>|
        stored == hex_text(sealed) && sealed.len() == plain.len() + SEAL_OVERHEAD
            && plain.len() >= value.len() && open_sealed(key, sealed) == Some(plain)
            && utf8_text(plain) == Some(value)
}

/// `stored` is what writing `value` commits to the backend, with or without a key.
pub open spec fn commits(key: Option<Seq<u8>>, stored: Seq<char>, value: Seq<char>) -> bool {
    match key {
        None => stored == value,
        Some(k) => protects(k, stored, value),
    }
}

/// The text that a stored record reads back as under `key`: unchanged
/// without a key; with one, the opened and authenticated text, or `None`.
pub open spec fn reveal_text(key: Option<Seq<u8>>, stored: Seq<char>) -> Option<Seq<char>> {
    match key {
        None => Some(stored),
        Some(k) => if exists|sealed: Seq<u8>| hex_text(sealed) == stored {
            let sealed = choose|sealed: Seq<u8>| hex_text(sealed) == stored;
            match open_sealed(k, sealed) {
                Some(plain) => utf8_text(plain),
                None => None,
            }
        } else {
            None
        },
    }
}

/// Each of `stored` commits the value of the entry of `entries` at the same
/// place, under the same key.
pub open spec fn commits_all(
    key: Option<Seq<u8>>,
    stored: Seq<(String, String)>,
    entries: Seq<(String, String)>,
) -> bool {
    stored.len() == entries.len() && forall|i: int| 0 <= i < entries.len()
        ==> (#[trigger] stored[i]).0@ == entries[i].0@ && commits(key, stored[i].1@, entries[i].1@)
}

/// What is written reads back: a committed record reveals the value written.
pub proof fn lemma_commit_reveals(key: Option<Seq<u8>>, stored: Seq<char>, value: Seq<char>)
    requires
        commits(key, stored, value),
    ensures
        reveal_text(key, stored) == Some(value),
{
    if let Some(k) = key {
        let (sealed, plain) = choose|sealed: Seq<u8>, plain: Seq<u8>|
            stored == hex_text(sealed) && sealed.len() == plain.len() + SEAL_OVERHEAD
                && plain.len() >= value.len() && open_sealed(k, sealed) == Some(plain)
                && utf8_text(plain) == Some(value);
        let other = choose|s: Seq<u8>| hex_text(s) == stored;
        lemma_hex_text_injective(other, sealed);
    }
}

/// A value set under a key reads back from that key, whatever else the
/// store holds.
pub proof fn lemma_set_then_get(
    key: Option<Seq<u8>>,
    records: Map<Seq<char>, Seq<char>>,
    k: Seq<char>,
    stored: Seq<char>,
    value: Seq<char>,
)
    requires
        commits(key, stored, value),
    ensures
        records.insert(k, stored).contains_key(k),
        reveal_text(key, records.insert(k, stored)[k]) == Some(value),
{
    lemma_commit_reveals(key, stored, value);
}

/// Under a key, neither the text committed nor the sealed bytes under it
/// equal the value written or its bytes.
pub proof fn lemma_protected_differs(key: Seq<u8>, stored: Seq<char>, value: Seq<char>)
    requires
        protects(key, stored, value),
    ensures
        stored != value,
        forall|sealed: Seq<u8>, plain: Seq<u8>|
            stored == hex_text(sealed) && utf8_text(plain) == Some(value)
                && open_sealed(key, sealed) == Some(plain) ==> sealed != plain,
{
    let (sealed, plain) = choose|sealed: Seq<u8>, plain: Seq<u8>|
        stored == hex_text(sealed) && sealed.len() == plain.len() + SEAL_OVERHEAD
            && plain.len() >= value.len() && open_sealed(key, sealed) == Some(plain)
            && utf8_text(plain) == Some(value);
    lemma_hex_text_len(sealed);
    assert forall|s: Seq<u8>, p: Seq<u8>|
        stored == hex_text(s) && utf8_text(p) == Some(value)
            && open_sealed(key, s) == Some(p) implies s != p by {
        lemma_hex_text_injective(s, sealed);
    }
}

/// A backend with optional transparent encryption of every value.
pub struct Storage<A: StorageAdapter> {
    inner: A,
    encryption_key: Option<[u8; 32]>,
}

impl<A: StorageAdapter> Storage<A> {
    /// The records as the backend holds them.
    pub closed spec fn records(&self) -> Map<Seq<char>, Seq<char>> {
        self.inner.records()
    }

    /// Whether the backend never fails on its own account.
    pub closed spec fn reliable(&self) -> bool {
        self.inner.reliable()
    }

    /// The identifier of the backend.
    pub closed spec fn name(&self) -> Seq<char> {
        self.inner.name()
    }

    /// The encryption key, if one is configured.
    pub closed spec fn key(&self) -> Option<Seq<u8>> {
        match self.encryption_key {
            Some(k) => Some(k@),
            None => None,
        }
    }

    /// Wraps `inner`, encrypting values under `encryption_key` when given.
    pub fn new(inner: A, encryption_key: Option<[u8; 32]>) -> (r: Self)
        ensures
            r.records() == inner.records(),
            r.reliable() == inner.reliable(),
            r.name() == inner.name(),
            r.key() == (match encryption_key {
                Some(k) => Some(k@),
                None => None::<Seq<u8>>,
            }),
    {
        Storage { inner, encryption_key }
    }

    /// Names the backend.
    pub fn id(&self) -> (r: &'static str)
        ensures
            r@ == self.name(),
    {
        self.inner.id()
    }

    /// Whether values are encrypted.
    pub fn is_encrypted(&self) -> (r: bool)
        ensures
            r == self.key() is Some,
    {
        self.encryption_key.is_some()
    }

    /// Gives the backend back.
    pub fn into_inner(self) -> (r: A)
        ensures
            r.records() == self.records(),
            r.reliable() == self.reliable(),
            r.name() == self.name(),
    {
        self.inner
    }

    /// What a stored record reads back as: itself without a key; with one,
    /// its opened text, or `DecryptionError`.
    pub fn read_stored(&self, stored: String) -> (r: Result<String>)
        ensures
            r is Ok <==> reveal_text(self.key(), stored@) is Some,
            r is Ok ==> Some(r->Ok_0@) == reveal_text(self.key(), stored@),
            r is Err ==> r == Err::<String, Error>(Error::DecryptionError),
    {
        match &self.encryption_key {
            None => Ok(stored),
            Some(k) => {
                let sealed = match decode_hex(stored.as_str()) {
                    Some(s) => s,
                    None => return Err(Error::DecryptionError),
                };
                proof {
                    let other = choose|s: Seq<u8>| hex_text(s) == stored@;
                    lemma_hex_text_injective(other, sealed@);
                }
                let plain = match open(k, sealed.as_slice()) {
                    Some(p) => p,
                    None => return Err(Error::DecryptionError),
                };
                match bytes_text(plain) {
                    Some(text) => Ok(text),
                    None => Err(Error::DecryptionError),
                }
            },
        }
    }

    /// The value under `key`, decrypted when a key is configured.
    pub fn get(&self, key: &str) -> (r: Result<String>)
        ensures
            r is Ok ==> self.records().contains_key(key@)
                && reveal_text(self.key(), self.records()[key@]) == Some(r->Ok_0@),
            !self.records().contains_key(key@) ==> r is Err,
            r is Err ==> r->Err_0 == Error::RecordNotFound || r->Err_0 == Error::DecryptionError
                || r->Err_0 is Storage,
            r == Err::<String, Error>(Error::RecordNotFound) ==> !self.records().contains_key(key@),
            r == Err::<String, Error>(Error::DecryptionError) ==> self.records().contains_key(key@)
                && reveal_text(self.key(), self.records()[key@]) is None,
            self.records().contains_key(key@) && reveal_text(self.key(), self.records()[key@]) is None
                ==> r is Err,
            self.reliable() && !self.records().contains_key(key@)
                ==> r == Err::<String, Error>(Error::RecordNotFound),
            self.reliable() && self.records().contains_key(key@)
                && reveal_text(self.key(), self.records()[key@]) is None
                ==> r == Err::<String, Error>(Error::DecryptionError),
            self.reliable() && self.records().contains_key(key@)
                && reveal_text(self.key(), self.records()[key@]) is Some ==> r is Ok,
    {
        let stored = self.inner.get(key)?;
        self.read_stored(stored)
    }

    /// What `value` becomes at the backend: itself, or its sealed form.
    fn protect(&self, value: String) -> (r: Result<String>)
        ensures
            r is Ok ==> commits(self.key(), r->Ok_0@, value@),
            self.key() is None ==> r is Ok,
            r is Err ==> r->Err_0 is Storage,
    {
        match &self.encryption_key {
            None => Ok(value),
            Some(k) => {
                let ghost text = value@;
                let plain = text_bytes(value);
                match seal(k, plain.as_slice()) {
                    Some(sealed) => {
                        let stored = encode_hex(sealed.as_slice());
                        assert(protects(k@, stored@, text));
                        Ok(stored)
                    },
                    None => Err(storage_err("encryption failed".to_string())),
                }
            },
        }
    }

    /// Stores `value` under `key`, encrypted when a key is configured; on
    /// failure nothing changes.
    pub fn set(&mut self, key: &str, value: String) -> (r: Result<()>)
        ensures
            final(self).key() == old(self).key(),
            final(self).reliable() == old(self).reliable(),
            final(self).name() == old(self).name(),
            old(self).reliable() && old(self).key() is None ==> r is Ok,
            r is Err ==> r->Err_0 is Storage,
            r is Ok ==> final(self).records().contains_key(key@) && final(self).records()
                == old(self).records().insert(key@, final(self).records()[key@])
                && commits(old(self).key(), final(self).records()[key@], value@),
            r is Err ==> final(self).records() == old(self).records(),
    {
        let stored = self.protect(value)?;
        self.inner.set(key, stored)
    }

    /// Stores all entries as one atomic unit, each value encrypted when a key
    /// is configured: either all of them become visible or none.
    pub fn batch_set(&mut self, entries: Vec<(String, String)>) -> (r: Result<()>)
        ensures
            final(self).key() == old(self).key(),
            final(self).reliable() == old(self).reliable(),
            final(self).name() == old(self).name(),
            old(self).reliable() && old(self).key() is None ==> r is Ok,
            r is Err ==> r->Err_0 is Storage,
            r is Ok ==> exists|stored: Seq<(String, String)>|
                commits_all(old(self).key(), stored, entries@)
                && final(self).records() == apply_entries(old(self).records(), stored),
            r is Err ==> final(self).records() == old(self).records(),
    {
        let ghost given = entries@;
        let mut stored: Vec<(String, String)> = Vec::new();
        let mut i: usize = 0;
        while i < entries.len()
            invariant
                given == entries@,
                i <= given.len(),
                stored@.len() == i,
                commits_all(self.key(), stored@, given.subrange(0, i as int)),
            decreases given.len() - i,
        {
            let k = entries[i].0.clone();
            let v = entries[i].1.clone();
            assert(k@ == given[i as int].0@ && v@ == given[i as int].1@);
            let protected = self.protect(v)?;
            let ghost prev = stored@;
            stored.push((k, protected));
            proof {
                let done = given.subrange(0, i + 1);
                assert forall|j: int| 0 <= j < done.len() implies (#[trigger] stored@[j]).0@ == done[j].0@
                    && commits(self.key(), stored@[j].1@, done[j].1@) by {
                    assert(done[j] == given[j]);
                    if j < i {
                        assert(stored@[j] == prev[j]);
                        assert(given.subrange(0, i as int)[j] == given[j]);
                        assert(commits(self.key(), prev[j].1@, given.subrange(0, i as int)[j].1@));
                    }
                }
                assert(commits_all(self.key(), stored@, done));
            }
            i = i + 1;
        }
        assert(given.subrange(0, given.len() as int) =~= given);
        assert(commits_all(self.key(), stored@, given));
        let ghost st = stored@;
        let r = self.inner.batch_set(stored);
        assert(r is Ok ==> self.records() == apply_entries(old(self).records(), st));
        assert(commits_all(old(self).key(), st, entries@));
        r
    }

    /// Deletes `key`; an absent key is no error. On failure nothing changes.
    pub fn remove(&mut self, key: &str) -> (r: Result<()>)
        ensures
            final(self).key() == old(self).key(),
            final(self).reliable() == old(self).reliable(),
            final(self).name() == old(self).name(),
            old(self).reliable() ==> r is Ok,
            r is Err ==> r->Err_0 is Storage,
            r is Ok ==> final(self).records() == old(self).records().remove(key@),
            r is Ok ==> !final(self).records().contains_key(key@),
            r is Err ==> final(self).records() == old(self).records(),
    {
        self.inner.remove(key)
    }
}

} // verus!
