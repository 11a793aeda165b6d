use vstd::prelude::*;

use crate::crypto::{decode_hex, encode_hex, hex_text, lemma_hex_text_injective, lemma_hex_text_len};

verus! {

/// Version of the persisted layout that this library reads and writes.
pub const DATABASE_SCHEMA_VERSION: u8 = 1;

/// Key of the schema-version record.
pub const DATABASE_SCHEMA_VERSION_KEY: &'static str = "database-schema-version";

/// Key of the account-index registry.
pub const ACCOUNTS_INDEXATION_KEY: &'static str = "iota-wallet-account-indexation";

/// Prefix of the key of each account record, followed by its index.
pub const ACCOUNT_INDEXATION_KEY: &'static str = "iota-wallet-account-";

/// Key of the wallet-level configuration.
pub const ACCOUNT_MANAGER_INDEXATION_KEY: &'static str = "iota-wallet-account-manager";

/// Key of the secret-manager snapshot.
pub const SECRET_MANAGER_KEY: &'static str = "secret_manager";

/// The four bytes of an index, most significant first.
pub open spec fn index_bytes(n: u32) -> Seq<u8> {
    seq![(n >> 24u32) as u8, (n >> 16u32) as u8, (n >> 8u32) as u8, n as u8]
}

/// The index that four bytes, most significant first, spell.
pub open spec fn word_of(b0: u8, b1: u8, b2: u8, b3: u8) -> u32 {
    ((b0 as u32) << 24u32) | ((b1 as u32) << 16u32) | ((b2 as u32) << 8u32) | (b3 as u32)
}

/// The bytes of a registry: the bytes of each index in order.
pub open spec fn registry_bytes(s: Seq<u32>) -> Seq<u8>
    decreases s.len(),
{
    if s.len() == 0 {
        Seq::empty()
    } else {
        registry_bytes(s.drop_last()) + index_bytes(s.last())
    }
}

/// The text under which a registry is persisted.
pub open spec fn registry_text(s: Seq<u32>) -> Seq<char> {
    hex_text(registry_bytes(s))
}

/// The registry that a persisted text holds, if it holds one.
pub open spec fn registry_of_text(t: Seq<char>) -> Option<Seq<u32>> {
    if exists|s: Seq<u32>| registry_text(s) == t {
        Some(choose|s: Seq<u32>| registry_text(s) == t)
    } else {
        None
    }
}

/// The key under which the record of account `index` is stored.
pub open spec fn account_key(index: u32) -> Seq<char> {
    ACCOUNT_INDEXATION_KEY@ + hex_text(index_bytes(index))
}

/// The text of the running schema version.
pub open spec fn version_text() -> Seq<char> {
    hex_text(seq![DATABASE_SCHEMA_VERSION])
}

proof fn lemma_word_round_trip(n: u32, b0: u8, b1: u8, b2: u8, b3: u8)
    ensures
        word_of((n >> 24u32) as u8, (n >> 16u32) as u8, (n >> 8u32) as u8, n as u8) == n,
        (word_of(b0, b1, b2, b3) >> 24u32) as u8 == b0,
        (word_of(b0, b1, b2, b3) >> 16u32) as u8 == b1,
        (word_of(b0, b1, b2, b3) >> 8u32) as u8 == b2,
        word_of(b0, b1, b2, b3) as u8 == b3,
{
    assert(((((n >> 24u32) as u8) as u32) << 24u32) | ((((n >> 16u32) as u8) as u32) << 16u32)
        | ((((n >> 8u32) as u8) as u32) << 8u32) | ((n as u8) as u32) == n) by (bit_vector);
    assert(((((b0 as u32) << 24u32) | ((b1 as u32) << 16u32) | ((b2 as u32) << 8u32) | (b3 as u32))
        >> 24u32) as u8 == b0) by (bit_vector);
    assert(((((b0 as u32) << 24u32) | ((b1 as u32) << 16u32) | ((b2 as u32) << 8u32) | (b3 as u32))
        >> 16u32) as u8 == b1) by (bit_vector);
    assert(((((b0 as u32) << 24u32) | ((b1 as u32) << 16u32) | ((b2 as u32) << 8u32) | (b3 as u32))
        >> 8u32) as u8 == b2) by (bit_vector);
    assert((((b0 as u32) << 24u32) | ((b1 as u32) << 16u32) | ((b2 as u32) << 8u32) | (b3 as u32))
        as u8 == b3) by (bit_vector);
}

proof fn lemma_registry_bytes_len(s: Seq<u32>)
    ensures
        registry_bytes(s).len() == 4 * s.len(),
    decreases s.len(),
{
    if s.len() > 0 {
        lemma_registry_bytes_len(s.drop_last());
    }
}

/// A registry's bytes determine the registry.
proof fn lemma_registry_bytes_injective(a: Seq<u32>, b: Seq<u32>)
    requires
        registry_bytes(a) == registry_bytes(b),
    ensures
        a == b,
    decreases a.len(),
{
    lemma_registry_bytes_len(a);
    lemma_registry_bytes_len(b);
    if a.len() > 0 {
        let ra = registry_bytes(a);
        let n = ra.len();
        lemma_registry_bytes_len(a.drop_last());
        lemma_registry_bytes_len(b.drop_last());
        assert(registry_bytes(a.drop_last()) =~= ra.subrange(0, n - 4));
        assert(registry_bytes(b.drop_last()) =~= ra.subrange(0, n - 4));
        lemma_registry_bytes_injective(a.drop_last(), b.drop_last());
        assert(index_bytes(a.last()) =~= ra.subrange(n - 4, n as int));
        assert(index_bytes(b.last()) =~= ra.subrange(n - 4, n as int));
        let (x, y) = (a.last(), b.last());
        lemma_word_round_trip(x, 0, 0, 0, 0);
        lemma_word_round_trip(y, 0, 0, 0, 0);
        assert(index_bytes(x)[0] == index_bytes(y)[0] && index_bytes(x)[1] == index_bytes(y)[1]
            && index_bytes(x)[2] == index_bytes(y)[2] && index_bytes(x)[3] == index_bytes(y)[3]);
        assert(a =~= a.drop_last().push(x));
        assert(b =~= b.drop_last().push(y));
    }
}

/// The reserved keys and the keys of account records are pairwise distinct.
pub proof fn lemma_keys_distinct(index: u32)
    ensures
        account_key(index) != ACCOUNTS_INDEXATION_KEY@,
        account_key(index) != ACCOUNT_MANAGER_INDEXATION_KEY@,
        account_key(index) != SECRET_MANAGER_KEY@,
        account_key(index) != DATABASE_SCHEMA_VERSION_KEY@,
        ACCOUNT_MANAGER_INDEXATION_KEY@ != SECRET_MANAGER_KEY@,
        ACCOUNTS_INDEXATION_KEY@ != DATABASE_SCHEMA_VERSION_KEY@,
        ACCOUNTS_INDEXATION_KEY@ != ACCOUNT_MANAGER_INDEXATION_KEY@,
        ACCOUNTS_INDEXATION_KEY@ != SECRET_MANAGER_KEY@,
        DATABASE_SCHEMA_VERSION_KEY@ != ACCOUNT_MANAGER_INDEXATION_KEY@,
        DATABASE_SCHEMA_VERSION_KEY@ != SECRET_MANAGER_KEY@,
{
    reveal_strlit("iota-wallet-account-");
    reveal_strlit("iota-wallet-account-indexation");
    reveal_strlit("iota-wallet-account-manager");
    reveal_strlit("secret_manager");
    reveal_strlit("database-schema-version");
    lemma_hex_text_len(index_bytes(index));
    assert(account_key(index).len() == 28);
    assert(ACCOUNT_MANAGER_INDEXATION_KEY@.len() == 27);
    assert(SECRET_MANAGER_KEY@.len() == 14);
    assert(ACCOUNTS_INDEXATION_KEY@.len() == 30);
    assert(DATABASE_SCHEMA_VERSION_KEY@.len() == 23);
}

/// The bytes of one index, most significant first.
fn encode_index(n: u32) -> (r: Vec<u8>)
    ensures
        r@ == index_bytes(n),
{
    let mut r: Vec<u8> = Vec::new();
    r.push((n >> 24u32) as u8);
    r.push((n >> 16u32) as u8);
    r.push((n >> 8u32) as u8);
    r.push(n as u8);
    assert(r@ =~= index_bytes(n));
    r
}

/// Writes a registry as persisted text.
pub fn encode_registry(indexes: &Vec<u32>) -> (r: String)
    ensures
        r@ == registry_text(indexes@),
{
    let mut bytes: Vec<u8> = Vec::new();
    let mut i: usize = 0;
    while i < indexes.len()
        invariant
            i <= indexes@.len(),
            bytes@ == registry_bytes(indexes@.subrange(0, i as int)),
        decreases indexes@.len() - i,
    {
        let mut word = encode_index(indexes[i]);
        bytes.append(&mut word);
        assert(indexes@.subrange(0, i + 1).drop_last() =~= indexes@.subrange(0, i as int));
        i = i + 1;
    }
    assert(indexes@.subrange(0, indexes@.len() as int) =~= indexes@);
    encode_hex(bytes.as_slice())
}

/// Reads a persisted registry: exactly `registry_of_text`.
pub fn decode_registry(text: &str) -> (r: Option<Vec<u32>>)
    ensures
        r is Some <==> registry_of_text(text@) is Some,
        r is Some ==> r->Some_0@ == registry_of_text(text@)->Some_0,
{
    let bytes = match decode_hex(text) {
        Some(b) => b,
        None => {
            proof {
                assert forall|s: Seq<u32>| registry_text(s) != text@ by {
                    if registry_text(s) == text@ {
                        assert(hex_text(registry_bytes(s)) == text@);
                    }
                }
            }
            return None;
        },
    };
    if bytes.len() % 4 != 0 {
        proof {
            assert forall|s: Seq<u32>| registry_text(s) != text@ by {
                if registry_text(s) == text@ {
                    lemma_hex_text_injective(registry_bytes(s), bytes@);
                    lemma_registry_bytes_len(s);
                }
            }
        }
        return None;
    }
    let mut out: Vec<u32> = Vec::new();
    let mut i: usize = 0;
    while i < bytes.len() / 4
        invariant
            bytes@.len() % 4 == 0,
            i <= bytes@.len() / 4,
            out@.len() == i,
            registry_bytes(out@) == bytes@.subrange(0, 4 * i),
        decreases bytes@.len() / 4 - i,
    {
        let (b0, b1, b2, b3) = (bytes[4 * i], bytes[4 * i + 1], bytes[4 * i + 2], bytes[4 * i + 3]);
        let word: u32 = ((b0 as u32) << 24u32) | ((b1 as u32) << 16u32) | ((b2 as u32) << 8u32) | (b3 as u32);
        proof {
            lemma_word_round_trip(0, b0, b1, b2, b3);
        }
        let ghost before = out@;
        out.push(word);
        proof {
            assert(out@.drop_last() =~= before);
            assert(index_bytes(word) =~= seq![b0, b1, b2, b3]);
            assert(bytes@.subrange(0, 4 * i + 4) =~= bytes@.subrange(0, 4 * i) + seq![b0, b1, b2, b3]);
        }
        i = i + 1;
    }
    proof {
        assert(bytes@.subrange(0, bytes@.len() as int) =~= bytes@);
        assert(registry_text(out@) == text@);
        let s = choose|s: Seq<u32>| registry_text(s) == text@;
        lemma_hex_text_injective(registry_bytes(s), registry_bytes(out@));
        lemma_registry_bytes_injective(s, out@);
    }
    Some(out)
}

/// The key of the record of account `index`.
pub fn account_key_of(index: u32) -> (r: String)
    ensures
        r@ == account_key(index),
{
    let mut key = String::from_str(ACCOUNT_INDEXATION_KEY);
    let digits = encode_hex(encode_index(index).as_slice());
    key.append(digits.as_str());
    key
}

/// The text of the running schema version.
pub fn schema_version_text() -> (r: String)
    ensures
        r@ == version_text(),
{
    let version: Vec<u8> = vec![DATABASE_SCHEMA_VERSION];
    assert(version@ =~= seq![DATABASE_SCHEMA_VERSION]);
    encode_hex(version.as_slice())
}

} // verus!
