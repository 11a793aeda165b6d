use vstd::prelude::*;

use crypto::ciphers::chacha;

verus! {

/// Length in bytes of an encryption key.
pub const KEY_LENGTH: usize = 32;

/// Length in bytes of the nonce that leads a sealed value.
pub const NONCE_LENGTH: usize = 24;

/// Length in bytes of the authentication tag that follows the nonce.
pub const TAG_LENGTH: usize = 16;

/// What sealing adds to the length of a plaintext: nonce and tag.
pub const SEAL_OVERHEAD: usize = 40;

/// The plaintext that XChaCha20-Poly1305 authenticates and recovers under
/// `key` from a sealed value laid out as nonce, tag and ciphertext, with no
/// associated data; `None` when authentication fails.
pub uninterp spec fn aead_opened(key: Seq<u8>, sealed: Seq<u8>) -> Option<Seq<u8>>;

/// Relies on `chacha::aead_encrypt` of iota-crypto: with a fresh random
/// nonce, it returns nonce, tag and ciphertext, the ciphertext as long as
/// the plaintext, and `aead_decrypt` recovers the plaintext from it. It
/// fails when no random nonce can be drawn.
#[verifier::external_body]
fn aead_encrypt(key: &[u8; 32], plaintext: &[u8]) -> (r: Option<Vec<u8>>)
    ensures
        r is Some ==> r->Some_0@.len() == plaintext@.len() + SEAL_OVERHEAD,
        r is Some ==> aead_opened(key@, r->Some_0@) == Some(plaintext@),
{
    chacha::aead_encrypt(key, plaintext).ok()
}

/// Relies on `chacha::aead_decrypt` of iota-crypto: the authenticated
/// plaintext of a sealed value, or an error when the tag does not match.
/// It slices the nonce and tag off the front, so the value must hold them.
#[verifier::external_body]
fn aead_decrypt(key: &[u8; 32], sealed: &[u8]) -> (r: Option<Vec<u8>>)
    requires
        sealed@.len() >= SEAL_OVERHEAD,
    ensures
        r is Some <==> aead_opened(key@, sealed@) is Some,
        r is Some ==> r->Some_0@ == aead_opened(key@, sealed@)->Some_0,
{
    chacha::aead_decrypt(key, sealed).ok()
}

/// What opening a sealed value (nonce, then tag, then ciphertext) gives.
pub open spec fn open_sealed(key: Seq<u8>, sealed: Seq<u8>) -> Option<Seq<u8>> {
    if sealed.len() < SEAL_OVERHEAD {
        None
    } else {
        aead_opened(key, sealed)
    }
}

/// Seals `plaintext` under `key` with a fresh nonce: nonce, tag and
/// ciphertext, in this order. `None` when no nonce could be drawn.
pub fn seal(key: &[u8; 32], plaintext: &[u8]) -> (r: Option<Vec<u8>>)
    ensures
        r is Some ==> r->Some_0@.len() == plaintext@.len() + SEAL_OVERHEAD,
        r is Some ==> open_sealed(key@, r->Some_0@) == Some(plaintext@),
{
    aead_encrypt(key, plaintext)
}

/// Opens a sealed value under `key`: exactly `open_sealed`.
pub fn open(key: &[u8; 32], sealed: &[u8]) -> (r: Option<Vec<u8>>)
    ensures
        r is Some <==> open_sealed(key@, sealed@) is Some,
        r is Some ==> r->Some_0@ == open_sealed(key@, sealed@)->Some_0,
{
    if sealed.len() < SEAL_OVERHEAD {
        return None;
    }
    aead_decrypt(key, sealed)
}

/// The lower-case hexadecimal digits, by value.
pub open spec fn hex_digits() -> Seq<char> {
    seq!['0', '1', '2', '3', '4', '5', '6', '7', '8', '9', 'a', 'b', 'c', 'd', 'e', 'f']
}

/// Two lower-case hexadecimal digits for each byte, high nibble first.
pub open spec fn hex_text(b: Seq<u8>) -> Seq<char>
    decreases b.len(),
{
    if b.len() == 0 {
        Seq::empty()
    } else {
        let last = b.last();
        hex_text(b.drop_last()) + seq![hex_digits()[last as int / 16], hex_digits()[last as int % 16]]
    }
}

/// The value of a lower-case hexadecimal digit.
pub open spec fn digit_of(c: char) -> Option<u8> {
    if c == '0' { Some(0u8) }
    else if c == '1' { Some(1u8) }
    else if c == '2' { Some(2u8) }
    else if c == '3' { Some(3u8) }
    else if c == '4' { Some(4u8) }
    else if c == '5' { Some(5u8) }
    else if c == '6' { Some(6u8) }
    else if c == '7' { Some(7u8) }
    else if c == '8' { Some(8u8) }
    else if c == '9' { Some(9u8) }
    else if c == 'a' { Some(10u8) }
    else if c == 'b' { Some(11u8) }
    else if c == 'c' { Some(12u8) }
    else if c == 'd' { Some(13u8) }
    else if c == 'e' { Some(14u8) }
    else if c == 'f' { Some(15u8) }
    else { None }
}

proof fn lemma_digit_table(d: int)
    requires
        0 <= d < 16,
    ensures
        digit_of(hex_digits()[d]) == Some(d as u8),
{
    assert(hex_digits()[0] == '0' && hex_digits()[1] == '1' && hex_digits()[2] == '2'
        && hex_digits()[3] == '3' && hex_digits()[4] == '4' && hex_digits()[5] == '5'
        && hex_digits()[6] == '6' && hex_digits()[7] == '7' && hex_digits()[8] == '8'
        && hex_digits()[9] == '9' && hex_digits()[10] == 'a' && hex_digits()[11] == 'b'
        && hex_digits()[12] == 'c' && hex_digits()[13] == 'd' && hex_digits()[14] == 'e'
        && hex_digits()[15] == 'f');
}

proof fn lemma_digit_inverse(c: char)
    requires
        digit_of(c) is Some,
    ensures
        digit_of(c)->Some_0 < 16,
        hex_digits()[digit_of(c)->Some_0 as int] == c,
{
    lemma_digit_table(0);
}

proof fn lemma_hex_text_shape(b: Seq<u8>)
    ensures
        hex_text(b).len() == 2 * b.len(),
        forall|i: int| 0 <= i < hex_text(b).len() ==> (#[trigger] digit_of(hex_text(b)[i])) is Some,
    decreases b.len(),
{
    if b.len() > 0 {
        lemma_hex_text_shape(b.drop_last());
        let last = b.last();
        lemma_digit_table(last as int / 16);
        lemma_digit_table(last as int % 16);
        let t = hex_text(b);
        assert forall|i: int| 0 <= i < t.len() implies (#[trigger] digit_of(t[i])) is Some by {
            if i < t.len() - 2 {
                assert(t[i] == hex_text(b.drop_last())[i]);
            }
        }
    }
}

/// The digit of value `d`, as a string of one character.
fn digit_str(d: u8) -> (r: &'static str)
    requires
        d < 16,
    ensures
        r@ == seq![hex_digits()[d as int]],
{
    let digits = "0123456789abcdef";
    proof {
        reveal_strlit("0123456789abcdef");
        assert(digits@ =~= hex_digits());
    }
    let r = digits.substring_char(d as usize, d as usize + 1);
    assert(r@ =~= seq![hex_digits()[d as int]]);
    r
}

/// Writes `b` as hexadecimal text.
pub fn encode_hex(b: &[u8]) -> (r: String)
    ensures
        r@ == hex_text(b@),
{
    let mut out = String::new();
    let mut i: usize = 0;
    while i < b.len()
        invariant
            i <= b@.len(),
            out@ == hex_text(b@.subrange(0, i as int)),
        decreases b@.len() - i,
    {
        let byte = b[i];
        out.append(digit_str(byte / 16));
        out.append(digit_str(byte % 16));
        proof {
            assert(b@.subrange(0, i + 1).drop_last() =~= b@.subrange(0, i as int));
        }
        i = i + 1;
    }
    proof {
        assert(b@.subrange(0, b@.len() as int) =~= b@);
    }
    out
}

/// The value of a hexadecimal digit: exactly `digit_of`.
fn digit_value(c: char) -> (r: Option<u8>)
    ensures
        r == digit_of(c),
{
    if c == '0' { Some(0) }
    else if c == '1' { Some(1) }
    else if c == '2' { Some(2) }
    else if c == '3' { Some(3) }
    else if c == '4' { Some(4) }
    else if c == '5' { Some(5) }
    else if c == '6' { Some(6) }
    else if c == '7' { Some(7) }
    else if c == '8' { Some(8) }
    else if c == '9' { Some(9) }
    else if c == 'a' { Some(10) }
    else if c == 'b' { Some(11) }
    else if c == 'c' { Some(12) }
    else if c == 'd' { Some(13) }
    else if c == 'e' { Some(14) }
    else if c == 'f' { Some(15) }
    else { None }
}

/// Reads hexadecimal text back into bytes; `None` when `s` is not the
/// hexadecimal text of any byte sequence.
pub fn decode_hex(s: &str) -> (r: Option<Vec<u8>>)
    ensures
        r is Some <==> exists|b: Seq<u8>| hex_text(b) == s@,
        r is Some ==> hex_text(r->Some_0@) == s@,
{
    let len = s.unicode_len();
    if len % 2 != 0 {
        proof {
            assert forall|b: Seq<u8>| hex_text(b) != s@ by {
                lemma_hex_text_shape(b);
            }
        }
        return None;
    }
    let mut out: Vec<u8> = Vec::new();
    let mut i: usize = 0;
    while i < len / 2
        invariant
            len == s@.len(),
            len % 2 == 0,
            i <= len / 2,
            out@.len() == i,
            hex_text(out@) == s@.subrange(0, 2 * i),
        decreases len / 2 - i,
    {
        let c1 = s.get_char(2 * i);
        let c2 = s.get_char(2 * i + 1);
        let (d1, d2) = match (digit_value(c1), digit_value(c2)) {
            (Some(d1), Some(d2)) => (d1, d2),
            _ => {
                proof {
                    assert forall|b: Seq<u8>| hex_text(b) != s@ by {
                        lemma_hex_text_shape(b);
                        if hex_text(b) == s@ {
                            assert(digit_of(hex_text(b)[2 * i]) is Some);
                            assert(digit_of(hex_text(b)[2 * i + 1]) is Some);
                        }
                    }
                }
                return None;
            },
        };
        proof {
            lemma_digit_inverse(c1);
            lemma_digit_inverse(c2);
        }
        let byte: u8 = d1 * 16 + d2;
        let ghost before = out@;
        out.push(byte);
        proof {
            assert(out@.drop_last() =~= before);
            assert(byte / 16 == d1 && byte % 16 == d2);
            assert(s@.subrange(0, 2 * i + 2) =~= s@.subrange(0, 2 * i) + seq![c1, c2]);
        }
        i = i + 1;
    }
    proof {
        assert(s@.subrange(0, len as int) =~= s@);
    }
    Some(out)
}

/// Hexadecimal text has two characters per byte.
pub proof fn lemma_hex_text_len(b: Seq<u8>)
    ensures
        hex_text(b).len() == 2 * b.len(),
{
    lemma_hex_text_shape(b);
}

/// Hexadecimal text determines the bytes it was written from.
pub proof fn lemma_hex_text_injective(a: Seq<u8>, b: Seq<u8>)
    requires
        hex_text(a) == hex_text(b),
    ensures
        a == b,
    decreases a.len(),
{
    lemma_hex_text_shape(a);
    lemma_hex_text_shape(b);
    if a.len() > 0 {
        let ta = hex_text(a);
        let n = ta.len();
        assert(hex_text(a.drop_last()) =~= ta.subrange(0, n - 2));
        assert(hex_text(b.drop_last()) =~= ta.subrange(0, n - 2));
        lemma_hex_text_injective(a.drop_last(), b.drop_last());
        let (x, y) = (a.last(), b.last());
        lemma_digit_table(x as int / 16);
        lemma_digit_table(x as int % 16);
        lemma_digit_table(y as int / 16);
        lemma_digit_table(y as int % 16);
        assert(ta[n - 2] == hex_digits()[x as int / 16]);
        assert(ta[n - 1] == hex_digits()[x as int % 16]);
        assert(x as int / 16 == y as int / 16 && x as int % 16 == y as int % 16);
        assert(x == y);
        assert(a =~= a.drop_last().push(x));
        assert(b =~= b.drop_last().push(y));
    }
}

} // verus!
