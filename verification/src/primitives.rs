//! Machine words, hashes and their renderings.
//!
//! The functions marked as external bodies hand their work to `alloy_primitives`, `hex`,
//! `serde_json` and the standard library; what is claimed of each is written above it.

use alloy_primitives::{Address, I256, U256};
use vstd::prelude::*;
use vstd::utf8::*;

use crate::text::{decimal, hex_digits, signed_decimal};

verus! {

/// A storage word: thirty-two bytes, most significant first.
pub type Word = [u8; 32];

/// The number that the bytes spell, most significant first.
pub open spec fn be_value(bytes: Seq<u8>) -> nat
    decreases bytes.len(),
{
    if bytes.len() == 0 {
        0
    } else {
        be_value(bytes.drop_last()) * 256 + bytes.last() as nat
    }
}

/// Two to the power of 8 times `n`: how many numbers `n` bytes can spell.
pub open spec fn byte_range(n: nat) -> nat
    decreases n,
{
    if n == 0 {
        1
    } else {
        256 * byte_range((n - 1) as nat)
    }
}

/// The number that the bytes spell in two's complement, most significant byte first.
pub open spec fn be_signed_value(bytes: Seq<u8>) -> int {
    if 2 * be_value(bytes) < byte_range(bytes.len()) {
        be_value(bytes) as int
    } else {
        be_value(bytes) - byte_range(bytes.len())
    }
}

/// How many words there are.
pub open spec fn word_count() -> nat {
    byte_range(32)
}

/// The Keccak-256 digest of `bytes`.
pub uninterp spec fn keccak256_of(bytes: Seq<u8>) -> Seq<u8>;

/// The EIP-55 rendering of a twenty-byte address.
pub uninterp spec fn checksum_address(bytes: Seq<u8>) -> Seq<char>;

/// `String::from_utf8_lossy` of `bytes`.
pub uninterp spec fn lossy_text(bytes: Seq<u8>) -> Seq<char>;

/// `alloy_primitives::keccak256` on one word: the result is the digest of the word's bytes.
#[verifier::external_body]
pub(crate) fn keccak_word(word: &Word) -> (r: Word)
    ensures
        r@ == keccak256_of(word@),
{
    alloy_primitives::keccak256(word).0
}

/// `alloy_primitives::Address::from_slice`, rendered: the text is the checksummed address.
/// The slice must have exactly twenty bytes, or the call panics.
#[verifier::external_body]
pub(crate) fn address_text(bytes: &[u8]) -> (r: String)
    requires
        bytes@.len() == 20,
    ensures
        r@ == checksum_address(bytes@),
{
    Address::from_slice(bytes).to_string()
}

/// `alloy_primitives::U256::from_be_slice`, rendered: the text is the decimal numeral of the
/// number that the bytes spell. More than thirty-two bytes make the call panic.
#[verifier::external_body]
pub(crate) fn uint_text(bytes: &[u8]) -> (r: String)
    requires
        bytes@.len() <= 32,
    ensures
        r@ == decimal(be_value(bytes@)),
{
    U256::from_be_slice(bytes).to_string()
}

/// `alloy_primitives::I256::from_be_bytes`, rendered: the text is the decimal numeral of the
/// number that the bytes spell in two's complement, with a minus sign where it is negative.
#[verifier::external_body]
pub(crate) fn int256_text(bytes: &[u8]) -> (r: String)
    requires
        bytes@.len() == 32,
    ensures
        r@ == signed_decimal(be_signed_value(bytes@)),
{
    I256::from_be_bytes::<32>(bytes.try_into().unwrap()).to_string()
}

/// `alloy_primitives::hex::encode`: two lower-case hexadecimal digits for each byte.
#[verifier::external_body]
pub(crate) fn hex_text(bytes: &[u8]) -> (r: String)
    ensures
        r@ == hex_digits(bytes@),
{
    alloy_primitives::hex::encode(bytes)
}

/// `hex::encode`: two lower-case hexadecimal digits for each byte.
#[verifier::external_body]
pub(crate) fn hex_encode(bytes: &[u8]) -> (r: String)
    ensures
        r@ == hex_digits(bytes@),
{
    hex::encode(bytes)
}

/// Addition of `alloy_primitives::U256`, which wraps around at the number of words.
#[verifier::external_body]
pub(crate) fn word_plus(word: &Word, n: u32) -> (r: Word)
    ensures
        be_value(r@) == (be_value(word@) + n as nat) % word_count(),
{
    (U256::from_be_bytes(*word) + U256::from(n)).to_be_bytes::<32>()
}

/// The lowest limb of `alloy_primitives::U256::as_limbs`: the word's lowest 64 bits.
#[verifier::external_body]
pub(crate) fn word_low(word: &Word) -> (r: u64)
    ensures
        r as nat == be_value(word@) % byte_range(8),
{
    U256::from_be_bytes(*word).as_limbs()[0]
}

/// `String::from_utf8`: a string comes back exactly where the bytes are valid UTF-8, and it
/// holds the characters that they encode.
#[verifier::external_body]
pub(crate) fn utf8_text(bytes: Vec<u8>) -> (r: Option<String>)
    ensures
        r is Some <==> valid_utf8(bytes@),
        r matches Some(s) ==> s@ == decode_utf8(bytes@),
{
    String::from_utf8(bytes).ok()
}

/// `String::from_utf8_lossy`: the text is a function of the bytes alone; where they are valid
/// UTF-8 it holds the characters that they encode.
#[verifier::external_body]
pub(crate) fn utf8_text_lossy(bytes: &[u8]) -> (r: String)
    ensures
        r@ == lossy_text(bytes@),
        valid_utf8(bytes@) ==> r@ == decode_utf8(bytes@),
{
    String::from_utf8_lossy(bytes).into_owned()
}

pub proof fn lemma_byte_range_step(n: nat)
    ensures
        byte_range(n + 1) == 256 * byte_range(n),
        byte_range(n) > 0,
    decreases n,
{
    if n > 0 {
        lemma_byte_range_step((n - 1) as nat);
    }
}

/// What up to sixteen bytes can spell fits 128 bits.
pub proof fn lemma_byte_range_bound(n: nat)
    requires
        n <= 16,
    ensures
        byte_range(n) <= 0x1_0000_0000_0000_0000_0000_0000_0000_0000,
        byte_range(1) == 256,
        n < 16 ==> byte_range(n) <= 0x1_0000_0000_0000_0000_0000_0000_0000_00,
    decreases 16 - n,
{
    lemma_byte_range_step(0);
    if n < 16 {
        lemma_byte_range_bound(n + 1);
        lemma_byte_range_step(n);
    } else {
        lemma_byte_range_step(1);
        lemma_byte_range_step(2);
        lemma_byte_range_step(3);
        lemma_byte_range_step(4);
        lemma_byte_range_step(5);
        lemma_byte_range_step(6);
        lemma_byte_range_step(7);
        lemma_byte_range_step(8);
        lemma_byte_range_step(9);
        lemma_byte_range_step(10);
        lemma_byte_range_step(11);
        lemma_byte_range_step(12);
        lemma_byte_range_step(13);
        lemma_byte_range_step(14);
        lemma_byte_range_step(15);
    }
}

/// A number spelt with some bytes is below the number of values that they have.
pub proof fn lemma_be_value_bound(bytes: Seq<u8>)
    ensures
        be_value(bytes) < byte_range(bytes.len()),
    decreases bytes.len(),
{
    if bytes.len() > 0 {
        lemma_be_value_bound(bytes.drop_last());
        lemma_byte_range_step((bytes.len() - 1) as nat);
    }
}

/// Two byte strings of one length that spell the same number are the same.
pub proof fn lemma_be_value_injective(a: Seq<u8>, b: Seq<u8>)
    requires
        a.len() == b.len(),
        be_value(a) == be_value(b),
    ensures
        a == b,
    decreases a.len(),
{
    if a.len() > 0 {
        assert(a.last() == b.last() && be_value(a.drop_last()) == be_value(b.drop_last()));
        lemma_be_value_injective(a.drop_last(), b.drop_last());
        assert(a =~= a.drop_last().push(a.last()));
        assert(b =~= b.drop_last().push(b.last()));
    } else {
        assert(a =~= b);
    }
}

/// Zero bytes spell zero.
pub proof fn lemma_be_value_zeros(n: nat)
    ensures
        be_value(Seq::new(n, |i: int| 0u8)) == 0,
    decreases n,
{
    let z = Seq::new(n, |i: int| 0u8);
    if n > 0 {
        assert(z.drop_last() =~= Seq::new((n - 1) as nat, |i: int| 0u8));
        lemma_be_value_zeros((n - 1) as nat);
    }
}

/// Whether two words are the same.
pub fn same_word(a: &Word, b: &Word) -> (r: bool)
    ensures
        r == (be_value(a@) == be_value(b@)),
{
    let mut i: usize = 0;
    while i < 32
        invariant
            i <= 32,
            forall|j: int| 0 <= j < i ==> a@[j] == b@[j],
        decreases 32 - i,
    {
        if a[i] != b[i] {
            proof {
                if be_value(a@) == be_value(b@) {
                    lemma_be_value_injective(a@, b@);
                }
            }
            return false;
        }
        i = i + 1;
    }
    assert(a@ =~= b@);
    true
}

/// The number that at most sixteen bytes spell.
pub fn be_u128(bytes: &[u8]) -> (r: u128)
    requires
        bytes@.len() <= 16,
    ensures
        r as nat == be_value(bytes@),
{
    let mut value: u128 = 0;
    let mut i: usize = 0;
    while i < bytes.len()
        invariant
            i <= bytes@.len() <= 16,
            value as nat == be_value(bytes@.take(i as int)),
        decreases bytes@.len() - i,
    {
        proof {
            let next = bytes@.take(i + 1);
            assert(next.drop_last() =~= bytes@.take(i as int));
            assert(next.last() == bytes@[i as int]);
            lemma_be_value_bound(next);
            lemma_byte_range_bound((i + 1) as nat);
        }
        value = value * 256 + bytes[i] as u128;
        i = i + 1;
    }
    assert(bytes@.take(bytes@.len() as int) =~= bytes@);
    value
}

/// The number that one to sixteen bytes spell in two's complement.
pub fn be_i128(bytes: &[u8]) -> (r: i128)
    requires
        1 <= bytes@.len() <= 16,
    ensures
        r as int == be_signed_value(bytes@),
{
    let value: u128 = be_u128(bytes);
    proof {
        lemma_byte_range_bound(bytes@.len());
    }
    let mut half: u128 = 128;
    let mut i: usize = 1;
    while i < bytes.len()
        invariant
            1 <= i <= bytes@.len() <= 16,
            2 * half == byte_range(i as nat),
        decreases bytes@.len() - i,
    {
        proof {
            lemma_byte_range_step(i as nat);
            lemma_byte_range_bound((i + 1) as nat);
        }
        half = half * 256;
        i = i + 1;
    }
    proof {
        lemma_be_value_bound(bytes@);
    }
    if value < half {
        value as i128
    } else {
        let past: i128 = (value - half) as i128;
        let low: i128 = -((half - 1) as i128) - 1;
        low + past
    }
}

/// How a text is written as a JSON string.
pub uninterp spec fn json_quoted(text: Seq<char>) -> Seq<char>;

/// Whether a character stands for itself in a JSON string.
pub open spec fn stands_for_itself(c: char) -> bool {
    c >= ' ' && c != '"' && c != '\\'
}

/// `serde_json::Value::String`, rendered: the text in quotation marks. Quotation marks, backslashes
/// and control characters in it are escaped; how they are is left to the name.
#[verifier::external_body]
pub(crate) fn quoted_text(text: &str) -> (r: String)
    ensures
        r@ == json_quoted(text@),
        (forall|i: int| 0 <= i < text@.len() ==> stands_for_itself(#[trigger] text@[i])) ==> r@
            == "\""@ + text@ + "\""@,
{
    serde_json::Value::String(text.to_string()).to_string()
}

} // verus!
