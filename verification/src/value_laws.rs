//! How values are written as bytes, and what is read from these.

use vstd::prelude::*;
use vstd::utf8::{encode_utf8, encode_utf8_decode_utf8, encode_utf8_valid_utf8, valid_utf8};

use crate::json::Json;
use crate::memory::memory_value;
use crate::memory_laws::{fills_word, law_memory_values_are_read};
use crate::primitives::{be_value, byte_range, checksum_address, lemma_byte_range_step};
use crate::storage::{be_bytes, resolved, slot_content, Pos};
use crate::storage_laws::{law_written_values_are_read, lemma_number_of_bytes, written};
use crate::text::{
    all_digits, decimal, digit_char, hex_byte, hex_digits, law_numerals_name_their_numbers,
    numeral_value, signed_decimal,
};
use crate::types::{decoded, Type};

verus! {

/// The `k` bytes of a number in two's complement, most significant first: those of the number itself,
/// or, for a negative one, of what it leaves of all that `k` bytes can spell.
pub open spec fn twos_complement(v: int, k: nat) -> Seq<u8> {
    if v < 0 {
        be_bytes((byte_range(k) + v) as nat, k)
    } else {
        be_bytes(v as nat, k)
    }
}

/// The widths of the signed numbers that can be read.
pub open spec fn signed_width(bits: u16) -> bool {
    bits == 8 || bits == 16 || bits == 32 || bits == 64 || bits == 128 || bits == 256
}

/// Whether a number fits `k` bytes in two's complement.
pub open spec fn fits_signed(v: int, k: nat) -> bool {
    -(byte_range(k) as int) <= 2 * v < byte_range(k)
}

/// Whether the text is the numeral of the number: its digits without leading zeros, behind a minus
/// sign where it is negative.
pub open spec fn is_numeral_of(text: Seq<char>, v: int) -> bool {
    let digits = if v < 0 {
        text.skip(1)
    } else {
        text
    };
    &&& v < 0 ==> text.len() > 0 && text[0] == '-'
    &&& digits.len() > 0
    &&& all_digits(digits)
    &&& digits[0] == '0' ==> digits.len() == 1
    &&& numeral_value(digits) == if v < 0 {
        -v
    } else {
        v
    }
}

/// The numeral of a number names it.
pub proof fn law_signed_numerals_name_their_numbers(v: int)
    ensures
        is_numeral_of(signed_decimal(v), v),
{
    reveal_strlit("-");
    if v < 0 {
        law_numerals_name_their_numbers((-v) as nat);
        assert(signed_decimal(v).skip(1) =~= decimal((-v) as nat));
    } else {
        law_numerals_name_their_numbers(v as nat);
    }
}

/// An unsigned number that was written with any number of bytes is read as its numeral.
pub proof fn law_unsigned_numbers_are_decoded(size: Option<u16>, k: nat, n: nat)
    requires
        n < byte_range(k),
    ensures
        decoded(Type::Uint(size), be_bytes(n, k)) matches Ok(Json::String(text)) && is_numeral_of(
            text,
            n as int,
        ),
{
    lemma_number_of_bytes(n, k);
    law_signed_numerals_name_their_numbers(n as int);
}

/// A signed number of any width that is supported, written in two's complement, is read as its
/// numeral.
pub proof fn law_signed_numbers_are_decoded(bits: u16, v: int)
    requires
        signed_width(bits),
        fits_signed(v, bits as nat / 8),
    ensures
        twos_complement(v, bits as nat / 8).len() == bits as nat / 8,
        decoded(Type::Int(Some(bits)), twos_complement(v, bits as nat / 8)) == Ok::<Json, Seq<char>>(
            Json::String(signed_decimal(v)),
        ),
        is_numeral_of(signed_decimal(v), v),
{
    let k = bits as nat / 8;
    lemma_byte_range_step((k - 1) as nat);
    let n = if v < 0 {
        (byte_range(k) + v) as nat
    } else {
        v as nat
    };
    lemma_number_of_bytes(n, k);
    law_signed_numerals_name_their_numbers(v);
}

/// A signed number that was written to storage is read as its numeral.
pub proof fn law_written_signed_numbers_are_read(
    storage: Map<nat, Seq<u8>>,
    bits: u16,
    p: Pos,
    v: int,
)
    requires
        signed_width(bits),
        fits_signed(v, bits as nat / 8),
        p.index + bits as nat / 8 <= 32,
        slot_content(storage, p.slot).len() == 32,
    ensures
        resolved(
            written(storage, p, twos_complement(v, bits as nat / 8)),
            Type::Int(Some(bits)),
            p,
        ) == Some(Json::String(signed_decimal(v))),
{
    law_signed_numbers_are_decoded(bits, v);
    law_written_values_are_read(
        storage,
        Type::Int(Some(bits)),
        p,
        twos_complement(v, bits as nat / 8),
    );
}

/// A signed number that stands in a word of memory is read as its numeral.
pub proof fn law_signed_numbers_in_memory_are_read(mem: Seq<u8>, bits: u16, off: nat, v: int)
    requires
        mem.len() <= u64::MAX,
        off <= mem.len(),
        signed_width(bits),
        fits_signed(v, bits as nat / 8),
        fills_word(mem, Type::Int(Some(bits)), off, twos_complement(v, bits as nat / 8)),
    ensures
        memory_value(Type::Int(Some(bits)), off, mem) == Some(Json::String(signed_decimal(v))),
{
    law_signed_numbers_are_decoded(bits, v);
    law_memory_values_are_read(
        mem,
        Type::Int(Some(bits)),
        off,
        Json::String(signed_decimal(v)),
    );
}

/// A byte is read as false where it is zero, and as true otherwise.
pub proof fn law_booleans_are_decoded(bytes: Seq<u8>)
    requires
        bytes.len() == 1,
    ensures
        be_value(bytes) == 0 ==> decoded(Type::Bool, bytes) == Ok::<Json, Seq<char>>(
            Json::Bool(false),
        ),
        be_value(bytes) > 0 ==> decoded(Type::Bool, bytes) == Ok::<Json, Seq<char>>(
            Json::Bool(true),
        ),
{
    assert(be_value(bytes.drop_last()) == 0);
    assert(bytes.last() == bytes[0]);
}

/// A text that was encoded in UTF-8 is read back, and bytes that encode no text are not read.
pub proof fn law_texts_are_decoded(text: Seq<char>, bytes: Seq<u8>)
    ensures
        decoded(Type::String, encode_utf8(text)) == Ok::<Json, Seq<char>>(Json::String(text)),
        decoded(Type::String, bytes) is Ok <==> valid_utf8(bytes),
{
    encode_utf8_valid_utf8(text);
    encode_utf8_decode_utf8(text);
}

/// The number that a hexadecimal digit stands for.
pub open spec fn hex_digit_value(c: char) -> int {
    if '0' <= c <= '9' {
        c as int - '0' as int
    } else if 'a' <= c <= 'f' {
        c as int - 'a' as int + 10
    } else {
        -1
    }
}

/// Whether two digits name a byte.
pub open spec fn digits_of(high: char, low: char, byte: u8) -> bool {
    &&& hex_digit_value(high) >= 0
    &&& 0 <= hex_digit_value(low) < 16
    &&& 16 * hex_digit_value(high) + hex_digit_value(low) == byte as int
}

/// Whether two digits for each byte, from the `skipped`-th character on, name the bytes.
pub open spec fn digits_name(text: Seq<char>, skipped: nat, bytes: Seq<u8>) -> bool {
    &&& text.len() == skipped + 2 * bytes.len()
    &&& forall|i: int|
        0 <= i < bytes.len() ==> digits_of(
            text[skipped + 2 * i],
            text[skipped + 2 * i + 1],
            #[trigger] bytes[i],
        )
}

/// The hexadecimal digits of some bytes name them, two for each.
pub proof fn law_hex_digits_name_their_bytes(bytes: Seq<u8>)
    ensures
        digits_name(hex_digits(bytes), 0, bytes),
    decreases bytes.len(),
{
    let text = hex_digits(bytes);
    if bytes.len() > 0 {
        let before = bytes.drop_last();
        let n = before.len() as int;
        law_hex_digits_name_their_bytes(before);
        let b = bytes.last();
        assert(text == hex_digits(before) + hex_byte(b));
        assert forall|i: int| 0 <= i < bytes.len() implies digits_of(
            text[0 + 2 * i],
            text[0 + 2 * i + 1],
            #[trigger] bytes[i],
        ) by {
            if i < n {
                assert(before[i] == bytes[i]);
                assert(text[2 * i] == hex_digits(before)[2 * i]);
                assert(text[2 * i + 1] == hex_digits(before)[2 * i + 1]);
            } else {
                assert(text[2 * n] == digit_char((b / 16) as int));
                assert(text[2 * n + 1] == digit_char((b % 16) as int));
            }
        }
    }
}

/// Bytes are read as `0x` and their hexadecimal digits.
pub proof fn law_bytes_are_decoded(size: u16, bytes: Seq<u8>)
    ensures
        decoded(Type::Bytes, bytes) matches Ok(Json::String(text)) && text[0] == '0' && text[1]
            == 'x' && digits_name(text, 2, bytes),
        decoded(Type::FixedBytes(size), bytes) == decoded(Type::Bytes, bytes),
{
    reveal_strlit("0x");
    law_hex_digits_name_their_bytes(bytes);
    let digits = hex_digits(bytes);
    let text = "0x"@ + digits;
    assert forall|i: int| 0 <= i < bytes.len() implies digits_of(
        text[2 + 2 * i],
        text[2 + 2 * i + 1],
        #[trigger] bytes[i],
    ) by {
        assert(digits_of(digits[0 + 2 * i], digits[0 + 2 * i + 1], bytes[i]));
        assert(text[2 + 2 * i] == digits[0 + 2 * i]);
        assert(text[2 + 2 * i + 1] == digits[0 + 2 * i + 1]);
    }
}

/// An address is read as its checksummed text, and what is no elementary type, or a signed number
/// of another width, is not read at all.
pub proof fn law_other_values_are_refused(ty: Type, bytes: Seq<u8>)
    ensures
        ty is Address ==> decoded(ty, bytes) == Ok::<Json, Seq<char>>(
            Json::String(checksum_address(bytes)),
        ),
        ty is Array || ty is Tuple || ty is Mapping ==> decoded(ty, bytes) is Err,
        ty matches Type::Int(size) ==> (decoded(ty, bytes) is Ok <==> (size is Some
            && signed_width(size->Some_0))),
{
}

} // verus!
