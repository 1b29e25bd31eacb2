//! Reading values out of a contract's memory.

use vstd::prelude::*;

use crate::json::{json_models, lemma_array_model, Json, JsonObject, JsonValue};
use crate::primitives::{be_value, byte_range, word_low, Word};
use crate::storage::{decoded_value, optional_model};
use crate::types::{is_value_type, type_bytes, Type, TypeArray, TypeTuple};

verus! {

/// The low 64 bits of the word that stands at `off`.
pub open spec fn low_word(mem: Seq<u8>, off: nat) -> nat {
    be_value(mem.subrange(off as int, off as int + 32)) % byte_range(8)
}

/// Where the value of an element or a member stands whose own word is at `off`: there, for a
/// value of one word, and else where that word points. There is no such place where the word
/// is not in memory.
pub open spec fn value_offset(ty: Type, off: nat, mem: Seq<u8>) -> Option<nat> {
    if is_value_type(ty) {
        Some(off)
    } else if off + 32 > u64::MAX || off + 32 > mem.len() {
        None
    } else {
        Some(low_word(mem, off))
    }
}

/// The value of type `ty` that stands at `off` in memory. A string or an array whose length
/// or data lies outside memory reads as null; what else lies outside memory, and what has no
/// decoding, has no value.
pub open spec fn memory_value(ty: Type, off: nat, mem: Seq<u8>) -> Option<Json>
    decreases ty, 0nat,
{
    match ty {
        Type::String | Type::Bytes => {
            if off + 32 > u64::MAX {
                None
            } else if off + 32 > mem.len() {
                Some(Json::Null)
            } else {
                let length = low_word(mem, off);
                if off + 32 + length > u64::MAX {
                    None
                } else if off + 32 + length > mem.len() {
                    Some(Json::Null)
                } else {
                    decoded_value(ty, mem.subrange(off as int + 32, (off + 32 + length) as int))
                }
            }
        },
        Type::Array(TypeArray { ty: elem, size }) => match size {
            Some(size) => array_value(memory_items(*elem, off, size as nat, mem, Seq::empty())),
            None => if off + 32 > u64::MAX {
                None
            } else if off + 32 > mem.len() {
                Some(Json::Null)
            } else {
                array_value(memory_items(*elem, off + 32, low_word(mem, off), mem, Seq::empty()))
            },
        },
        Type::Tuple(TypeTuple { types }) => match memory_members(types@, off, 0, mem, Map::empty()) {
            Some(members) => Some(Json::Object(members)),
            None => None,
        },
        _ => {
            let b = type_bytes(ty);
            if off + 32 > u64::MAX || off + 32 > mem.len() || b > 32 {
                None
            } else if ty is FixedBytes {
                decoded_value(ty, mem.subrange(off as int, (off + b) as int))
            } else {
                decoded_value(ty, mem.subrange(off as int + 32 - b, off as int + 32))
            }
        },
    }
}

/// The array of the items, if there are items.
pub open spec fn array_value(items: Option<Seq<Json>>) -> Option<Json> {
    match items {
        Some(items) => Some(Json::Array(items)),
        None => None,
    }
}

/// `done` and the `n` elements whose words start at `off`.
pub open spec fn memory_items(elem: Type, off: nat, n: nat, mem: Seq<u8>, done: Seq<Json>) -> Option<
    Seq<Json>,
>
    decreases elem, n,
{
    if n == 0 {
        Some(done)
    } else {
        match value_offset(elem, off, mem) {
            Some(at) => match memory_value(elem, at, mem) {
                Some(v) => if off + 32 > u64::MAX {
                    None
                } else {
                    memory_items(elem, off + 32, (n - 1) as nat, mem, done.push(v))
                },
                None => None,
            },
            None => None,
        }
    }
}

/// `done` and the members from the `i`-th on, whose words start at `off`. A mapping takes no
/// word.
pub open spec fn memory_members(
    members: Seq<(String, Type)>,
    off: nat,
    i: nat,
    mem: Seq<u8>,
    done: Map<Seq<char>, Json>,
) -> Option<Map<Seq<char>, Json>>
    decreases members, members.len() - i,
{
    if i >= members.len() {
        Some(done)
    } else {
        let ty = members[i as int].1;
        match value_offset(ty, off, mem) {
            Some(at) => match memory_value(ty, at, mem) {
                Some(v) => if ty is Mapping {
                    memory_members(members, off, i + 1, mem, done.insert(members[i as int].0@, v))
                } else if off + 32 > u64::MAX {
                    None
                } else {
                    memory_members(
                        members,
                        off + 32,
                        i + 1,
                        mem,
                        done.insert(members[i as int].0@, v),
                    )
                },
                None => None,
            },
            None => None,
        }
    }
}

/// Whether the thirty-two bytes from `off` on are in memory.
fn word_in(mem: &[u8], off: u64) -> (r: bool)
    ensures
        r == (off + 32 <= u64::MAX && off + 32 <= mem@.len()),
{
    off <= u64::MAX - 32 && off + 32 <= mem.len() as u64
}

/// The low 64 bits of the word that stands at `off`.
fn read_low_word(mem: &[u8], off: u64) -> (r: u64)
    requires
        off + 32 <= mem@.len(),
    ensures
        r as nat == low_word(mem@, off as nat),
{
    let mut word: Word = [0u8; 32];
    let len: usize = mem.len();
    let start: usize = off as usize;
    let mut j: usize = 0;
    while j < 32
        invariant
            j <= 32,
            start + 32 <= len == mem@.len(),
            forall|k: int| 0 <= k < j ==> word@[k] == mem@[start + k],
        decreases 32 - j,
    {
        word[j] = mem[start + j];
        j = j + 1;
    }
    assert(word@ =~= mem@.subrange(off as int, off as int + 32));
    word_low(&word)
}

/// The bytes from `from` up to `to`.
fn copy_range(mem: &[u8], from: u64, to: u64) -> (r: Vec<u8>)
    requires
        from <= to <= mem@.len(),
    ensures
        r@ == mem@.subrange(from as int, to as int),
{
    let mut out: Vec<u8> = Vec::new();
    let len: usize = mem.len();
    let end: usize = to as usize;
    let mut j: usize = from as usize;
    while j < end
        invariant
            from <= j <= end,
            end == to,
            end <= len == mem@.len(),
            out@ =~= mem@.subrange(from as int, j as int),
        decreases end - j,
    {
        out.push(mem[j]);
        j = j + 1;
    }
    out
}

fn is_one_word(ty: &Type) -> (r: bool)
    ensures
        r == is_value_type(*ty),
{
    match ty {
        Type::Address | Type::Bool | Type::Uint(_) | Type::Int(_) | Type::FixedBytes(_) => true,
        _ => false,
    }
}

/// Where the value of an element or a member stands whose own word is at `off`.
fn find_value(ty: &Type, off: u64, mem: &[u8]) -> (r: Option<u64>)
    ensures
        match r {
            Some(at) => value_offset(*ty, off as nat, mem@) == Some(at as nat),
            None => value_offset(*ty, off as nat, mem@) is None,
        },
{
    if is_one_word(ty) {
        Some(off)
    } else if word_in(mem, off) {
        Some(read_low_word(mem, off))
    } else {
        None
    }
}

/// A value of one word that stands at `off`, or nothing for a type that has none.
fn read_word_value(ty: &Type, off: u64, mem: &[u8]) -> (r: Option<JsonValue>)
    requires
        is_value_type(*ty) || ty is Mapping,
    ensures
        optional_model(r) == memory_value(*ty, off as nat, mem@),
{
    let size: u32 = ty.get_bytes();
    if !word_in(mem, off) || size > 32 {
        return None;
    }
    let size: u64 = size as u64;
    let bytes: Vec<u8> = match ty {
        Type::FixedBytes(_) => copy_range(mem, off, off + size),
        _ => copy_range(mem, off + 32 - size, off + 32),
    };
    match ty.decode_bytes(bytes.as_slice()) {
        Ok(v) => Some(v),
        Err(_) => None,
    }
}

/// A `string` or `bytes` value whose length stands at `off`.
fn read_text_value(ty: &Type, off: u64, mem: &[u8]) -> (r: Option<JsonValue>)
    requires
        ty is String || ty is Bytes,
    ensures
        optional_model(r) == memory_value(*ty, off as nat, mem@),
{
    if off > u64::MAX - 32 {
        return None;
    }
    if !word_in(mem, off) {
        return Some(JsonValue::Null);
    }
    let length: u64 = read_low_word(mem, off);
    let data: u64 = off + 32;
    if length > u64::MAX - data {
        return None;
    }
    if data + length > mem.len() as u64 {
        return Some(JsonValue::Null);
    }
    let bytes: Vec<u8> = copy_range(mem, data, data + length);
    match ty.decode_bytes(bytes.as_slice()) {
        Ok(v) => Some(v),
        Err(_) => None,
    }
}

/// The elements whose words start at `off`.
fn read_items(elem: &Type, off: u64, length: u64, mem: &[u8]) -> (r: Option<JsonValue>)
    ensures
        optional_model(r) == array_value(
            memory_items(*elem, off as nat, length as nat, mem@, Seq::empty()),
        ),
    decreases elem, 1nat,
{
    let mut values: Vec<JsonValue> = Vec::new();
    let mut at: u64 = off;
    let mut left: u64 = length;
    let ghost goal = memory_items(*elem, off as nat, length as nat, mem@, Seq::empty());
    assert(json_models(values@) =~= Seq::<Json>::empty());
    while left > 0
        invariant
            goal == memory_items(*elem, off as nat, length as nat, mem@, Seq::empty()),
            goal == memory_items(*elem, at as nat, left as nat, mem@, json_models(values@)),
        decreases left,
    {
        let place: u64 = match find_value(elem, at, mem) {
            Some(place) => place,
            None => {
                return None;
            },
        };
        let value: JsonValue = match read_value(elem, place, mem) {
            Some(value) => value,
            None => {
                return None;
            },
        };
        if at > u64::MAX - 32 {
            return None;
        }
        let ghost before = values@;
        values.push(value);
        assert(json_models(values@) =~= json_models(before).push(value@));
        at = at + 32;
        left = left - 1;
    }
    proof {
        lemma_array_model(values);
    }
    Some(JsonValue::Array(values))
}

/// The members whose words start at `off`.
fn read_members(types: &Vec<(String, Type)>, off: u64, mem: &[u8]) -> (r: Option<JsonObject>)
    ensures
        match r {
            Some(members) => memory_members(types@, off as nat, 0, mem@, Map::empty()) == Some(
                members@,
            ),
            None => memory_members(types@, off as nat, 0, mem@, Map::empty()) is None,
        },
    decreases types, 1nat,
{
    let mut members: JsonObject = JsonObject::new();
    let mut at: u64 = off;
    let mut i: usize = 0;
    while i < types.len()
        invariant
            decreases_to!(types => types@),
            i <= types@.len(),
            memory_members(types@, off as nat, 0, mem@, Map::empty()) == memory_members(
                types@,
                at as nat,
                i as nat,
                mem@,
                members@,
            ),
        decreases types@.len() - i,
    {
        let ty: &Type = &types[i].1;
        let place: u64 = match find_value(ty, at, mem) {
            Some(place) => place,
            None => {
                return None;
            },
        };
        let value: JsonValue = match read_value(ty, place, mem) {
            Some(value) => value,
            None => {
                return None;
            },
        };
        members.insert(types[i].0.clone(), value);
        match ty {
            Type::Mapping(_) => {},
            _ => {
                if at > u64::MAX - 32 {
                    return None;
                }
                at = at + 32;
            },
        }
        i = i + 1;
    }
    Some(members)
}

/// The value of type `ty` that stands at `off`.
fn read_value(ty: &Type, off: u64, mem: &[u8]) -> (r: Option<JsonValue>)
    ensures
        optional_model(r) == memory_value(*ty, off as nat, mem@),
    decreases ty, 0nat,
{
    match ty {
        Type::String | Type::Bytes => read_text_value(ty, off, mem),
        Type::Array(TypeArray { ty: elem, size }) => match size {
            Some(size) => read_items(elem, off, *size as u64, mem),
            None => {
                if off > u64::MAX - 32 {
                    return None;
                }
                if !word_in(mem, off) {
                    return Some(JsonValue::Null);
                }
                read_items(elem, off + 32, read_low_word(mem, off), mem)
            },
        },
        Type::Tuple(TypeTuple { types }) => match read_members(types, off, mem) {
            Some(members) => Some(JsonValue::Object(members)),
            None => None,
        },
        _ => read_word_value(ty, off, mem),
    }
}

/// The value of type `typ` that stands `offset_bytes` into `memory`, if one does.
pub fn resolve_memory_assignment(typ: &Type, offset_bytes: usize, memory: &[u8]) -> (r: Option<
    JsonValue,
>)
    ensures
        optional_model(r) == memory_value(*typ, offset_bytes as nat, memory@),
{
    read_value(typ, offset_bytes as u64, memory)
}

} // verus!
