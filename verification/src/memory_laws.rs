//! What is read from a memory that was laid out as Solidity does it.

use vstd::arithmetic::div_mod::lemma_small_mod;
use vstd::prelude::*;

use crate::json::Json;
use crate::layout_laws::{first_members, lemma_all_members, named};
use crate::memory::{low_word, memory_items, memory_members, memory_value, value_offset};
use crate::primitives::{be_value, byte_range};
use crate::storage::{decoded_value, lemma_eight_bytes};
use crate::types::{is_value_type, type_bytes, Type, TypeArray, TypeTuple};

verus! {

/// Whether a word of memory starts at `off`.
pub open spec fn has_word(mem: Seq<u8>, off: nat) -> bool {
    off + 32 <= mem.len()
}

/// The number that the word at `off` spells.
pub open spec fn word_value(mem: Seq<u8>, off: nat) -> nat {
    be_value(mem.subrange(off as int, off as int + 32))
}

/// Whether the bytes of a value of one word stand in the word at `off`: at its start, for fixed
/// bytes, and else at its end.
pub open spec fn fills_word(mem: Seq<u8>, ty: Type, off: nat, bytes: Seq<u8>) -> bool {
    &&& has_word(mem, off)
    &&& bytes.len() <= 32
    &&& bytes == if ty is FixedBytes {
        mem.subrange(off as int, (off + bytes.len()) as int)
    } else {
        mem.subrange(off + 32 - bytes.len(), off as int + 32)
    }
}

/// Whether some data stands at `off`, behind its length.
pub open spec fn data_in_memory(mem: Seq<u8>, off: nat, bytes: Seq<u8>) -> bool {
    &&& has_word(mem, off)
    &&& word_value(mem, off) == bytes.len()
    &&& off + 32 + bytes.len() <= mem.len()
    &&& mem.subrange(off as int + 32, (off + 32 + bytes.len()) as int) == bytes
}

/// Where an element or a member stands that has its word at `off`: a value of one word there, and
/// others where that word points.
pub open spec fn pointed_place(mem: Seq<u8>, ty: Type, off: nat) -> nat {
    if is_value_type(ty) {
        off
    } else {
        word_value(mem, off)
    }
}

/// Whether the word of an element or a member stands at `off` and, where it points, points into
/// memory.
pub open spec fn points_into(mem: Seq<u8>, ty: Type, off: nat) -> bool {
    has_word(mem, off) && pointed_place(mem, ty, off) <= mem.len()
}

/// Where the word `i` of some stands that start at `off`.
pub open spec fn nth_word(off: nat, i: nat) -> nat {
    off + 32 * i
}

/// Whether a value of type `ty` stands at `off`, laid out as Solidity does it. Mappings are not
/// described.
pub open spec fn stands_in_memory(mem: Seq<u8>, ty: Type, off: nat, value: Json) -> bool
    decreases ty,
{
    match ty {
        Type::Address | Type::Bool | Type::FixedBytes(_) | Type::Uint(_) | Type::Int(_) => {
            exists|bytes: Seq<u8>|
                {
                    &&& #[trigger] fills_word(mem, ty, off, bytes)
                    &&& bytes.len() == type_bytes(ty)
                    &&& decoded_value(ty, bytes) == Some(value)
                }
        },
        Type::String | Type::Bytes => exists|bytes: Seq<u8>|
            {
                &&& #[trigger] data_in_memory(mem, off, bytes)
                &&& decoded_value(ty, bytes) == Some(value)
            },
        Type::Array(TypeArray { ty: elem, size }) => match value {
            Json::Array(values) => {
                let first = match size {
                    Some(_) => off,
                    None => off + 32,
                };
                &&& match size {
                    Some(n) => values.len() == n,
                    None => has_word(mem, off) && word_value(mem, off) == values.len(),
                }
                &&& forall|i: int|
                    0 <= i < values.len() ==> points_into(mem, *elem, nth_word(first, i as nat))
                        && stands_in_memory(
                        mem,
                        *elem,
                        pointed_place(mem, *elem, nth_word(first, i as nat)),
                        #[trigger] values[i],
                    )
            },
            _ => false,
        },
        Type::Tuple(TypeTuple { types }) => match value {
            Json::Object(members) => {
                &&& named(types@, members.dom())
                &&& forall|i: int|
                    0 <= i < types@.len() ==> points_into(
                        mem,
                        types@[i].1,
                        nth_word(off, i as nat),
                    ) && stands_in_memory(
                        mem,
                        (#[trigger] types@[i]).1,
                        pointed_place(mem, types@[i].1, nth_word(off, i as nat)),
                        members[types@[i].0@],
                    )
            },
            _ => false,
        },
        Type::Mapping(_) => false,
    }
}

/// A number that is no more than the length of a memory is read whole from its word.
proof fn lemma_low_word(mem: Seq<u8>, off: nat)
    requires
        mem.len() <= u64::MAX,
        word_value(mem, off) <= mem.len(),
    ensures
        low_word(mem, off) == word_value(mem, off),
{
    lemma_eight_bytes();
    lemma_small_mod(word_value(mem, off), byte_range(8));
}

proof fn lemma_value_offset(mem: Seq<u8>, ty: Type, off: nat)
    requires
        mem.len() <= u64::MAX,
        points_into(mem, ty, off),
    ensures
        value_offset(ty, off, mem) == Some(pointed_place(mem, ty, off)),
{
    if !is_value_type(ty) {
        lemma_low_word(mem, off);
    }
}

spec fn element_is_read(mem: Seq<u8>, elem: Type, first: nat, j: int, value: Json) -> bool {
    let at = nth_word(first, j as nat);
    &&& points_into(mem, elem, at)
    &&& memory_value(elem, pointed_place(mem, elem, at), mem) == Some(value)
}

proof fn lemma_items(mem: Seq<u8>, elem: Type, first: nat, values: Seq<Json>, i: nat)
    requires
        mem.len() <= u64::MAX,
        i <= values.len(),
        forall|j: int|
            0 <= j < values.len() ==> element_is_read(mem, elem, first, j, #[trigger] values[j]),
    ensures
        memory_items(
            elem,
            nth_word(first, i),
            (values.len() - i) as nat,
            mem,
            values.take(i as int),
        ) == Some(values),
    decreases values.len() - i,
{
    if i < values.len() {
        let v = values[i as int];
        lemma_value_offset(mem, elem, nth_word(first, i));
        lemma_items(mem, elem, first, values, i + 1);
        assert(values.take(i as int).push(v) =~= values.take(i as int + 1));
    } else {
        assert(values.take(i as int) =~= values);
    }
}

proof fn lemma_members(
    mem: Seq<u8>,
    types: Seq<(String, Type)>,
    off: nat,
    members: Map<Seq<char>, Json>,
    i: nat,
)
    requires
        mem.len() <= u64::MAX,
        i <= types.len(),
        named(types, members.dom()),
        forall|j: int|
            0 <= j < types.len() ==> {
                let ty = (#[trigger] types[j]).1;
                &&& !(ty is Mapping)
                &&& points_into(mem, ty, nth_word(off, j as nat))
                &&& memory_value(ty, pointed_place(mem, ty, nth_word(off, j as nat)), mem) == Some(
                    members[types[j].0@],
                )
            },
    ensures
        memory_members(types, nth_word(off, i), i, mem, first_members(types, members, i)) == Some(
            members,
        ),
    decreases types.len() - i,
{
    if i < types.len() {
        lemma_value_offset(mem, types[i as int].1, nth_word(off, i));
        lemma_members(mem, types, off, members, i + 1);
    } else {
        lemma_all_members(types, members);
    }
}

/// A value that stands in memory, laid out as Solidity does it, is read as it is. This holds of
/// all types without mappings in them, however they are nested.
pub proof fn law_memory_values_are_read(mem: Seq<u8>, ty: Type, off: nat, value: Json)
    requires
        mem.len() <= u64::MAX,
        off <= mem.len(),
        stands_in_memory(mem, ty, off, value),
    ensures
        memory_value(ty, off, mem) == Some(value),
    decreases ty,
{
    match ty {
        Type::Address | Type::Bool | Type::FixedBytes(_) | Type::Uint(_) | Type::Int(_) => {},
        Type::String | Type::Bytes => {
            lemma_low_word(mem, off);
        },
        Type::Array(TypeArray { ty: elem, size }) => {
            let values = value->Array_0;
            let first = match size {
                Some(_) => off,
                None => off + 32,
            };
            assert forall|i: int| 0 <= i < values.len() implies element_is_read(
                mem,
                *elem,
                first,
                i,
                #[trigger] values[i],
            ) by {
                law_memory_values_are_read(
                    mem,
                    *elem,
                    pointed_place(mem, *elem, nth_word(first, i as nat)),
                    values[i],
                );
            }
            lemma_items(mem, *elem, first, values, 0);
            assert(values.take(0) =~= Seq::empty());
            if size is None {
                if values.len() > 0 {
                    let last = (values.len() - 1) as nat;
                    assert(has_word(mem, nth_word(first, last))) by {
                        let v = values[last as int];
                    }
                }
                lemma_low_word(mem, off);
            }
        },
        Type::Tuple(TypeTuple { types }) => {
            let members = value->Object_0;
            assert forall|i: int| 0 <= i < types@.len() implies {
                let t = (#[trigger] types@[i]).1;
                &&& !(t is Mapping)
                &&& points_into(mem, t, nth_word(off, i as nat))
                &&& memory_value(t, pointed_place(mem, t, nth_word(off, i as nat)), mem) == Some(
                    members[types@[i].0@],
                )
            } by {
                law_memory_values_are_read(
                    mem,
                    types@[i].1,
                    pointed_place(mem, types@[i].1, nth_word(off, i as nat)),
                    members[types@[i].0@],
                );
            }
            lemma_members(mem, types@, off, members, 0);
        },
        Type::Mapping(_) => {},
    }
}

} // verus!
