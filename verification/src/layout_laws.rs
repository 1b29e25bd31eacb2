//! What is read from a storage that was laid out as Solidity does it.

use vstd::arithmetic::div_mod::{lemma_add_mod_noop, lemma_fundamental_div_mod_converse};
use vstd::prelude::*;
use vstd::utf8::*;

use crate::json::Json;
use crate::primitives::{be_value, byte_range, lemma_byte_range_step, word_count};
use crate::storage::{
    data_slot, decoded_value, dynamic_step, fixed_step, layout, member_pos, resolved,
    resolved_dynamic, resolved_fixed, resolved_members, resolved_vars, slot_content, slots_of, Pos,
};
use crate::storage_laws::{holds, law_long_data_is_read, law_short_data_is_read, short_head};
use crate::text::hex_digits;
use crate::types::{is_value_type, type_bytes, type_is_dynamic, Type, TypeArray, TypeTuple};

verus! {

/// The slot `n` behind another; slot numbers wrap around.
pub open spec fn slot_on(slot: nat, n: nat) -> nat {
    if n == 0 {
        slot
    } else {
        (slot + n) % word_count()
    }
}

/// Where the element `i` stands of an array whose first element starts the slot `first`: elements
/// of less than a slot share slots, as many as fit, and others take `k` slots each.
pub open spec fn element_place(elem: Type, k: nat, first: nat, i: nat) -> Pos {
    let b = type_bytes(elem);
    if b < 32 {
        Pos { slot: slot_on(first, i / (32nat / b)), index: (i % (32nat / b)) * b }
    } else {
        Pos { slot: slot_on(first, i * k), index: 0 }
    }
}

/// Whether the bytes stand at `p`, counted from the low end of its slot.
pub open spec fn occupies(storage: Map<nat, Seq<u8>>, p: Pos, bytes: Seq<u8>) -> bool {
    &&& p.index + bytes.len() <= 32
    &&& slot_content(storage, p.slot).subrange(32 - p.index - bytes.len(), 32 - p.index) == bytes
}

/// Whether the data of a `bytes` or `string` variable stands where its head is at `slot`: nowhere
/// where there is none, in the head itself where it fits, and else from the digest of the slot on.
pub open spec fn data_stands(storage: Map<nat, Seq<u8>>, slot: nat, bytes: Seq<u8>) -> bool {
    if !storage.dom().contains(slot) {
        bytes.len() == 0
    } else if bytes.len() <= 31 {
        storage[slot] == short_head(bytes)
    } else {
        &&& 2 * bytes.len() + 1 < byte_range(8)
        &&& be_value(storage[slot]) == 2 * bytes.len() + 1
        &&& holds(storage, data_slot(slot), bytes)
    }
}

/// Whether an array can hold elements of this type, of which each takes `k` slots.
pub open spec fn has_room(elem: Type, k: nat) -> bool {
    0 < type_bytes(elem) <= 32 && k > 0
}

/// Whether the members are named so.
pub open spec fn named(types: Seq<(String, Type)>, names: Set<Seq<char>>) -> bool {
    &&& forall|i: int| 0 <= i < types.len() ==> names.contains(#[trigger] types[i].0@)
    &&& forall|name: Seq<char>| #[trigger]
        names.contains(name) ==> exists|i: int|
            0 <= i < types.len() && #[trigger] types[i].0@ == name
}

/// Whether a value of type `ty` stands at `p`, laid out as Solidity does it. Mappings are not
/// described.
pub open spec fn stands(storage: Map<nat, Seq<u8>>, ty: Type, p: Pos, value: Json) -> bool
    decreases ty,
{
    match ty {
        Type::Address | Type::Bool | Type::FixedBytes(_) | Type::Uint(_) | Type::Int(_) => {
            exists|bytes: Seq<u8>|
                {
                    &&& #[trigger] occupies(storage, p, bytes)
                    &&& bytes.len() == type_bytes(ty)
                    &&& decoded_value(ty, bytes) == Some(value)
                }
        },
        Type::String | Type::Bytes => exists|bytes: Seq<u8>|
            {
                &&& #[trigger] data_stands(storage, p.slot, bytes)
                &&& decoded_value(ty, bytes) == Some(value)
            },
        Type::Array(TypeArray { ty: elem, size }) => match (slots_of(*elem), value) {
            (Some(k), Json::Array(values)) => {
                let first = match size {
                    Some(_) => p.slot,
                    None => data_slot(p.slot),
                };
                &&& has_room(*elem, k)
                &&& match size {
                    Some(n) => p.index == 0 && values.len() == n,
                    None => {
                        &&& storage.dom().contains(p.slot)
                        &&& be_value(storage[p.slot]) == values.len()
                        &&& values.len() < 0x1_0000_0000
                    },
                }
                &&& forall|i: int|
                    0 <= i < values.len() ==> stands(
                        storage,
                        *elem,
                        element_place(*elem, k, first, i as nat),
                        #[trigger] values[i],
                    )
            },
            _ => false,
        },
        Type::Tuple(TypeTuple { types }) => match (layout(types@), value) {
            (Some((offsets, _)), Json::Object(members)) => {
                &&& named(types@, members.dom())
                &&& forall|i: int|
                    0 <= i < types@.len() ==> stands(
                        storage,
                        (#[trigger] types@[i]).1,
                        member_pos(p, offsets[i]),
                        members[types@[i].0@],
                    )
            },
            _ => false,
        },
        Type::Mapping(_) => false,
    }
}

proof fn lemma_slot_on(slot: nat, n: nat, k: nat)
    requires
        k > 0,
    ensures
        (slot_on(slot, n) + k) % word_count() == slot_on(slot, n + k),
{
    lemma_byte_range_step(32);
    let w = word_count() as int;
    if n > 0 {
        lemma_add_mod_noop((slot + n) as int, k as int, w);
        lemma_add_mod_noop(((slot + n) % word_count()) as int, k as int, w);
        vstd::arithmetic::div_mod::lemma_mod_twice((slot + n) as int, w);
    }
}

proof fn lemma_next_place(elem: Type, k: nat, first: nat, i: nat)
    requires
        slots_of(elem) == Some(k),
        has_room(elem, k),
    ensures
        fixed_step(elem, k, element_place(elem, k, first, i)) == Some(
            element_place(elem, k, first, i + 1),
        ),
        dynamic_step(elem, k, element_place(elem, k, first, i)) == element_place(
            elem,
            k,
            first,
            i + 1,
        ),
{
    let b = type_bytes(elem);
    if b < 32 {
        assert(is_value_type(elem));
        assert(k == 1 && !type_is_dynamic(elem));
        let per = (32nat / b) as int;
        let row = i as int / per;
        let at = i as int % per;
        assert(per >= 1 && per * b <= 32 && (per + 1) * b > 32) by (nonlinear_arith)
            requires
                per == (32nat / b) as int,
                0 < b < 32,
        ;
        assert(i == row * per + at && 0 <= at < per && row >= 0) by (nonlinear_arith)
            requires
                row == i as int / per,
                at == i as int % per,
                per >= 1,
                i >= 0,
        ;
        assert(at * b + b <= 32) by (nonlinear_arith)
            requires
                at < per,
                per * b <= 32,
                b > 0,
        ;
        let here = element_place(elem, k, first, i);
        assert(here == Pos { slot: slot_on(first, row as nat), index: (at * b) as nat });
        let next = element_place(elem, k, first, i + 1);
        if at + 1 < per {
            lemma_fundamental_div_mod_converse(i as int + 1, per, row, at + 1);
            assert(at * b + b + b <= 32 && (at + 1) * b == at * b + b) by (nonlinear_arith)
                requires
                    at + 2 <= per,
                    per * b <= 32,
                    b > 0,
            ;
            assert(next == Pos { slot: here.slot, index: ((at + 1) * b) as nat });
        } else {
            assert((row + 1) * per + 0 == i + 1) by (nonlinear_arith)
                requires
                    i == row * per + at,
                    at + 1 == per,
            ;
            lemma_fundamental_div_mod_converse(i as int + 1, per, row + 1, 0);
            assert(at * b + b + b > 32) by (nonlinear_arith)
                requires
                    at + 1 == per,
                    (per + 1) * b > 32,
            ;
            lemma_slot_on(first, row as nat, 1);
            assert(0 * b == 0) by (nonlinear_arith);
            assert(next == Pos { slot: slot_on(first, (row + 1) as nat), index: 0 });
        }
    } else {
        assert((i + 1) * k == i * k + k) by (nonlinear_arith);
        lemma_slot_on(first, i * k, k);
    }
}

proof fn lemma_fixed_items(
    storage: Map<nat, Seq<u8>>,
    elem: Type,
    k: nat,
    first: nat,
    values: Seq<Json>,
    i: nat,
)
    requires
        slots_of(elem) == Some(k),
        has_room(elem, k),
        i <= values.len(),
        forall|j: int|
            0 <= j < values.len() ==> resolved(
                storage,
                elem,
                element_place(elem, k, first, j as nat),
            ) == Some(#[trigger] values[j]),
    ensures
        resolved_fixed(
            storage,
            elem,
            element_place(elem, k, first, i),
            (values.len() - i) as nat,
            values.take(i as int),
        ) == Some(values),
    decreases values.len() - i,
{
    if i < values.len() {
        lemma_next_place(elem, k, first, i);
        lemma_fixed_items(storage, elem, k, first, values, i + 1);
        assert(values.take(i as int).push(values[i as int]) =~= values.take(i as int + 1));
    } else {
        assert(values.take(i as int) =~= values);
    }
}

proof fn lemma_dynamic_items(
    storage: Map<nat, Seq<u8>>,
    elem: Type,
    k: nat,
    first: nat,
    values: Seq<Json>,
    i: nat,
)
    requires
        slots_of(elem) == Some(k),
        has_room(elem, k),
        i <= values.len(),
        forall|j: int|
            0 <= j < values.len() ==> resolved(
                storage,
                elem,
                element_place(elem, k, first, j as nat),
            ) == Some(#[trigger] values[j]),
    ensures
        resolved_dynamic(
            storage,
            elem,
            k,
            element_place(elem, k, first, i),
            (values.len() - i) as nat,
            values.take(i as int),
        ) == Some(values),
    decreases values.len() - i,
{
    if i < values.len() {
        lemma_next_place(elem, k, first, i);
        lemma_dynamic_items(storage, elem, k, first, values, i + 1);
        assert(values.take(i as int).push(values[i as int]) =~= values.take(i as int + 1));
    } else {
        assert(values.take(i as int) =~= values);
    }
}

/// The values of the first `i` members.
pub open spec fn first_members(types: Seq<(String, Type)>, members: Map<Seq<char>, Json>, i: nat) -> Map<
    Seq<char>,
    Json,
>
    decreases i,
{
    if i == 0 {
        Map::empty()
    } else {
        let name = types[i - 1].0@;
        first_members(types, members, (i - 1) as nat).insert(name, members[name])
    }
}

proof fn lemma_first_members(types: Seq<(String, Type)>, members: Map<Seq<char>, Json>, i: nat)
    requires
        i <= types.len(),
    ensures
        forall|name: Seq<char>| #[trigger]
            first_members(types, members, i).dom().contains(name) <==> exists|j: int|
                0 <= j < i && #[trigger] types[j].0@ == name,
        forall|name: Seq<char>| #[trigger]
            first_members(types, members, i).dom().contains(name) ==> first_members(
                types,
                members,
                i,
            )[name] == members[name],
    decreases i,
{
    if i > 0 {
        lemma_first_members(types, members, (i - 1) as nat);
        let before = first_members(types, members, (i - 1) as nat);
        let now = first_members(types, members, i);
        assert forall|name: Seq<char>| #[trigger] now.dom().contains(name) implies exists|j: int|
            0 <= j < i && #[trigger] types[j].0@ == name by {
            if before.dom().contains(name) {
                let j = choose|j: int| 0 <= j < i - 1 && #[trigger] types[j].0@ == name;
                assert(types[j].0@ == name);
            } else {
                assert(types[i - 1].0@ == name);
            }
        }
        assert forall|name: Seq<char>|
            (exists|j: int| 0 <= j < i && #[trigger] types[j].0@ == name) implies #[trigger]
            now.dom().contains(name) by {
            let j = choose|j: int| 0 <= j < i && #[trigger] types[j].0@ == name;
            if j < i - 1 {
                assert(types[j].0@ == name);
                assert(before.dom().contains(name));
            }
        }
    }
}

/// The values of all members are all values.
pub proof fn lemma_all_members(types: Seq<(String, Type)>, members: Map<Seq<char>, Json>)
    requires
        named(types, members.dom()),
    ensures
        first_members(types, members, types.len()) == members,
{
    lemma_first_members(types, members, types.len());
    let all = first_members(types, members, types.len());
    assert forall|name: Seq<char>| all.dom().contains(name) <==> members.dom().contains(name) by {
        if all.dom().contains(name) {
            let j = choose|j: int| 0 <= j < types.len() && #[trigger] types[j].0@ == name;
            assert(members.dom().contains(types[j].0@));
        }
    }
    assert(all =~= members);
}

proof fn lemma_members(
    storage: Map<nat, Seq<u8>>,
    types: Seq<(String, Type)>,
    offsets: Seq<Pos>,
    p: Pos,
    members: Map<Seq<char>, Json>,
    i: nat,
)
    requires
        i <= types.len(),
        named(types, members.dom()),
        forall|j: int|
            0 <= j < types.len() ==> resolved(
                storage,
                (#[trigger] types[j]).1,
                member_pos(p, offsets[j]),
            ) == Some(members[types[j].0@]),
    ensures
        resolved_members(storage, types, offsets, p, i, first_members(types, members, i)) == Some(
            members,
        ),
    decreases types.len() - i,
{
    if i < types.len() {
        lemma_members(storage, types, offsets, p, members, i + 1);
        assert(types[i as int].1 == types[i as int].1);
    } else {
        lemma_all_members(types, members);
    }
}

proof fn lemma_no_data(ty: Type, value: Json)
    requires
        ty is String || ty is Bytes,
        decoded_value(ty, Seq::empty()) == Some(value),
    ensures
        value == Json::String(
            if ty is Bytes {
                "0x"@
            } else {
                ""@
            },
        ),
{
    reveal_strlit("");
    assert(""@ =~= Seq::<char>::empty());
    assert(hex_digits(Seq::empty()) =~= Seq::<char>::empty());
    assert("0x"@ + hex_digits(Seq::empty()) =~= "0x"@);
    assert(decode_utf8(Seq::<u8>::empty()) =~= Seq::<char>::empty());
}

/// A value that stands in storage, laid out as Solidity does it, is read as it is. This holds of
/// all types without mappings in them, however they are nested.
pub proof fn law_values_are_read(storage: Map<nat, Seq<u8>>, ty: Type, p: Pos, value: Json)
    requires
        stands(storage, ty, p, value),
    ensures
        resolved(storage, ty, p) == Some(value),
    decreases ty,
{
    match ty {
        Type::Address | Type::Bool | Type::FixedBytes(_) | Type::Uint(_) | Type::Int(_) => {},
        Type::String | Type::Bytes => {
            let bytes = choose|bytes: Seq<u8>|
                {
                    &&& #[trigger] data_stands(storage, p.slot, bytes)
                    &&& decoded_value(ty, bytes) == Some(value)
                };
            let start = Pos { slot: p.slot, index: 0 };
            if !storage.dom().contains(p.slot) {
                assert(bytes =~= Seq::empty());
                lemma_no_data(ty, value);
            } else if bytes.len() <= 31 {
                law_short_data_is_read(storage, p.slot, bytes);
                assert(resolved(storage, ty, start) == decoded_value(ty, bytes));
            } else {
                law_long_data_is_read(storage, p.slot, bytes);
                assert(resolved(storage, ty, start) == decoded_value(ty, bytes));
            }
        },
        Type::Array(TypeArray { ty: elem, size }) => {
            let k = slots_of(*elem)->Some_0;
            let values = value->Array_0;
            let first = match size {
                Some(_) => p.slot,
                None => data_slot(p.slot),
            };
            assert forall|i: int| 0 <= i < values.len() implies resolved(
                storage,
                *elem,
                element_place(*elem, k, first, i as nat),
            ) == Some(#[trigger] values[i]) by {
                law_values_are_read(
                    storage,
                    *elem,
                    element_place(*elem, k, first, i as nat),
                    values[i],
                );
            }
            assert(values.take(0) =~= Seq::empty());
            let start = element_place(*elem, k, first, 0);
            assert(start == Pos { slot: first, index: 0 }) by {
                let b = type_bytes(*elem);
                if b < 32 {
                    assert(32nat / b >= 1) by (nonlinear_arith)
                        requires
                            0 < b < 32,
                    ;
                    lemma_fundamental_div_mod_converse(0, (32nat / b) as int, 0, 0);
                    assert(0nat * b == 0) by (nonlinear_arith);
                } else {
                    assert(0nat * k == 0) by (nonlinear_arith);
                }
            }
            if size is Some {
                lemma_fixed_items(storage, *elem, k, first, values, 0);
            } else {
                lemma_dynamic_items(storage, *elem, k, first, values, 0);
            }
        },
        Type::Tuple(TypeTuple { types }) => {
            let offsets = layout(types@)->Some_0.0;
            let members = value->Object_0;
            assert forall|i: int| 0 <= i < types@.len() implies resolved(
                storage,
                (#[trigger] types@[i]).1,
                member_pos(p, offsets[i]),
            ) == Some(members[types@[i].0@]) by {
                law_values_are_read(
                    storage,
                    types@[i].1,
                    member_pos(p, offsets[i]),
                    members[types@[i].0@],
                );
            }
            lemma_members(storage, types@, offsets, p, members, 0);
        },
        Type::Mapping(_) => {},
    }
}

proof fn lemma_variables(
    storage: Map<nat, Seq<u8>>,
    vars: Seq<(String, Type)>,
    offsets: Seq<Pos>,
    values: Map<Seq<char>, Json>,
    i: nat,
)
    requires
        i <= vars.len(),
        named(vars, values.dom()),
        forall|j: int|
            0 <= j < vars.len() ==> resolved(storage, (#[trigger] vars[j]).1, offsets[j]) == Some(
                values[vars[j].0@],
            ),
    ensures
        resolved_vars(storage, vars, offsets, i, first_members(vars, values, i)) == Some(values),
    decreases vars.len() - i,
{
    if i < vars.len() {
        lemma_variables(storage, vars, offsets, values, i + 1);
        assert(vars[i as int].1 == vars[i as int].1);
    } else {
        lemma_all_members(vars, values);
    }
}

/// State variables that stand in storage, each in the place that the layout gives it, are read as
/// they are.
pub proof fn law_variables_are_read(
    storage: Map<nat, Seq<u8>>,
    vars: Seq<(String, Type)>,
    values: Map<Seq<char>, Json>,
)
    requires
        layout(vars) is Some,
        named(vars, values.dom()),
        forall|i: int|
            0 <= i < vars.len() ==> stands(
                storage,
                (#[trigger] vars[i]).1,
                layout(vars)->Some_0.0[i],
                values[vars[i].0@],
            ),
    ensures
        resolved_vars(storage, vars, layout(vars)->Some_0.0, 0, Map::empty()) == Some(values),
{
    let offsets = layout(vars)->Some_0.0;
    assert forall|i: int| 0 <= i < vars.len() implies resolved(
        storage,
        (#[trigger] vars[i]).1,
        offsets[i],
    ) == Some(values[vars[i].0@]) by {
        law_values_are_read(storage, vars[i].1, offsets[i], values[vars[i].0@]);
    }
    lemma_variables(storage, vars, offsets, values, 0);
}

} // verus!
