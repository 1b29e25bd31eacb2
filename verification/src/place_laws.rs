//! Where variables stand in storage.

use vstd::prelude::*;

use crate::json::Json;
use crate::storage::{ended, layout, layout_from, placed, resolved, slots_of, Pos};
use crate::types::{type_bytes, type_is_dynamic, Type, TypeArray};

verus! {

/// A value of a simple type takes as many bytes as its bits need, an address twenty, a truth value
/// one, and a byte string its length. Everything else takes whole slots.
pub proof fn law_types_have_their_sizes(ty: Type, bytes: u16)
    ensures
        ty is Address ==> type_bytes(ty) == 20,
        ty is Bool ==> type_bytes(ty) == 1,
        ty == Type::FixedBytes(bytes) ==> type_bytes(ty) == bytes,
        8 * bytes <= u16::MAX ==> type_bytes(Type::Uint(Some((8 * bytes) as u16))) == bytes
            && type_bytes(Type::Int(Some((8 * bytes) as u16))) == bytes,
        ty is String || ty is Bytes || ty is Array || ty is Tuple || ty is Mapping || ty
            == Type::Uint(None) || ty == Type::Int(None) ==> type_bytes(ty) == 32,
{
}

/// Strings, byte strings, structs and arrays of dynamic size each start a slot of their own; other
/// types need not.
pub proof fn law_dynamic_types_start_a_slot(ty: Type)
    ensures
        type_is_dynamic(ty) <==> ty is String || ty is Bytes || ty is Tuple || (
        ty matches Type::Array(arr) && arr.size is None),
{
}

/// A variable takes one slot, but for mappings, of which nothing is known, for structs, and for
/// arrays of fixed size. Of these, one with small elements takes as few slots as hold all of them,
/// with as many in each as fit, and one with large elements takes all the slots of its elements.
pub proof fn law_variables_take_their_slots(ty: Type)
    ensures
        ty is Mapping ==> slots_of(ty) is None,
        !(ty is Mapping) && !(ty is Tuple) && !(ty matches Type::Array(arr) && arr.size is Some)
            ==> slots_of(ty) == Some(1nat),
        ty matches Type::Array(TypeArray { ty: elem, size: Some(size) }) ==> {
            let b = type_bytes(*elem);
            &&& 0 < b < 32 ==> (slots_of(ty) matches Some(n) && {
                let per_slot = 32nat / b;
                &&& n * per_slot >= size
                &&& n > 0 ==> (n - 1) * per_slot < size
            })
            &&& b >= 32 ==> (slots_of(ty) matches Some(n) ==> slots_of(*elem) is Some && n == size
                * slots_of(*elem)->Some_0)
        },
        ty matches Type::Tuple(tuple) ==> (layout(tuple.types@) matches Some((_, end)) ==> (end.slot
            < 0x1_0000_0000 ==> slots_of(ty) == Some(end.slot))),
{
    if let Type::Array(TypeArray { ty: elem, size: Some(size) }) = ty {
        let b = type_bytes(*elem);
        if 0 < b < 32 {
            let per_slot = (32nat / b) as int;
            assert(1 <= per_slot) by (nonlinear_arith)
                requires
                    0 < b < 32,
                    per_slot == (32nat / b) as int,
            ;
            let s = size as int;
            let n = (s + per_slot - 1) / per_slot;
            assert(n * per_slot >= s && (n - 1) * per_slot < s && n >= 0) by (nonlinear_arith)
                requires
                    per_slot >= 1,
                    s >= 0,
                    n == (s + per_slot - 1) / per_slot,
            ;
        }
    }
}

proof fn lemma_layout(vars: Seq<(String, Type)>, i: nat, p: Pos, offsets: Seq<Pos>)
    requires
        i <= vars.len(),
        offsets.len() == i,
    ensures
        layout_from(vars, i, p, offsets) is Some <==> forall|j: int|
            i <= j < vars.len() ==> slots_of((#[trigger] vars[j]).1) is Some,
        layout_from(vars, i, p, offsets) matches Some((all, end)) ==> {
            &&& all.len() == vars.len()
            &&& all.take(i as int) == offsets
            &&& i < vars.len() ==> all[i as int] == placed(p, type_bytes(vars[i as int].1))
            &&& forall|j: int, k: int|
                i <= j && k == j + 1 && k < vars.len() ==> #[trigger] all[k] == placed(
                    ended(
                        #[trigger] all[j],
                        type_bytes(vars[j].1),
                        slots_of(vars[j].1)->Some_0,
                    ),
                    type_bytes(vars[k].1),
                )
            &&& i < vars.len() ==> end == ended(
                all.last(),
                type_bytes(vars.last().1),
                slots_of(vars.last().1)->Some_0,
            )
            &&& i == vars.len() ==> end == p
        },
    decreases vars.len() - i,
{
    if i < vars.len() {
        let b = type_bytes(vars[i as int].1);
        let q = placed(p, b);
        if slots_of(vars[i as int].1) is Some {
            let next = ended(q, b, slots_of(vars[i as int].1)->Some_0);
            let longer = offsets.push(q);
            lemma_layout(vars, i + 1, next, longer);
            assert(layout_from(vars, i, p, offsets) == layout_from(vars, i + 1, next, longer));
            if layout_from(vars, i, p, offsets) is Some {
                let (all, end) = layout_from(vars, i, p, offsets)->Some_0;
                assert(all.take(i as int) =~= all.take(i as int + 1).take(i as int));
                assert(longer.take(i as int) =~= offsets);
                assert(all[i as int] == all.take(i as int + 1)[i as int]);
                assert(all[i as int] == q);
            }
        } else {
            assert(slots_of(vars[i as int].1) is None);
        }
    } else if layout_from(vars, i, p, offsets) is Some {
        let all = layout_from(vars, i, p, offsets)->Some_0.0;
        assert(all.take(i as int) =~= all);
    }
}

/// The first variable starts the first slot. A variable behind one of a single slot stands right
/// behind it where it still fits into the slot, and starts the next slot where it does not; one behind
/// a variable of several slots starts the first slot behind them. There is a layout wherever all
/// variables have a known number of slots.
pub proof fn law_variables_are_packed(vars: Seq<(String, Type)>, i: int, j: int)
    requires
        0 <= i,
        j == i + 1,
        j < vars.len(),
        type_bytes(vars[i].1) <= 32,
        0 < type_bytes(vars[j].1) <= 32,
    ensures
        layout(vars) is Some <==> forall|k: int|
            0 <= k < vars.len() ==> slots_of((#[trigger] vars[k]).1) is Some,
        layout(vars) matches Some((offsets, end)) ==> {
            let p = offsets[i];
            let q = offsets[j];
            let b = type_bytes(vars[i].1);
            let c = type_bytes(vars[j].1);
            &&& type_bytes(vars[0].1) <= 32 ==> offsets[0] == (Pos { slot: 0, index: 0 })
            &&& slots_of(vars[i].1) == Some(1nat) && p.index + b + c <= 32 ==> q.slot == p.slot
                && q.index == p.index + b
            &&& slots_of(vars[i].1) == Some(1nat) && p.index + b + c > 32 && p.index + b <= 32
                ==> q.slot == p.slot + 1 && q.index == 0
            &&& slots_of(vars[i].1)->Some_0 != 1 ==> q.slot == p.slot + slots_of(vars[i].1)->Some_0
                && q.index == 0
        },
{
    lemma_layout(vars, 0, Pos { slot: 0, index: 0 }, Seq::empty());
    if layout(vars) is Some {
        let offsets = layout(vars)->Some_0.0;
        assert(offsets[j] == placed(
            ended(offsets[i], type_bytes(vars[i].1), slots_of(vars[i].1)->Some_0),
            type_bytes(vars[j].1),
        ));
        lemma_first(vars);
    }
}

proof fn lemma_first(vars: Seq<(String, Type)>)
    requires
        vars.len() > 0,
        layout(vars) is Some,
        forall|k: int| 0 <= k < vars.len() ==> slots_of((#[trigger] vars[k]).1) is Some,
    ensures
        type_bytes(vars[0].1) <= 32 ==> layout(vars)->Some_0.0[0] == (Pos { slot: 0, index: 0 }),
{
    lemma_layout(vars, 0, Pos { slot: 0, index: 0 }, Seq::empty());
}

/// What comes behind the variables starts the first slot that none of them takes.
pub proof fn law_layouts_end_at_a_free_slot(vars: Seq<(String, Type)>)
    requires
        vars.len() > 0,
        layout(vars) is Some,
    ensures
        ({
            let (offsets, end) = layout(vars)->Some_0;
            let p = offsets.last();
            let b = type_bytes(vars.last().1);
            let k = slots_of(vars.last().1)->Some_0;
            &&& end.index == 0
            &&& k == 1 && 0 < p.index + b <= 32 ==> end.slot == p.slot + 1
            &&& k != 1 ==> end.slot == p.slot + k
        }),
{
    lemma_layout(vars, 0, Pos { slot: 0, index: 0 }, Seq::empty());
}

/// A mapping is read as nothing, whatever the storage holds.
pub proof fn law_mappings_are_not_read(storage: Map<nat, Seq<u8>>, ty: Type, p: Pos)
    requires
        ty is Mapping,
    ensures
        resolved(storage, ty, p) == Some(Json::Null),
{
}

} // verus!
