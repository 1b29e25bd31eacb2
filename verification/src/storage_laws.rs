//! What holds of the storage layout.

use vstd::prelude::*;

use crate::json::Json;
use crate::primitives::{be_value, byte_range, lemma_byte_range_step, word_count};
use crate::storage::{
    be_bytes, byte_data, data_slot, decoded_value, ended, layout, layout_from, long_data, placed,
    resolved, rounded, slot_content, slots_of, zeros, Pos,
};
use crate::text::decimal;
use crate::types::{is_value_type, type_bytes, Type};

verus! {

/// The place as a number of bytes from the start of storage.
pub open spec fn address(p: Pos) -> nat {
    32 * p.slot + p.index
}

/// Where the variable `i` ends.
pub open spec fn end_of(vars: Seq<(String, Type)>, offsets: Seq<Pos>, i: int) -> Pos {
    ended(offsets[i], type_bytes(vars[i].1), slots_of(vars[i].1)->Some_0)
}

/// Whether the variables from `i` on follow one another, in the places that they were given.
spec fn in_order(vars: Seq<(String, Type)>, offsets: Seq<Pos>, end: Pos, i: int) -> bool {
    &&& forall|a: int, b: int|
        i <= a < b < vars.len() ==> address(#[trigger] end_of(vars, offsets, a)) <= address(
            #[trigger] offsets[b],
        )
    &&& forall|a: int|
        i <= a < vars.len() ==> address(#[trigger] end_of(vars, offsets, a)) <= address(end)
    &&& forall|a: int|
        i <= a < vars.len() && type_bytes(vars[a].1) <= 32 ==> (#[trigger] offsets[a]).index
            + type_bytes(vars[a].1) <= 32
}

proof fn lemma_in_order(vars: Seq<(String, Type)>, i: nat, p: Pos, offsets: Seq<Pos>)
    requires
        i <= vars.len(),
        offsets.len() == i,
        p.index <= 32,
        layout_from(vars, i, p, offsets) is Some,
    ensures
        ({
            let (all, end) = layout_from(vars, i, p, offsets)->Some_0;
            &&& all.len() == vars.len()
            &&& all.take(i as int) == offsets
            &&& end.index <= 32
            &&& address(p) <= address(end)
            &&& forall|a: int| i <= a < vars.len() ==> address(p) <= address(#[trigger] all[a])
            &&& in_order(vars, all, end, i as int)
        }),
    decreases vars.len() - i,
{
    let (all, end) = layout_from(vars, i, p, offsets)->Some_0;
    if i < vars.len() {
        let b = type_bytes(vars[i as int].1);
        let q = placed(p, b);
        let k = slots_of(vars[i as int].1)->Some_0;
        let next = ended(q, b, k);
        let longer = offsets.push(q);
        lemma_in_order(vars, i + 1, next, longer);
        assert(all.take(i as int) =~= all.take(i as int + 1).take(i as int));
        assert(longer.take(i as int) =~= offsets);
        assert(all[i as int] == all.take(i as int + 1)[i as int]);
        assert(all[i as int] == q);
        assert(end_of(vars, all, i as int) == next);
    } else {
        assert(all.take(i as int) =~= all);
    }
}

/// Variables do not share a byte: each one ends before those behind it start, and before the
/// first free slot.
pub proof fn law_variables_do_not_overlap(vars: Seq<(String, Type)>, i: int, j: int)
    requires
        layout(vars) is Some,
        0 <= i < j < vars.len(),
    ensures
        ({
            let (offsets, end) = layout(vars)->Some_0;
            &&& offsets.len() == vars.len()
            &&& address(end_of(vars, offsets, i)) <= address(offsets[j])
            &&& address(end_of(vars, offsets, j)) <= address(end)
            &&& end.index == 0
        }),
{
    lemma_in_order(vars, 0, Pos { slot: 0, index: 0 }, Seq::empty());
    let (offsets, last) = layout_from(
        vars,
        0,
        Pos { slot: 0, index: 0 },
        Seq::empty(),
    )->Some_0;
    assert(address(end_of(vars, offsets, i)) <= address(offsets[j]));
    assert(address(end_of(vars, offsets, j)) <= address(last));
    assert(address(last) <= address(rounded(last)));
}

/// A variable of no more than 32 bytes does not reach past the slot that it starts in.
pub proof fn law_small_variables_stay_in_their_slot(vars: Seq<(String, Type)>, i: int)
    requires
        layout(vars) is Some,
        0 <= i < vars.len(),
        type_bytes(vars[i].1) <= 32,
    ensures
        layout(vars)->Some_0.0[i].index + type_bytes(vars[i].1) <= 32,
{
    lemma_in_order(vars, 0, Pos { slot: 0, index: 0 }, Seq::empty());
}

/// A slot's word after `bytes` were written at `index`, counted from the low end.
pub open spec fn with_bytes(word: Seq<u8>, index: nat, bytes: Seq<u8>) -> Seq<u8> {
    word.take(32 - index - bytes.len()) + bytes + word.skip(32 - index)
}

/// The storage after `bytes` were written at `p`.
pub open spec fn written(storage: Map<nat, Seq<u8>>, p: Pos, bytes: Seq<u8>) -> Map<nat, Seq<u8>> {
    storage.insert(p.slot, with_bytes(slot_content(storage, p.slot), p.index, bytes))
}

/// A value that stands in one slot is read as it was written.
pub proof fn law_written_values_are_read(
    storage: Map<nat, Seq<u8>>,
    ty: Type,
    p: Pos,
    bytes: Seq<u8>,
)
    requires
        is_value_type(ty),
        bytes.len() == type_bytes(ty),
        p.index + bytes.len() <= 32,
        slot_content(storage, p.slot).len() == 32,
    ensures
        resolved(written(storage, p, bytes), ty, p) == decoded_value(ty, bytes),
{
    let word = with_bytes(slot_content(storage, p.slot), p.index, bytes);
    assert(slot_content(written(storage, p, bytes), p.slot) == word);
    assert(word.subrange(32 - p.index - bytes.len(), 32 - p.index) =~= bytes);
}

/// Writing at one place leaves the values alone that share no byte with it.
pub proof fn law_writing_leaves_others_alone(
    storage: Map<nat, Seq<u8>>,
    ty: Type,
    p: Pos,
    q: Pos,
    bytes: Seq<u8>,
)
    requires
        is_value_type(ty),
        p.index + type_bytes(ty) <= 32,
        q.index + bytes.len() <= 32,
        slot_content(storage, q.slot).len() == 32,
        p.slot != q.slot || p.index + type_bytes(ty) <= q.index || q.index + bytes.len()
            <= p.index,
    ensures
        resolved(written(storage, q, bytes), ty, p) == resolved(storage, ty, p),
{
    let b = type_bytes(ty);
    let before = slot_content(storage, p.slot);
    let now = slot_content(written(storage, q, bytes), p.slot);
    if p.slot == q.slot {
        assert(now.subrange(32 - p.index - b, 32 - p.index) =~= before.subrange(
            32 - p.index - b,
            32 - p.index,
        ));
    } else {
        assert(now == before);
    }
}

pub proof fn lemma_number_of_bytes(n: nat, k: nat)
    requires
        n < byte_range(k),
    ensures
        be_bytes(n, k).len() == k,
        be_value(be_bytes(n, k)) == n,
    decreases k,
{
    if k > 0 {
        lemma_byte_range_step((k - 1) as nat);
        assert(n / 256 < byte_range((k - 1) as nat)) by (nonlinear_arith)
            requires
                n < 256 * byte_range((k - 1) as nat),
        ;
        lemma_number_of_bytes(n / 256, (k - 1) as nat);
        assert(be_bytes(n, k).drop_last() =~= be_bytes(n / 256, (k - 1) as nat));
    }
}

/// An unsigned number that was written is read as its decimal numeral.
pub proof fn law_written_numbers_are_read(
    storage: Map<nat, Seq<u8>>,
    bits: u16,
    p: Pos,
    n: nat,
)
    requires
        p.index + bits as nat / 8 <= 32,
        n < byte_range(bits as nat / 8),
        slot_content(storage, p.slot).len() == 32,
    ensures
        resolved(
            written(storage, p, be_bytes(n, bits as nat / 8)),
            Type::Uint(Some(bits)),
            p,
        ) == Some(Json::String(decimal(n))),
{
    lemma_number_of_bytes(n, bits as nat / 8);
    law_written_values_are_read(
        storage,
        Type::Uint(Some(bits)),
        p,
        be_bytes(n, bits as nat / 8),
    );
}

/// The head of a `bytes` or `string` variable that holds its data itself.
pub open spec fn short_head(bytes: Seq<u8>) -> Seq<u8> {
    bytes + zeros((31 - bytes.len()) as nat) + seq![(2 * bytes.len()) as u8]
}

/// Up to 31 bytes stand in the head of their variable and are read from there.
pub proof fn law_short_data_is_read(storage: Map<nat, Seq<u8>>, slot: nat, bytes: Seq<u8>)
    requires
        bytes.len() <= 31,
        storage.dom().contains(slot),
        storage[slot] == short_head(bytes),
    ensures
        byte_data(storage, slot) == Some(bytes),
        forall|ty: Type|
            ty is String || ty is Bytes ==> #[trigger] resolved(
                storage,
                ty,
                Pos { slot, index: 0 },
            ) == decoded_value(ty, bytes),
{
    let head = short_head(bytes);
    assert(head.len() == 32);
    assert(head[31] == 2 * bytes.len());
    assert(head.last() == head[31]);
    assert(be_value(head) == be_value(head.drop_last()) * 256 + head[31] as nat);
    assert(head.take(bytes.len() as int) =~= bytes);
}

/// Whether the slots from `slot` on hold the bytes, 32 in each.
pub open spec fn holds(storage: Map<nat, Seq<u8>>, slot: nat, bytes: Seq<u8>) -> bool
    decreases bytes.len(),
{
    if bytes.len() == 0 {
        true
    } else if bytes.len() <= 32 {
        storage.dom().contains(slot) && storage[slot].take(bytes.len() as int) == bytes
    } else {
        &&& storage.dom().contains(slot)
        &&& storage[slot].take(32) == bytes.take(32)
        &&& holds(storage, (slot + 1) % word_count(), bytes.skip(32))
    }
}

proof fn lemma_long_data(storage: Map<nat, Seq<u8>>, slot: nat, bytes: Seq<u8>)
    requires
        holds(storage, slot, bytes),
    ensures
        long_data(storage, slot, bytes.len()) == bytes,
    decreases bytes.len(),
{
    if bytes.len() > 32 {
        lemma_byte_range_step(32);
        lemma_long_data(storage, (slot + 1) % word_count(), bytes.skip(32));
        assert(bytes.take(32) + bytes.skip(32) =~= bytes);
    } else if bytes.len() == 0 {
        assert(bytes =~= Seq::empty());
    }
}

/// Longer data stands from the digest of its variable's slot on and is read from there.
pub proof fn law_long_data_is_read(storage: Map<nat, Seq<u8>>, slot: nat, bytes: Seq<u8>)
    requires
        2 * bytes.len() + 1 < byte_range(8),
        storage.dom().contains(slot),
        be_value(storage[slot]) == 2 * bytes.len() + 1,
        holds(storage, data_slot(slot), bytes),
    ensures
        byte_data(storage, slot) == Some(bytes),
        forall|ty: Type|
            ty is String || ty is Bytes ==> #[trigger] resolved(
                storage,
                ty,
                Pos { slot, index: 0 },
            ) == decoded_value(ty, bytes),
{
    let n = 2 * bytes.len() + 1;
    vstd::arithmetic::div_mod::lemma_small_mod(n, byte_range(8));
    assert(n % 2 == 1);
    lemma_long_data(storage, data_slot(slot), bytes);
}

} // verus!
