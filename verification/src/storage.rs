//! The storage layout of Solidity types, and reading values out of a contract's storage.

use vstd::prelude::*;

use crate::json::{json_models, lemma_array_model, Json, JsonObject, JsonValue};
use crate::primitives::{
    be_value, byte_range, keccak256_of, keccak_word, lemma_be_value_zeros, lemma_byte_range_bound,
    lemma_byte_range_step, same_word, word_count, word_low, word_plus, Word,
};
use crate::types::{decoded, is_value_type, type_bytes, type_is_dynamic, Type, TypeArray, TypeTuple};

verus! {

/// The number of bytes in a storage slot.
pub const SLOT_SIZE: u32 = 32;

/// A place in storage: a slot and a byte index in it, counted from the low end.
pub struct Pos {
    pub slot: nat,
    pub index: nat,
}

/// A place in storage: a slot and a byte index in it, counted from the low end.
#[derive(Clone, Copy, Debug)]
pub struct StoragePosition {
    pub slot: Word,
    pub index_in_slot: u32,
}

impl View for StoragePosition {
    type V = Pos;

    open spec fn view(&self) -> Pos {
        Pos { slot: be_value(self.slot@), index: self.index_in_slot as nat }
    }
}

/// The start of the slot `n` further on; slot numbers wrap around.
pub open spec fn slots_on(p: Pos, n: nat) -> Pos {
    Pos { slot: (p.slot + n) % word_count(), index: 0 }
}

impl Default for StoragePosition {
    /// The start of slot zero.
    fn default() -> (r: StoragePosition)
        ensures
            r@ == (Pos { slot: 0, index: 0 }),
    {
        let r = StoragePosition { slot: [0u8; 32], index_in_slot: 0 };
        proof {
            lemma_be_value_zeros(32);
            assert(r.slot@ =~= Seq::new(32, |i: int| 0u8));
        }
        r
    }
}

impl StoragePosition {
    /// Moves to the start of slot `indx`.
    pub fn set_slot(&mut self, indx: u32)
        ensures
            final(self)@ == (Pos { slot: indx as nat, index: 0 }),
    {
        self.slot = [0u8; 32];
        proof {
            lemma_be_value_zeros(32);
            assert(self.slot@ =~= Seq::new(32, |i: int| 0u8));
            lemma_word_count_large();
            lemma_small_word(indx as nat);
        }
        self.slot = word_plus(&self.slot, indx);
        self.index_in_slot = 0;
    }

    /// Moves to the start of the slot `num` further on.
    pub fn advance_slot_num(&mut self, num: u32)
        ensures
            final(self)@ == slots_on(old(self)@, num as nat),
    {
        self.slot = word_plus(&self.slot, num);
        self.index_in_slot = 0;
    }

    /// Moves to the start of the next slot.
    pub fn advance_slot(&mut self)
        ensures
            final(self)@ == slots_on(old(self)@, 1),
    {
        self.slot = word_plus(&self.slot, 1);
        self.index_in_slot = 0;
    }

    /// Moves `num_bytes` further on in the slot.
    pub fn move_index(&mut self, num_bytes: u32)
        requires
            old(self).index_in_slot + num_bytes <= u32::MAX,
        ensures
            final(self)@ == (Pos { slot: old(self)@.slot, index: old(self)@.index + num_bytes as nat }),
            final(self).slot == old(self).slot,
    {
        self.index_in_slot = self.index_in_slot + num_bytes;
    }

    /// The low 32 bits of the slot number.
    pub fn slot_as_u32(&self) -> (r: u32)
        ensures
            r as nat == self@.slot % 0x1_0000_0000,
    {
        low_u32(&self.slot)
    }
}

/// The low 32 bits of a word.
fn low_u32(word: &Word) -> (r: u32)
    ensures
        r as nat == be_value(word@) % 0x1_0000_0000,
{
    let low: u64 = word_low(word);
    proof {
        lemma_low_bits(be_value(word@));
        assert((low as u32) as nat == low as nat % 0x1_0000_0000) by {
            assert((low as u32) == low % 0x1_0000_0000u64) by (bit_vector);
        }
    }
    #[verifier::truncate]
    (low as u32)
}

/// How many numbers eight bytes can spell.
pub proof fn lemma_eight_bytes()
    ensures
        byte_range(8) == 0x1_0000_0000_0000_0000,
{
    lemma_byte_range_step(0);
    lemma_byte_range_step(1);
    lemma_byte_range_step(2);
    lemma_byte_range_step(3);
    lemma_byte_range_step(4);
    lemma_byte_range_step(5);
    lemma_byte_range_step(6);
    lemma_byte_range_step(7);
}

proof fn lemma_low_bits(n: nat)
    ensures
        (n % byte_range(8)) % 0x1_0000_0000 == n % 0x1_0000_0000,
        (n % byte_range(8)) % 2 == n % 2,
{
    lemma_eight_bytes();
    assert((n % 0x1_0000_0000_0000_0000) % 0x1_0000_0000 == n % 0x1_0000_0000) by (nonlinear_arith);
    assert((n % 0x1_0000_0000_0000_0000) % 2 == n % 2) by (nonlinear_arith);
}

proof fn lemma_word_count_large()
    ensures
        word_count() > 0x1_0000_0000_0000_0000_0000_0000_0000_0000,
{
    lemma_byte_range_bound(16);
    lemma_byte_range_step(0);
    lemma_byte_range_step(1);
    lemma_byte_range_step(2);
    lemma_byte_range_step(3);
    lemma_byte_range_step(4);
    lemma_byte_range_step(5);
    lemma_byte_range_step(6);
    lemma_byte_range_step(7);
    lemma_byte_range_step(8);
    lemma_byte_range_step(9);
    lemma_byte_range_step(10);
    lemma_byte_range_step(11);
    lemma_byte_range_step(12);
    lemma_byte_range_step(13);
    lemma_byte_range_step(14);
    lemma_byte_range_step(15);
    lemma_byte_range_step(16);
    lemma_byte_range_grows(17, 32);
}

proof fn lemma_small_word(n: nat)
    requires
        n < word_count(),
    ensures
        n % word_count() == n,
{
    vstd::arithmetic::div_mod::lemma_small_mod(n, word_count());
}

proof fn lemma_byte_range_grows(a: nat, b: nat)
    requires
        a <= b,
    ensures
        byte_range(a) <= byte_range(b),
    decreases b,
{
    if a < b {
        lemma_byte_range_step((b - 1) as nat);
        lemma_byte_range_grows(a, (b - 1) as nat);
    }
}

// ---------------------------------------------------------------------------------------
// Layout
// ---------------------------------------------------------------------------------------

/// How many slots a variable of the type takes. There is no answer for mappings, for arrays
/// of zero-sized elements and for what does not fit 32 bits.
pub open spec fn slots_of(ty: Type) -> Option<nat>
    decreases ty, 0nat,
{
    match ty {
        Type::Array(TypeArray { ty: elem, size }) => match size {
            None => Some(1),
            Some(size) => {
                let b = type_bytes(*elem);
                if b < 32 {
                    if b == 0 {
                        None
                    } else {
                        let per_slot = 32nat / b;
                        Some(((size as nat + per_slot - 1) / per_slot as int) as nat)
                    }
                } else {
                    match slots_of(*elem) {
                        Some(n) => if size as nat * n <= u32::MAX {
                            Some(size as nat * n)
                        } else {
                            None
                        },
                        None => None,
                    }
                }
            },
        },
        Type::Tuple(TypeTuple { types }) => match layout(types@) {
            Some((_, end)) => Some(end.slot % 0x1_0000_0000),
            None => None,
        },
        Type::Mapping(_) => None,
        _ => Some(1),
    }
}

/// Where each of the variables starts, and the first free slot after them.
pub open spec fn layout(vars: Seq<(String, Type)>) -> Option<(Seq<Pos>, Pos)>
    decreases vars, vars.len() + 1,
{
    match layout_from(vars, 0, Pos { slot: 0, index: 0 }, Seq::empty()) {
        Some((offsets, end)) => Some((offsets, rounded(end))),
        None => None,
    }
}

/// The place itself at the start of a slot, and the start of the next slot elsewhere.
pub open spec fn rounded(p: Pos) -> Pos {
    if p.index > 0 {
        Pos { slot: p.slot + 1, index: 0 }
    } else {
        p
    }
}

/// Where a variable of `b` bytes starts, when the variables before it end at `p`.
pub open spec fn placed(p: Pos, b: nat) -> Pos {
    if b > 32 - p.index {
        Pos { slot: p.slot + 1, index: 0 }
    } else {
        p
    }
}

/// Where a variable that starts at `q` and takes `b` bytes or `k` slots ends.
pub open spec fn ended(q: Pos, b: nat, k: nat) -> Pos {
    if k == 1 && q.index + b <= 32 {
        Pos { slot: q.slot, index: q.index + b }
    } else {
        Pos { slot: q.slot + k, index: 0 }
    }
}

/// Lays out the variables from the `i`-th on, when those before it stand at `offsets` and
/// end at `p`.
pub open spec fn layout_from(vars: Seq<(String, Type)>, i: nat, p: Pos, offsets: Seq<Pos>) -> Option<
    (Seq<Pos>, Pos),
>
    decreases vars, vars.len() - i,
{
    if i >= vars.len() {
        Some((offsets, p))
    } else {
        let b = type_bytes(vars[i as int].1);
        let q = placed(p, b);
        match slots_of(vars[i as int].1) {
            Some(k) => layout_from(vars, i + 1, ended(q, b, k), offsets.push(q)),
            None => None,
        }
    }
}

proof fn lemma_slots_fit(ty: Type)
    ensures
        slots_of(ty) matches Some(n) ==> n <= u32::MAX,
{
    match ty {
        Type::Array(TypeArray { ty: elem, size: Some(size) }) => {
            let b = type_bytes(*elem);
            if 0 < b < 32 {
                let per_slot = (32nat / b) as int;
                assert(1 <= per_slot <= 32) by (nonlinear_arith)
                    requires
                        0 < b < 32,
                        per_slot == (32nat / b) as int,
                ;
                assert((size as int + per_slot - 1) / per_slot <= size as int + per_slot - 1)
                    by (nonlinear_arith)
                    requires
                        per_slot >= 1,
                        size as int >= 0,
                ;
            }
        },
        _ => {},
    }
}

/// What the positions stand at.
pub open spec fn positions(offsets: Seq<(String, StoragePosition)>) -> Seq<Pos> {
    offsets.map_values(|o: (String, StoragePosition)| o.1@)
}

/// Whether `offsets` names the variables in order.
pub open spec fn names_match(offsets: Seq<(String, StoragePosition)>, vars: Seq<(String, Type)>, n: int) -> bool {
    offsets.len() == n && forall|i: int| 0 <= i < n ==> #[trigger] offsets[i].0@ == vars[i].0@
}

impl Type {
    /// How many slots a variable of this type takes, where there is an answer.
    pub fn checked_num_storage_slots(&self) -> (r: Option<u32>)
        ensures
            r is Some <==> slots_of(*self) is Some,
            r matches Some(n) ==> slots_of(*self) == Some(n as nat),
        decreases self, 0nat,
    {
        match self {
            Type::Bytes
            | Type::String
            | Type::Bool
            | Type::Address
            | Type::FixedBytes(_)
            | Type::Int(_)
            | Type::Uint(_) => Some(1),
            Type::Array(TypeArray { ty, size }) => match size {
                None => Some(1),
                Some(size) => {
                    let size: u32 = *size as u32;
                    let underlying_bytes: u32 = ty.get_bytes();
                    if underlying_bytes < 32 {
                        if underlying_bytes == 0 {
                            None
                        } else {
                            let items_per_slot: u32 = 32 / underlying_bytes;
                            assert(1 <= items_per_slot <= 32) by (nonlinear_arith)
                                requires
                                    0 < underlying_bytes < 32,
                                    items_per_slot == 32u32 / underlying_bytes,
                            ;
                            Some((size + items_per_slot - 1) / items_per_slot)
                        }
                    } else {
                        match ty.checked_num_storage_slots() {
                            Some(n) => size.checked_mul(n),
                            None => None,
                        }
                    }
                },
            },
            Type::Tuple(TypeTuple { types }) => {
                match StateReference::checked_offsets(types) {
                    Some((_, last)) => Some(last.slot_as_u32()),
                    None => None,
                }
            },
            Type::Mapping(_) => None,
        }
    }

    /// How many slots a variable of this type takes.
    pub fn num_storage_slots(&self) -> (r: u32)
        requires
            slots_of(*self) is Some,
        ensures
            slots_of(*self) == Some(r as nat),
    {
        match self.checked_num_storage_slots() {
            Some(n) => n,
            None => 0,
        }
    }
}

/// A contract's storage, with the memory and the stack of a step beside it.
pub struct StateReference {
    storage: Vec<(Word, Word)>,
    memory: Vec<u8>,
    stack: Vec<Vec<u8>>,
}

/// What the slots hold; of two pairs for one slot the later counts.
pub open spec fn storage_model(pairs: Seq<(Word, Word)>) -> Map<nat, Seq<u8>>
    decreases pairs.len(),
{
    if pairs.len() == 0 {
        Map::empty()
    } else {
        storage_model(pairs.drop_last()).insert(be_value(pairs.last().0@), pairs.last().1@)
    }
}

impl StateReference {
    /// What the slots hold.
    pub closed spec fn slots(&self) -> Map<nat, Seq<u8>> {
        storage_model(self.storage@)
    }

    /// The storage that holds these words at these slots; of two pairs for one slot the later
    /// counts.
    pub fn new(storage: Vec<(Word, Word)>) -> (r: StateReference)
        ensures
            r.slots() == storage_model(storage@),
    {
        StateReference { storage, memory: Vec::new(), stack: Vec::new() }
    }

    /// Where each of the variables starts, and the first free slot after them, where each of
    /// the types has a size.
    pub fn checked_offsets(vars: &Vec<(String, Type)>) -> (r: Option<
        (Vec<(String, StoragePosition)>, StoragePosition),
    >)
        ensures
            match r {
                Some((offsets, last)) => {
                    &&& layout(vars@) == Some((positions(offsets@), last@))
                    &&& names_match(offsets@, vars@, vars@.len() as int)
                },
                None => layout(vars@) is None,
            },
        decreases vars, 1nat,
    {
        let mut position: StoragePosition = StoragePosition::default();
        let mut offsets: Vec<(String, StoragePosition)> = Vec::new();
        let ghost goal = layout_from(vars@, 0, Pos { slot: 0, index: 0 }, Seq::empty());
        assert(positions(offsets@) =~= Seq::empty());
        let mut i: usize = 0;
        while i < vars.len()
            invariant
                decreases_to!(vars => vars@),
                i <= vars@.len(),
                position@.index <= 32,
                position@.slot <= i * 0x1_0000_0000,
                names_match(offsets@, vars@, i as int),
                goal == layout_from(vars@, 0, Pos { slot: 0, index: 0 }, Seq::empty()),
                goal == layout_from(vars@, i as nat, position@, positions(offsets@)),
            decreases vars@.len() - i,
        {
            proof {
                lemma_word_count_large();
                lemma_slots_fit(vars@[i as int].1);
            }
            let ghost p = position@;
            let num_bytes: u32 = vars[i].1.get_bytes();
            let bytes_left: u32 = SLOT_SIZE - position.index_in_slot;
            if num_bytes > bytes_left {
                position.advance_slot();
                proof {
                    lemma_small_word(p.slot + 1);
                }
            }
            let ghost q = position@;
            assert(q == placed(p, num_bytes as nat));
            let ghost before = offsets@;
            offsets.push((vars[i].0.clone(), position));
            assert(positions(offsets@) =~= positions(before).push(q));
            let num_slots: u32 = match vars[i].1.checked_num_storage_slots() {
                Some(n) => n,
                None => {
                    return None;
                },
            };
            if num_slots == 1 && position.index_in_slot + num_bytes <= SLOT_SIZE {
                position.move_index(num_bytes);
            } else {
                position.advance_slot_num(num_slots);
                proof {
                    lemma_small_word(q.slot + num_slots as nat);
                }
            }
            assert(position@ == ended(q, num_bytes as nat, num_slots as nat));
            i = i + 1;
        }
        proof {
            lemma_word_count_large();
        }
        let ghost end = position@;
        if position.index_in_slot > 0 {
            position.advance_slot();
            proof {
                lemma_small_word(end.slot + 1);
            }
        }
        Some((offsets, position))
    }

    /// Where each of the variables starts, and the first free slot after them.
    pub fn compute_offsets(vars: &Vec<(String, Type)>) -> (r: (
        Vec<(String, StoragePosition)>,
        StoragePosition,
    ))
        requires
            layout(vars@) is Some,
        ensures
            layout(vars@) == Some((positions(r.0@), r.1@)),
            names_match(r.0@, vars@, vars@.len() as int),
    {
        match Self::checked_offsets(vars) {
            Some(r) => r,
            None => (Vec::new(), StoragePosition::default()),
        }
    }
}

// ---------------------------------------------------------------------------------------
// Reading values
// ---------------------------------------------------------------------------------------

/// The `k` bytes that spell `n`, most significant first.
pub open spec fn be_bytes(n: nat, k: nat) -> Seq<u8>
    decreases k,
{
    if k == 0 {
        Seq::empty()
    } else {
        be_bytes(n / 256, (k - 1) as nat).push((n % 256) as u8)
    }
}

/// Spelling out the number that some bytes spell gives these bytes.
pub proof fn lemma_be_bytes(bytes: Seq<u8>)
    ensures
        be_bytes(be_value(bytes), bytes.len()) == bytes,
    decreases bytes.len(),
{
    if bytes.len() > 0 {
        lemma_be_bytes(bytes.drop_last());
        assert(bytes =~= bytes.drop_last().push(bytes.last()));
    } else {
        assert(bytes =~= Seq::empty());
    }
}

/// The slot that the data of a dynamic value starts at whose head stands at `slot`: the
/// digest of the head's number.
pub open spec fn data_slot(slot: nat) -> nat {
    be_value(keccak256_of(be_bytes(slot, 32)))
}

/// `n` zero bytes.
pub open spec fn zeros(n: nat) -> Seq<u8> {
    Seq::new(n, |i: int| 0u8)
}

/// What a slot holds; slots that were never written hold zeros.
pub open spec fn slot_content(storage: Map<nat, Seq<u8>>, slot: nat) -> Seq<u8> {
    if storage.dom().contains(slot) {
        storage[slot]
    } else {
        zeros(32)
    }
}

/// The `n` bytes of data that start at `slot`. What stands behind a slot that was never
/// written is zero.
pub open spec fn long_data(storage: Map<nat, Seq<u8>>, slot: nat, n: nat) -> Seq<u8>
    decreases n,
{
    if n == 0 {
        Seq::empty()
    } else if !storage.dom().contains(slot) {
        zeros(n)
    } else if n <= 32 {
        storage[slot].take(n as int)
    } else {
        storage[slot].take(32) + long_data(storage, (slot + 1) % word_count(), (n - 32) as nat)
    }
}

/// The bytes of the `bytes` or `string` variable whose head stands at `slot`. A head with its
/// lowest bit set holds twice the length plus one, and the data stands elsewhere; another
/// holds the data itself and in its last byte twice the length.
pub open spec fn byte_data(storage: Map<nat, Seq<u8>>, slot: nat) -> Option<Seq<u8>> {
    let head = storage[slot];
    if be_value(head) % 2 == 1 {
        let low = be_value(head) % byte_range(8);
        Some(long_data(storage, data_slot(slot), ((low - 1) / 2) as nat))
    } else if head[31] / 2 > 32 {
        None
    } else {
        Some(head.take(head[31] as int / 2))
    }
}

/// The value that the bytes stand for, if they stand for one.
pub open spec fn decoded_value(ty: Type, bytes: Seq<u8>) -> Option<Json> {
    match decoded(ty, bytes) {
        Ok(v) => Some(v),
        Err(_) => None,
    }
}

/// The place behind an element at `p` of an array of fixed size.
pub open spec fn fixed_step(elem: Type, k: nat, p: Pos) -> Option<Pos> {
    let b = type_bytes(elem);
    if type_is_dynamic(elem) || k > 1 {
        Some(slots_on(p, k))
    } else if p.index + b + b > u32::MAX {
        None
    } else if p.index + b + b > 32 {
        Some(slots_on(p, 1))
    } else {
        Some(Pos { slot: p.slot, index: p.index + b })
    }
}

/// The place behind an element at `p` of an array of dynamic size.
pub open spec fn dynamic_step(elem: Type, k: nat, p: Pos) -> Pos {
    let b = type_bytes(elem);
    if k == 1 && p.index + b <= 32 {
        if p.index + b + b > 32 {
            slots_on(p, 1)
        } else {
            Pos { slot: p.slot, index: p.index + b }
        }
    } else {
        slots_on(p, k)
    }
}

/// Where a member of a struct stands whose own place is `base`.
pub open spec fn member_pos(base: Pos, member: Pos) -> Pos {
    Pos { slot: slots_on(base, member.slot % 0x1_0000_0000).slot, index: member.index }
}

/// The value of type `ty` that stands at `p`. There is none where the type has no layout or
/// no decoding, where the place leaves it no room, or where the storage does not hold what
/// the type needs.
pub open spec fn resolved(storage: Map<nat, Seq<u8>>, ty: Type, p: Pos) -> Option<Json>
    decreases ty, 0nat,
{
    match ty {
        Type::Address | Type::Bool | Type::FixedBytes(_) | Type::Uint(_) | Type::Int(_) => {
            let b = type_bytes(ty);
            if p.index + b > 32 {
                None
            } else {
                decoded_value(
                    ty,
                    slot_content(storage, p.slot).subrange(32 - p.index - b, 32 - p.index),
                )
            }
        },
        Type::String | Type::Bytes => {
            if !storage.dom().contains(p.slot) {
                if ty is Bytes {
                    Some(Json::String("0x"@))
                } else {
                    Some(Json::String(""@))
                }
            } else {
                match byte_data(storage, p.slot) {
                    Some(bytes) => decoded_value(ty, bytes),
                    None => None,
                }
            }
        },
        Type::Array(TypeArray { ty: elem, size }) => {
            let items = match size {
                Some(size) => resolved_fixed(storage, *elem, p, size as nat, Seq::empty()),
                None => match slots_of(*elem) {
                    Some(k) if storage.dom().contains(p.slot) => resolved_dynamic(
                        storage,
                        *elem,
                        k,
                        Pos { slot: data_slot(p.slot), index: 0 },
                        be_value(storage[p.slot]) % 0x1_0000_0000,
                        Seq::empty(),
                    ),
                    _ => None,
                },
            };
            match items {
                Some(items) => Some(Json::Array(items)),
                None => None,
            }
        },
        Type::Tuple(TypeTuple { types }) => match layout(types@) {
            Some((offsets, _)) => match resolved_members(
                storage,
                types@,
                offsets,
                p,
                0,
                Map::empty(),
            ) {
                Some(members) => Some(Json::Object(members)),
                None => None,
            },
            None => None,
        },
        Type::Mapping(_) => Some(Json::Null),
    }
}

/// `done` and the `n` elements from `p` on of an array of fixed size.
pub open spec fn resolved_fixed(
    storage: Map<nat, Seq<u8>>,
    elem: Type,
    p: Pos,
    n: nat,
    done: Seq<Json>,
) -> Option<Seq<Json>>
    decreases elem, n,
{
    if n == 0 {
        Some(done)
    } else {
        match (resolved(storage, elem, p), slots_of(elem)) {
            (Some(v), Some(k)) => match fixed_step(elem, k, p) {
                Some(next) => resolved_fixed(storage, elem, next, (n - 1) as nat, done.push(v)),
                None => None,
            },
            _ => None,
        }
    }
}

/// `done` and the `n` elements from `p` on of an array of dynamic size.
pub open spec fn resolved_dynamic(
    storage: Map<nat, Seq<u8>>,
    elem: Type,
    k: nat,
    p: Pos,
    n: nat,
    done: Seq<Json>,
) -> Option<Seq<Json>>
    decreases elem, n,
{
    if n == 0 {
        Some(done)
    } else {
        match resolved(storage, elem, p) {
            Some(v) => resolved_dynamic(
                storage,
                elem,
                k,
                dynamic_step(elem, k, p),
                (n - 1) as nat,
                done.push(v),
            ),
            None => None,
        }
    }
}

/// `done` and the members from the `i`-th on of a struct at `base` whose members stand at
/// `offsets`.
pub open spec fn resolved_members(
    storage: Map<nat, Seq<u8>>,
    members: Seq<(String, Type)>,
    offsets: Seq<Pos>,
    base: Pos,
    i: nat,
    done: Map<Seq<char>, Json>,
) -> Option<Map<Seq<char>, Json>>
    decreases members, members.len() - i,
{
    if i >= members.len() {
        Some(done)
    } else {
        match resolved(storage, members[i as int].1, member_pos(base, offsets[i as int])) {
            Some(v) => resolved_members(
                storage,
                members,
                offsets,
                base,
                i + 1,
                done.insert(members[i as int].0@, v),
            ),
            None => None,
        }
    }
}

/// `done` and the state variables from the `i`-th on, which stand at `offsets`.
pub open spec fn resolved_vars(
    storage: Map<nat, Seq<u8>>,
    vars: Seq<(String, Type)>,
    offsets: Seq<Pos>,
    i: nat,
    done: Map<Seq<char>, Json>,
) -> Option<Map<Seq<char>, Json>>
    decreases vars.len() - i,
{
    if i >= vars.len() {
        Some(done)
    } else {
        match resolved(storage, vars[i as int].1, offsets[i as int]) {
            Some(v) => resolved_vars(storage, vars, offsets, i + 1, done.insert(vars[i as int].0@, v)),
            None => None,
        }
    }
}

/// What an optional value says.
pub open spec fn optional_model(v: Option<JsonValue>) -> Option<Json> {
    match v {
        Some(v) => Some(v@),
        None => None,
    }
}

impl StateReference {
    /// The word at the slot `slot`.
    fn word_at(&self, slot: &Word) -> (r: Option<&Word>)
        ensures
            r is Some <==> self.slots().dom().contains(be_value(slot@)),
            r matches Some(w) ==> w@ == self.slots()[be_value(slot@)],
    {
        let mut i: usize = self.storage.len();
        assert(self.storage@.take(i as int) =~= self.storage@);
        while i > 0
            invariant
                i <= self.storage@.len(),
                self.slots().dom().contains(be_value(slot@)) <==> storage_model(
                    self.storage@.take(i as int),
                ).dom().contains(be_value(slot@)),
                self.slots().dom().contains(be_value(slot@)) ==> self.slots()[be_value(slot@)]
                    == storage_model(self.storage@.take(i as int))[be_value(slot@)],
            decreases i,
        {
            i = i - 1;
            proof {
                let longer = self.storage@.take(i + 1);
                assert(longer.drop_last() =~= self.storage@.take(i as int));
                assert(longer.last() == self.storage@[i as int]);
            }
            if same_word(&self.storage[i].0, slot) {
                return Some(&self.storage[i].1);
            }
        }
        None
    }

    /// The `length` bytes of data that start at `slot`.
    pub fn read_long(&self, slot: Word, length: u64) -> (r: Vec<u8>)
        ensures
            r@ == long_data(self.slots(), be_value(slot@), length as nat),
    {
        let mut data: Vec<u8> = Vec::new();
        let mut at: Word = slot;
        let mut remaining: u64 = length;
        let ghost storage = self.slots();
        assert(data@ + long_data(storage, be_value(at@), remaining as nat) =~= long_data(
            storage,
            be_value(slot@),
            length as nat,
        ));
        while remaining > 0
            invariant
                storage == self.slots(),
                data@ + long_data(storage, be_value(at@), remaining as nat) == long_data(
                    storage,
                    be_value(slot@),
                    length as nat,
                ),
            decreases remaining,
        {
            match self.word_at(&at) {
                Some(word) => {
                    let to_take: u64 = if remaining < 32 {
                        remaining
                    } else {
                        32
                    };
                    let ghost before = data@;
                    let ghost rest = long_data(
                        storage,
                        (be_value(at@) + 1) % word_count(),
                        (remaining - to_take) as nat,
                    );
                    let mut j: usize = 0;
                    while j < to_take as usize
                        invariant
                            j <= to_take <= 32,
                            data@ =~= before + word@.take(j as int),
                        decreases to_take - j,
                    {
                        data.push(word[j]);
                        j = j + 1;
                    }
                    proof {
                        assert(data@ + rest =~= before + (word@.take(to_take as int) + rest));
                        if remaining <= 32 {
                            lemma_word_count_large();
                            assert(rest =~= Seq::<u8>::empty());
                            assert(word@.take(to_take as int) + rest =~= word@.take(
                                to_take as int,
                            ));
                        }
                    }
                    remaining = remaining - to_take;
                },
                None => {
                    let ghost before = data@;
                    let ghost gap = remaining as nat;
                    while remaining > 0
                        invariant
                            remaining <= gap,
                            data@ =~= before + zeros((gap - remaining) as nat),
                        decreases remaining,
                    {
                        data.push(0);
                        remaining = remaining - 1;
                    }
                    assert(data@ =~= long_data(storage, be_value(slot@), length as nat));
                    return data;
                },
            }
            at = word_plus(&at, 1);
        }
        assert(data@ =~= long_data(storage, be_value(slot@), length as nat));
        data
    }

    /// The bytes of the `bytes` or `string` variable whose head stands at `slot`.
    fn read_bytes(&self, slot: Word, head: &Word) -> (r: Option<Vec<u8>>)
        requires
            self.slots().dom().contains(be_value(slot@)),
            self.slots()[be_value(slot@)] == head@,
        ensures
            match r {
                Some(bytes) => byte_data(self.slots(), be_value(slot@)) == Some(bytes@),
                None => byte_data(self.slots(), be_value(slot@)) is None,
            },
    {
        let length: u64 = word_low(head);
        proof {
            lemma_low_bits(be_value(head@));
            lemma_be_bytes(slot@);
        }
        if length % 2 == 1 {
            Some(self.read_long(keccak_word(&slot), (length - 1) / 2))
        } else {
            let size: usize = (head[31] / 2) as usize;
            if size > 32 {
                return None;
            }
            let mut data: Vec<u8> = Vec::new();
            let mut j: usize = 0;
            while j < size
                invariant
                    j <= size <= 32,
                    data@ =~= head@.take(j as int),
                decreases size - j,
            {
                data.push(head[j]);
                j = j + 1;
            }
            Some(data)
        }
    }

    /// A value that stands on its own in one word.
    fn read_value(&self, ty: &Type, offset: StoragePosition) -> (r: Option<JsonValue>)
        requires
            is_value_type(*ty),
        ensures
            optional_model(r) == resolved(self.slots(), *ty, offset@),
    {
        let num_bytes: u32 = ty.get_bytes();
        if num_bytes > SLOT_SIZE || offset.index_in_slot > SLOT_SIZE - num_bytes {
            return None;
        }
        let empty: Word = [0u8; 32];
        assert(empty@ =~= zeros(32));
        let slot_bytes: &Word = match self.word_at(&offset.slot) {
            Some(word) => word,
            None => &empty,
        };
        let start: usize = (SLOT_SIZE - offset.index_in_slot - num_bytes) as usize;
        let end: usize = start + num_bytes as usize;
        let mut bytes: Vec<u8> = Vec::new();
        let mut j: usize = start;
        while j < end
            invariant
                start <= j <= end <= 32,
                bytes@ =~= slot_bytes@.subrange(start as int, j as int),
            decreases end - j,
        {
            bytes.push(slot_bytes[j]);
            j = j + 1;
        }
        match ty.decode_bytes(bytes.as_slice()) {
            Ok(v) => Some(v),
            Err(_) => None,
        }
    }

    /// The value of type `ty` that stands at `offset`, if one does.
    pub fn resolve_type(&self, ty: &Type, offset: StoragePosition) -> (r: Option<JsonValue>)
        ensures
            optional_model(r) == resolved(self.slots(), *ty, offset@),
        decreases ty, 0nat,
    {
        match ty {
            Type::Address | Type::Bool | Type::FixedBytes(_) | Type::Uint(_) | Type::Int(_) => {
                self.read_value(ty, offset)
            },
            Type::String | Type::Bytes => {
                let head: &Word = match self.word_at(&offset.slot) {
                    Some(head) => head,
                    None => {
                        return match ty {
                            Type::Bytes => Some(JsonValue::String("0x".to_string())),
                            _ => Some(JsonValue::String("".to_string())),
                        };
                    },
                };
                match self.read_bytes(offset.slot, head) {
                    Some(data) => match ty.decode_bytes(data.as_slice()) {
                        Ok(v) => Some(v),
                        Err(_) => None,
                    },
                    None => None,
                }
            },
            Type::Array(TypeArray { ty: elem, size }) => {
                let values: Option<Vec<JsonValue>> = match size {
                    Some(size) => self.resolve_fixed_array(elem, *size, offset),
                    None => self.resolve_dynamic_array(elem, offset),
                };
                match values {
                    Some(values) => {
                        proof {
                            lemma_array_model(values);
                        }
                        Some(JsonValue::Array(values))
                    },
                    None => None,
                }
            },
            Type::Tuple(TypeTuple { types }) => {
                match self.resolve_struct(types, offset) {
                    Some(members) => Some(JsonValue::Object(members)),
                    None => None,
                }
            },
            Type::Mapping(_) => Some(JsonValue::Null),
        }
    }

    /// The elements of an array of fixed size that starts at `offset`.
    fn resolve_fixed_array(&self, elem: &Type, size: u16, offset: StoragePosition) -> (r: Option<
        Vec<JsonValue>,
    >)
        ensures
            match r {
                Some(values) => resolved_fixed(
                    self.slots(),
                    *elem,
                    offset@,
                    size as nat,
                    Seq::empty(),
                ) == Some(json_models(values@)),
                None => resolved_fixed(self.slots(), *elem, offset@, size as nat, Seq::empty()) is None,
            },
        decreases elem, 1nat,
    {
        let mut values: Vec<JsonValue> = Vec::new();
        let mut position: StoragePosition = offset;
        let mut left: u16 = size;
        let ghost goal = resolved_fixed(self.slots(), *elem, offset@, size as nat, Seq::empty());
        assert(json_models(values@) =~= Seq::<Json>::empty());
        while left > 0
            invariant
                goal == resolved_fixed(self.slots(), *elem, offset@, size as nat, Seq::empty()),
                goal == resolved_fixed(
                    self.slots(),
                    *elem,
                    position@,
                    left as nat,
                    json_models(values@),
                ),
            decreases left,
        {
            let value: JsonValue = match self.resolve_type(elem, position) {
                Some(value) => value,
                None => {
                    return None;
                },
            };
            let num_slots: u32 = match elem.checked_num_storage_slots() {
                Some(n) => n,
                None => {
                    return None;
                },
            };
            let num_bytes: u32 = elem.get_bytes();
            if elem.is_dynamic() || num_slots > 1 {
                position.advance_slot_num(num_slots);
            } else {
                if position.index_in_slot > u32::MAX - num_bytes - num_bytes {
                    return None;
                }
                position.move_index(num_bytes);
                if position.index_in_slot + num_bytes > SLOT_SIZE {
                    position.advance_slot();
                }
            }
            let ghost before = values@;
            values.push(value);
            assert(json_models(values@) =~= json_models(before).push(value@));
            left = left - 1;
        }
        Some(values)
    }

    /// The elements of an array of dynamic size whose length stands at `offset`.
    fn resolve_dynamic_array(&self, elem: &Type, offset: StoragePosition) -> (r: Option<
        Vec<JsonValue>,
    >)
        ensures
            match r {
                Some(values) => {
                    &&& slots_of(*elem) is Some
                    &&& self.slots().dom().contains(offset@.slot)
                    &&& resolved_dynamic(
                        self.slots(),
                        *elem,
                        slots_of(*elem)->0,
                        Pos { slot: data_slot(offset@.slot), index: 0 },
                        be_value(self.slots()[offset@.slot]) % 0x1_0000_0000,
                        Seq::empty(),
                    ) == Some(json_models(values@))
                },
                None => slots_of(*elem) is None || !self.slots().dom().contains(offset@.slot)
                    || resolved_dynamic(
                    self.slots(),
                    *elem,
                    slots_of(*elem)->0,
                    Pos { slot: data_slot(offset@.slot), index: 0 },
                    be_value(self.slots()[offset@.slot]) % 0x1_0000_0000,
                    Seq::empty(),
                ) is None,
            },
        decreases elem, 2nat,
    {
        let length: u32 = match self.word_at(&offset.slot) {
            Some(word) => low_u32(word),
            None => {
                return None;
            },
        };
        proof {
            lemma_be_bytes(offset.slot@);
        }
        self.resolve_elements(elem, keccak_word(&offset.slot), length)
    }

    /// The `length` elements of an array of dynamic size whose data starts at `slot`.
    pub fn resolve_elements(&self, elem: &Type, slot: Word, length: u32) -> (r: Option<
        Vec<JsonValue>,
    >)
        ensures
            match r {
                Some(values) => {
                    &&& slots_of(*elem) is Some
                    &&& resolved_dynamic(
                        self.slots(),
                        *elem,
                        slots_of(*elem)->0,
                        Pos { slot: be_value(slot@), index: 0 },
                        length as nat,
                        Seq::empty(),
                    ) == Some(json_models(values@))
                },
                None => slots_of(*elem) is None || resolved_dynamic(
                    self.slots(),
                    *elem,
                    slots_of(*elem)->0,
                    Pos { slot: be_value(slot@), index: 0 },
                    length as nat,
                    Seq::empty(),
                ) is None,
            },
        decreases elem, 1nat,
    {
        let num_slots: u32 = match elem.checked_num_storage_slots() {
            Some(n) => n,
            None => {
                return None;
            },
        };
        let num_bytes: u32 = elem.get_bytes();
        let mut position: StoragePosition = StoragePosition { slot, index_in_slot: 0 };
        let mut values: Vec<JsonValue> = Vec::new();
        let mut left: u32 = length;
        let ghost goal = resolved_dynamic(
            self.slots(),
            *elem,
            num_slots as nat,
            position@,
            length as nat,
            Seq::empty(),
        );
        assert(json_models(values@) =~= Seq::<Json>::empty());
        while left > 0
            invariant
                num_bytes as nat == type_bytes(*elem),
                num_bytes <= 0xffff,
                position.index_in_slot <= 32,
                slots_of(*elem) == Some(num_slots as nat),
                goal == resolved_dynamic(
                    self.slots(),
                    *elem,
                    num_slots as nat,
                    Pos { slot: be_value(slot@), index: 0 },
                    length as nat,
                    Seq::empty(),
                ),
                goal == resolved_dynamic(
                    self.slots(),
                    *elem,
                    num_slots as nat,
                    position@,
                    left as nat,
                    json_models(values@),
                ),
            decreases left,
        {
            let value: JsonValue = match self.resolve_type(elem, position) {
                Some(value) => value,
                None => {
                    return None;
                },
            };
            if num_slots == 1 && position.index_in_slot + num_bytes <= SLOT_SIZE {
                position.move_index(num_bytes);
                if position.index_in_slot + num_bytes > SLOT_SIZE {
                    position.advance_slot();
                }
            } else {
                position.advance_slot_num(num_slots);
            }
            let ghost before = values@;
            values.push(value);
            assert(json_models(values@) =~= json_models(before).push(value@));
            left = left - 1;
        }
        Some(values)
    }

    /// The members of a struct that starts at `offset`.
    fn resolve_struct(&self, types: &Vec<(String, Type)>, offset: StoragePosition) -> (r: Option<
        JsonObject,
    >)
        ensures
            match r {
                Some(members) => {
                    &&& layout(types@) is Some
                    &&& resolved_members(
                        self.slots(),
                        types@,
                        (layout(types@)->0).0,
                        offset@,
                        0,
                        Map::empty(),
                    ) == Some(members@)
                },
                None => layout(types@) is None || resolved_members(
                    self.slots(),
                    types@,
                    (layout(types@)->0).0,
                    offset@,
                    0,
                    Map::empty(),
                ) is None,
            },
        decreases types, 1nat,
    {
        let offsets: Vec<(String, StoragePosition)> = match Self::checked_offsets(types) {
            Some((offsets, _)) => offsets,
            None => {
                return None;
            },
        };
        let mut members: JsonObject = JsonObject::new();
        let mut i: usize = 0;
        while i < types.len()
            invariant
                decreases_to!(types => types@),
                i <= types@.len(),
                offsets@.len() == types@.len(),
                layout(types@) is Some,
                (layout(types@)->0).0 == positions(offsets@),
                resolved_members(
                    self.slots(),
                    types@,
                    (layout(types@)->0).0,
                    offset@,
                    0,
                    Map::empty(),
                ) == resolved_members(
                    self.slots(),
                    types@,
                    positions(offsets@),
                    offset@,
                    i as nat,
                    members@,
                ),
            decreases types@.len() - i,
        {
            let local: StoragePosition = offsets[i].1;
            let mut position: StoragePosition = offset;
            position.advance_slot_num(local.slot_as_u32());
            position.move_index(local.index_in_slot);
            assert(position@ == member_pos(offset@, positions(offsets@)[i as int]));
            match self.resolve_type(&types[i].1, position) {
                Some(value) => {
                    members.insert(types[i].0.clone(), value);
                },
                None => {
                    return None;
                },
            }
            i = i + 1;
        }
        Some(members)
    }

    /// The values of the state variables, if the storage holds them all.
    pub fn resolve_vars(&self, vars: &Vec<(String, Type)>) -> (r: Option<JsonValue>)
        ensures
            optional_model(r) == match layout(vars@) {
                Some((offsets, _)) => match resolved_vars(
                    self.slots(),
                    vars@,
                    offsets,
                    0,
                    Map::empty(),
                ) {
                    Some(members) => Some(Json::Object(members)),
                    None => None,
                },
                None => None,
            },
    {
        let offsets: Vec<(String, StoragePosition)> = match Self::checked_offsets(vars) {
            Some((offsets, _)) => offsets,
            None => {
                return None;
            },
        };
        let mut members: JsonObject = JsonObject::new();
        let mut i: usize = 0;
        while i < vars.len()
            invariant
                i <= vars@.len(),
                offsets@.len() == vars@.len(),
                layout(vars@) is Some,
                (layout(vars@)->0).0 == positions(offsets@),
                resolved_vars(self.slots(), vars@, (layout(vars@)->0).0, 0, Map::empty())
                    == resolved_vars(
                    self.slots(),
                    vars@,
                    positions(offsets@),
                    i as nat,
                    members@,
                ),
            decreases vars@.len() - i,
        {
            assert(positions(offsets@)[i as int] == offsets@[i as int].1@);
            match self.resolve_type(&vars[i].1, offsets[i].1) {
                Some(value) => {
                    members.insert(vars[i].0.clone(), value);
                },
                None => {
                    return None;
                },
            }
            i = i + 1;
        }
        Some(JsonValue::Object(members))
    }
}

} // verus!
