//! How deep the structs of a type can be nested.

use vstd::prelude::*;

use crate::ast::{Node, TypeNode, TypeNodeType};
use crate::extraction::{declared_type, definition_at, member_types, named_type, struct_type};

verus! {

proof fn lemma_type_deeper(typ: TypeNode, structs: Seq<Node>, depth: nat)
    requires
        declared_type(typ, structs, depth) is Some,
    ensures
        declared_type(typ, structs, depth + 1) == declared_type(typ, structs, depth),
    decreases depth, 0nat, typ, 0nat,
{
    match typ.node_type {
        TypeNodeType::UserDefinedTypeName => {
            let at = definition_at(
                structs,
                typ.referenced_declaration->Some_0,
                structs.len(),
            )->Some_0;
            lemma_struct_deeper(structs, at, (depth - 1) as nat);
        },
        TypeNodeType::Mapping => {
            lemma_type_deeper(*typ.key_type->Some_0, structs, depth);
            lemma_type_deeper(*typ.value_type->Some_0, structs, depth);
        },
        TypeNodeType::ArrayTypeName => {
            lemma_type_deeper(*typ.base_type->Some_0, structs, depth);
        },
        _ => {},
    }
}

proof fn lemma_struct_deeper(structs: Seq<Node>, at: nat, depth: nat)
    requires
        struct_type(structs, at, depth) is Some,
    ensures
        struct_type(structs, at, depth + 1) == struct_type(structs, at, depth),
    decreases depth, 3nat, structs, 0nat,
{
    let members = structs[at as int].members->Some_0@;
    lemma_members_deeper(members, members.len(), structs, depth);
}

proof fn lemma_members_deeper(members: Seq<Node>, n: nat, structs: Seq<Node>, depth: nat)
    requires
        member_types(members, n, structs, depth) is Some,
    ensures
        member_types(members, n, structs, depth + 1) == member_types(members, n, structs, depth),
    decreases depth, 2nat, members, n,
{
    if n > 0 && n <= members.len() {
        lemma_members_deeper(members, (n - 1) as nat, structs, depth);
        assert(named_type(members[n - 1], structs, depth) is Some);
        lemma_type_deeper(members[n - 1].declared_type->Some_0, structs, depth);
        assert(named_type(members[n - 1], structs, depth + 1) == named_type(
            members[n - 1],
            structs,
            depth,
        ));
    }
}

/// The type of the struct at `at` comes out at the depth `k` and not before.
spec fn comes_out_at(structs: Seq<Node>, at: nat, k: nat) -> bool {
    &&& at < structs.len()
    &&& struct_type(structs, at, k) is Some
    &&& k > 0 ==> struct_type(structs, at, (k - 1) as nat) is None
}

proof fn lemma_definition_stands(structs: Seq<Node>, id: usize, n: nat)
    requires
        n <= structs.len(),
        definition_at(structs, id, n) is Some,
    ensures
        definition_at(structs, id, n)->Some_0 < structs.len(),
    decreases n,
{
    if n > 0 && structs[n - 1].id != Some(id) {
        lemma_definition_stands(structs, id, (n - 1) as nat);
    }
}

proof fn lemma_type_needs(typ: TypeNode, structs: Seq<Node>, depth: nat) -> (at: nat)
    requires
        declared_type(typ, structs, depth + 1) is Some,
        declared_type(typ, structs, depth) is None,
    ensures
        comes_out_at(structs, at, depth),
    decreases typ,
{
    match typ.node_type {
        TypeNodeType::UserDefinedTypeName => {
            let id = typ.referenced_declaration->Some_0;
            lemma_definition_stands(structs, id, structs.len());
            definition_at(structs, id, structs.len())->Some_0
        },
        TypeNodeType::Mapping => {
            if declared_type(*typ.key_type->Some_0, structs, depth) is None {
                lemma_type_needs(*typ.key_type->Some_0, structs, depth)
            } else {
                lemma_type_needs(*typ.value_type->Some_0, structs, depth)
            }
        },
        TypeNodeType::ArrayTypeName => lemma_type_needs(*typ.base_type->Some_0, structs, depth),
        _ => 0,
    }
}

proof fn lemma_members_need(members: Seq<Node>, n: nat, structs: Seq<Node>, depth: nat) -> (at: nat)
    requires
        member_types(members, n, structs, depth + 1) is Some,
        member_types(members, n, structs, depth) is None,
    ensures
        comes_out_at(structs, at, depth),
    decreases n,
{
    if member_types(members, (n - 1) as nat, structs, depth) is None {
        lemma_members_need(members, (n - 1) as nat, structs, depth)
    } else {
        assert(named_type(members[n - 1], structs, depth + 1) is Some);
        assert(named_type(members[n - 1], structs, depth) is None);
        lemma_type_needs(members[n - 1].declared_type->Some_0, structs, depth)
    }
}

/// Below each depth at which a struct comes out there is one for each smaller depth.
proof fn lemma_all_depths(structs: Seq<Node>, at: nat, top: nat, k: nat) -> (r: nat)
    requires
        comes_out_at(structs, at, top),
        k <= top,
    ensures
        comes_out_at(structs, r, k),
    decreases top - k,
{
    if k == top {
        at
    } else {
        let above = lemma_all_depths(structs, at, top, k + 1);
        let members = structs[above as int].members->Some_0@;
        lemma_members_need(members, members.len(), structs, k)
    }
}

proof fn lemma_struct_stays(structs: Seq<Node>, at: nat, low: nat, high: nat)
    requires
        struct_type(structs, at, low) is Some,
        low <= high,
    ensures
        struct_type(structs, at, high) is Some,
    decreases high - low,
{
    if low < high {
        lemma_struct_deeper(structs, at, low);
        lemma_struct_stays(structs, at, low + 1, high);
    }
}

spec fn place_at(structs: Seq<Node>, k: nat) -> nat {
    choose|at: nat| comes_out_at(structs, at, k)
}

proof fn lemma_depths_are_few(structs: Seq<Node>, at: nat, top: nat)
    requires
        comes_out_at(structs, at, top),
    ensures
        top < structs.len(),
{
    let places = Seq::new(top + 1, |k: int| place_at(structs, k as nat));
    assert forall|k: int| 0 <= k < places.len() implies comes_out_at(
        structs,
        #[trigger] places[k],
        k as nat,
    ) by {
        let witness = lemma_all_depths(structs, at, top, k as nat);
        assert(comes_out_at(structs, witness, k as nat));
    }
    assert forall|i: int, j: int| 0 <= i < j < places.len() implies #[trigger] places[i]
        != #[trigger] places[j] by {
        if places[i] == places[j] {
            lemma_struct_stays(structs, places[i], i as nat, (j - 1) as nat);
        }
    }
    assert(places.no_duplicates());
    let numbers = Seq::new(top + 1, |k: int| places[k] as int);
    assert(numbers.no_duplicates());
    numbers.unique_seq_to_set();
    let all = vstd::set_lib::set_int_range(0, structs.len() as int);
    vstd::set_lib::lemma_int_range(0, structs.len() as int);
    assert forall|p: int| numbers.to_set().contains(p) implies all.contains(p) by {
        let k = choose|k: int| 0 <= k < numbers.len() && numbers[k] == p;
        assert(comes_out_at(structs, places[k], k as nat));
    }
    vstd::set_lib::lemma_len_subset(numbers.to_set(), all);
}

/// Structs are nested no deeper than there are structs: a type that does not come out at that
/// depth does not come out at any.
pub proof fn law_nesting_is_bounded(typ: TypeNode, structs: Seq<Node>, depth: nat)
    requires
        depth >= structs.len(),
    ensures
        declared_type(typ, structs, depth) == declared_type(typ, structs, structs.len()),
    decreases depth,
{
    if depth > structs.len() {
        let less = (depth - 1) as nat;
        law_nesting_is_bounded(typ, structs, less);
        if declared_type(typ, structs, less) is Some {
            lemma_type_deeper(typ, structs, less);
        } else if declared_type(typ, structs, depth) is Some {
            let at = lemma_type_needs(typ, structs, less);
            lemma_depths_are_few(structs, at, less);
        }
    }
}

} // verus!
