//! What holds of the contracts that are generated.

use vstd::prelude::*;

use crate::drawn_types::argument_name;
use crate::extraction::elementary_type;
use crate::generated_contracts::{memory_setup, stack_setup, storage_setup, on_stack};
use crate::generator::{encoded, encoded_fields};
use crate::text::{begins_with, decimal, law_numbers_read_back};
use crate::types::{type_model, Type};

verus! {

/// Whether a type has a name of its own, with its size written out.
pub open spec fn has_a_name(ty: Type) -> bool {
    match ty {
        Type::Address | Type::Bool | Type::String | Type::Bytes => true,
        Type::FixedBytes(size) => 1 <= size <= 32,
        Type::Int(size) | Type::Uint(size) => size is Some,
        _ => false,
    }
}

proof fn lemma_decimal_not_empty(n: nat)
    ensures
        decimal(n).len() > 0,
    decreases n,
{
}

/// A type that is written by its name is read back as the same type.
pub proof fn law_type_names_read_back(ty: Type, structs: Seq<Seq<char>>)
    requires
        has_a_name(ty),
    ensures
        elementary_type(encoded(ty, structs).0) == Some(ty@),
{
    reveal_strlit("bytes");
    reveal_strlit("int");
    reveal_strlit("uint");
    reveal_strlit("address");
    reveal_strlit("bool");
    reveal_strlit("string");
    let name = encoded(ty, structs).0;
    assert(ty@ == type_model(ty));
    match ty {
        Type::FixedBytes(size) => {
            law_numbers_read_back(size);
            lemma_decimal_not_empty(size as nat);
            assert(name.subrange(0, 5) =~= "bytes"@);
            assert(name.subrange(5, name.len() as int) =~= decimal(size as nat));
        },
        Type::Int(Some(bits)) => {
            law_numbers_read_back(bits);
            lemma_decimal_not_empty(bits as nat);
            assert(name[0] == 'i');
            assert(!begins_with(name, "bytes"@)) by {
                if begins_with(name, "bytes"@) {
                    assert(name.subrange(0, 5)[0] == 'b');
                }
            }
            assert(name.subrange(0, 3) =~= "int"@);
            assert(name.subrange(3, name.len() as int) =~= decimal(bits as nat));
        },
        Type::Uint(Some(bits)) => {
            law_numbers_read_back(bits);
            lemma_decimal_not_empty(bits as nat);
            assert(name[0] == 'u');
            assert(!begins_with(name, "bytes"@)) by {
                if begins_with(name, "bytes"@) {
                    assert(name.subrange(0, 5)[0] == 'b');
                }
            }
            assert(!begins_with(name, "int"@)) by {
                if begins_with(name, "int"@) {
                    assert(name.subrange(0, 3)[0] == 'i');
                }
            }
            assert(name.subrange(0, 4) =~= "uint"@);
            assert(name.subrange(4, name.len() as int) =~= decimal(bits as nat));
        },
        _ => {
            assert(!begins_with(name, "bytes"@) || name.len() == 5) by {
                if begins_with(name, "bytes"@) && name.len() > 5 {
                    assert(name.subrange(0, 5)[0] == 'b');
                    assert(name.subrange(0, 5)[1] == 'y');
                }
            }
            assert(!begins_with(name, "int"@)) by {
                if begins_with(name, "int"@) {
                    assert(name.subrange(0, 3)[0] == 'i');
                }
            }
            assert(!begins_with(name, "uint"@)) by {
                if begins_with(name, "uint"@) {
                    assert(name.subrange(0, 4)[0] == 'u');
                }
            }
            if ty is Bytes {
                assert("bytes"@[1] != "address"@[1]);
                assert("bytes"@[1] != "bool"@[1]);
            } else if ty is Bool {
                assert("bool"@[0] != "address"@[0]);
            } else if ty is String {
                assert("string"@[0] != "address"@[0]);
                assert("string"@[0] != "bool"@[0]);
                assert("string"@[0] != "bytes"@[0]);
            }
        },
    }
}

/// Writing a type only adds struct definitions: those that were there stay where they are.
pub proof fn law_struct_definitions_stay(ty: Type, structs: Seq<Seq<char>>)
    ensures
        structs.len() <= encoded(ty, structs).1.len(),
        encoded(ty, structs).1.take(structs.len() as int) == structs,
    decreases ty, 0nat,
{
    match ty {
        Type::Tuple(tuple) => {
            lemma_fields_stay(tuple.types@, tuple.types@.len(), structs);
            let more = encoded_fields(tuple.types@, tuple.types@.len(), structs).1;
            assert(encoded(ty, structs).1.take(structs.len() as int) =~= more.take(
                structs.len() as int,
            ));
        },
        Type::Array(arr) => {
            law_struct_definitions_stay(*arr.ty, structs);
        },
        Type::Mapping(mapping) => {
            law_struct_definitions_stay(*mapping.key, structs);
            let with_key = encoded(*mapping.key, structs).1;
            law_struct_definitions_stay(*mapping.value, with_key);
            let with_value = encoded(*mapping.value, with_key).1;
            assert(with_value.take(structs.len() as int) =~= with_value.take(
                with_key.len() as int,
            ).take(structs.len() as int));
        },
        _ => {
            assert(structs.take(structs.len() as int) =~= structs);
        },
    }
}

proof fn lemma_fields_stay(types: Seq<(String, Type)>, n: nat, structs: Seq<Seq<char>>)
    ensures
        structs.len() <= encoded_fields(types, n, structs).1.len(),
        encoded_fields(types, n, structs).1.take(structs.len() as int) == structs,
    decreases types, n,
{
    if n == 0 || n > types.len() {
        assert(structs.take(structs.len() as int) =~= structs);
    } else {
        lemma_fields_stay(types, (n - 1) as nat, structs);
        let so_far = encoded_fields(types, (n - 1) as nat, structs).1;
        law_struct_definitions_stay(types[n - 1].1, so_far);
        let more = encoded(types[n - 1].1, so_far).1;
        assert(more.take(structs.len() as int) =~= more.take(so_far.len() as int).take(
            structs.len() as int,
        ));
    }
}

/// Every variable of a generated contract has a value: each one in storage and in memory, and on
/// the stack each one that can stand there.
pub proof fn law_every_variable_has_a_value(
    types: Seq<(String, Type)>,
    declarations: Seq<char>,
    data: Seq<u8>,
    i: nat,
)
    requires
        i < types.len(),
    ensures
        storage_setup(types, types.len(), data).1.dom().contains(argument_name(i)),
        memory_setup(declarations, types, types.len(), data).1.dom().contains(argument_name(i)),
        on_stack(types[i as int].1) ==> stack_setup(types, types.len(), data).2.dom().contains(
            argument_name(i),
        ),
{
    lemma_values(types, declarations, data, i, types.len());
}

proof fn lemma_values(
    types: Seq<(String, Type)>,
    declarations: Seq<char>,
    data: Seq<u8>,
    i: nat,
    n: nat,
)
    requires
        i < n <= types.len(),
    ensures
        storage_setup(types, n, data).1.dom().contains(argument_name(i)),
        memory_setup(declarations, types, n, data).1.dom().contains(argument_name(i)),
        on_stack(types[i as int].1) ==> stack_setup(types, n, data).2.dom().contains(
            argument_name(i),
        ),
    decreases n,
{
    if i < n - 1 {
        lemma_values(types, declarations, data, i, (n - 1) as nat);
    }
}

} // verus!
