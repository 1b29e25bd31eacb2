//! What holds of generated values and of the code that sets them.

use vstd::prelude::*;

use crate::drawn_types::{argument_name, field_name};
use crate::generated_contracts::{
    generated_in_memory, memory_elements, memory_fields, memory_setup, on_stack, stack_setup,
    storage_setup,
};
use crate::generator::{
    drawn_bytes, drawn_letters, drawn_value, element_name, encoded, generated, generated_elements,
    generated_fields, generated_pairs, generated_pushes, key_text, literal, member_name,
};
use crate::json::Json;
use crate::primitives::checksum_address;
use crate::text::{
    begins_with, decimal, hex_digits, law_numerals_name_their_numbers, signed_decimal,
};
use crate::types::{Type, TypeMapping};
use crate::unstructured::{after, bytes_drawn, drawn, lemma_drawn};

verus! {

/// Whether a text writes as many bytes in hexadecimal.
pub open spec fn writes_bytes(text: Seq<char>, n: nat) -> bool {
    exists|bytes: Seq<u8>| bytes.len() == n && text == "0x"@ + #[trigger] hex_digits(bytes)
}

/// Whether a text is an address.
pub open spec fn writes_address(text: Seq<char>) -> bool {
    exists|bytes: Seq<u8>| bytes.len() == 20 && text == #[trigger] checksum_address(bytes)
}

/// Whether a text is a numeral for a number from `lo` to `hi`.
pub open spec fn writes_number(text: Seq<char>, lo: int, hi: int) -> bool {
    exists|n: int| lo <= n <= hi && text == #[trigger] signed_decimal(n)
}

/// Whether a text has lower-case letters only, and no more than this many.
pub open spec fn writes_letters(text: Seq<char>, n: nat) -> bool {
    text.len() <= n && forall|i: int| 0 <= i < text.len() ==> 'a' <= #[trigger] text[i] <= 'z'
}

/// Whether a value is one of the simple type. Numbers and texts are small.
pub open spec fn is_one_of(ty: Type, value: Json) -> bool {
    match ty {
        Type::Bool => value is Bool,
        Type::String => value is String && writes_letters(value->String_0, 60),
        Type::Bytes => value is String && exists|n: nat|
            n <= 60 && #[trigger] writes_bytes(value->String_0, n),
        Type::FixedBytes(size) => value is String && writes_bytes(value->String_0, size as nat),
        Type::Address => value is String && writes_address(value->String_0),
        Type::Int(size) => value is String && if size is Some && size->Some_0 < 40 {
            writes_number(value->String_0, -10, 10)
        } else {
            writes_number(value->String_0, -1000, 1000)
        },
        Type::Uint(size) => value is String && if size is Some && size->Some_0 < 40 {
            writes_number(value->String_0, 0, 10)
        } else {
            writes_number(value->String_0, 0, 1000)
        },
        _ => false,
    }
}

/// Whether a value is one of the type. Dynamic arrays have two elements.
pub open spec fn fits(ty: Type, value: Json) -> bool
    decreases ty, 0nat, 0nat,
{
    match ty {
        Type::Array(arr) => value matches Json::Array(values) && values.len() == (
        match arr.size {
            Some(size) => size as nat,
            None => 2,
        }) && forall|i: int| 0 <= i < values.len() ==> fits(*arr.ty, #[trigger] values[i]),
        Type::Tuple(tuple) => value matches Json::Object(members) && fields_fit(
            tuple.types@,
            tuple.types@.len(),
            members,
        ),
        Type::Mapping(mapping) => value matches Json::Object(members) && forall|key: Seq<char>| #[trigger]
            members.dom().contains(key) ==> fits(*mapping.value, members[key]),
        _ => is_one_of(ty, value),
    }
}

/// Whether the members are those of the first `n` types, each under the name of its field.
pub open spec fn fields_fit(types: Seq<(String, Type)>, n: nat, members: Map<Seq<char>, Json>) -> bool
    decreases types, 1nat, n,
{
    &&& forall|key: Seq<char>| #[trigger]
        members.dom().contains(key) ==> exists|i: nat| i < n && key == #[trigger] field_name(i)
    &&& forall|i: nat|
        i < n && i < types.len() ==> members.dom().contains(#[trigger] field_name(i)) && fits(
            types[i as int].1,
            members[field_name(i)],
        )
}

proof fn lemma_letters(data: Seq<u8>, n: nat)
    ensures
        drawn_letters(data, n).0.len() == n,
        writes_letters(drawn_letters(data, n).0, n),
    decreases n,
{
    if n > 0 {
        lemma_letters(data, (n - 1) as nat);
        let rest = after(data, drawn_letters(data, (n - 1) as nat).1);
        lemma_drawn(rest, 97, 122);
        let k = drawn(rest, 97, 122) - 97;
        reveal_strlit("abcdefghijklmnopqrstuvwxyz");
        assert('a' <= "abcdefghijklmnopqrstuvwxyz"@[k] <= 'z');
    }
}

proof fn lemma_bytes(data: Seq<u8>, n: nat)
    ensures
        drawn_bytes(data, n).0.len() == n,
    decreases n,
{
    if n > 0 {
        lemma_bytes(data, (n - 1) as nat);
    }
}

proof fn lemma_number(data: Seq<u8>, lo: int, hi: int)
    requires
        lo <= hi,
    ensures
        writes_number(signed_decimal(drawn(data, lo, hi)), lo, hi),
        lo >= 0 ==> signed_decimal(drawn(data, lo, hi)) == decimal(drawn(data, lo, hi) as nat),
{
    lemma_drawn(data, lo, hi);
    assert(signed_decimal(drawn(data, lo, hi)).len() >= 0);
}

/// A drawn value is one of its type.
pub proof fn law_drawn_values_fit_their_type(ty: Type, data: Seq<u8>)
    requires
        !(ty is Array) && !(ty is Tuple) && !(ty is Mapping),
    ensures
        is_one_of(ty, drawn_value(ty, data).0),
{
    let value = drawn_value(ty, data).0;
    match ty {
        Type::String => {
            let used = bytes_drawn(data, 60);
            let n = drawn(data, 0, 60) as nat;
            lemma_drawn(data, 0, 60);
            lemma_letters(after(data, used), n);
            assert(value == Json::String(drawn_letters(after(data, used), n).0));
        },
        Type::Bytes => {
            let used = bytes_drawn(data, 60);
            let n = drawn(data, 0, 60) as nat;
            lemma_drawn(data, 0, 60);
            lemma_written(after(data, used), n);
            assert(value == Json::String(
                "0x"@ + hex_digits(drawn_bytes(after(data, used), n).0),
            ));
            assert(writes_bytes(value->String_0, n) && n <= 60);
        },
        Type::FixedBytes(size) => {
            lemma_written(data, size as nat);
            assert(value == Json::String("0x"@ + hex_digits(drawn_bytes(data, size as nat).0)));
        },
        Type::Address => {
            lemma_bytes(data, 20);
            assert(writes_address(checksum_address(drawn_bytes(data, 20).0)));
        },
        Type::Int(size) => {
            lemma_number(data, -10, 10);
            lemma_number(data, -1000, 1000);
        },
        Type::Uint(size) => {
            lemma_number(data, 0, 10);
            lemma_number(data, 0, 1000);
        },
        _ => {},
    }
}

proof fn lemma_written(data: Seq<u8>, n: nat)
    ensures
        writes_bytes("0x"@ + hex_digits(drawn_bytes(data, n).0), n),
{
    lemma_bytes(data, n);
}

/// Field names are different for different numbers.
proof fn lemma_field_names_differ(i: nat, j: nat)
    requires
        i != j,
    ensures
        field_name(i) != field_name(j),
{
    reveal_strlit("field_");
    law_numerals_name_their_numbers(i);
    law_numerals_name_their_numbers(j);
    let (a, b) = (field_name(i), field_name(j));
    assert(a.subrange(6, a.len() as int) =~= decimal(i));
    assert(b.subrange(6, b.len() as int) =~= decimal(j));
}

proof fn lemma_insert_field(
    types: Seq<(String, Type)>,
    n: nat,
    members: Map<Seq<char>, Json>,
    value: Json,
)
    requires
        0 < n <= types.len(),
        fields_fit(types, (n - 1) as nat, members),
        fits(types[n - 1].1, value),
    ensures
        fields_fit(types, n, members.insert(field_name((n - 1) as nat), value)),
{
    let after = members.insert(field_name((n - 1) as nat), value);
    assert forall|key: Seq<char>| #[trigger] after.dom().contains(key) implies exists|i: nat|
        i < n && key == #[trigger] field_name(i) by {
        if key != field_name((n - 1) as nat) {
            assert(members.dom().contains(key));
            let i = choose|i: nat| i < n - 1 && key == #[trigger] field_name(i);
            assert(key == field_name(i));
        }
    }
    assert forall|i: nat| i < n && i < types.len() implies after.dom().contains(
        #[trigger] field_name(i),
    ) && fits(types[i as int].1, after[field_name(i)]) by {
        if i != n - 1 {
            lemma_field_names_differ(i, (n - 1) as nat);
            assert(members.dom().contains(field_name(i)));
        }
    }
}

/// What a generated variable in storage holds is a value of its type.
pub proof fn law_generated_values_fit_their_type(name: Seq<char>, ty: Type, data: Seq<u8>)
    ensures
        fits(ty, generated(name, ty, data).1),
    decreases ty, 0nat, 0nat,
{
    match ty {
        Type::Array(arr) => {
            match arr.size {
                Some(size) => lemma_elements_fit(name, *arr.ty, size as nat, data),
                None => lemma_pushes_fit(name, *arr.ty, 2, data),
            }
        },
        Type::Tuple(tuple) => lemma_fields_fit(name, tuple.types@, tuple.types@.len(), data),
        Type::Mapping(mapping) => lemma_pairs_fit(name, mapping, 2, data),
        _ => law_drawn_values_fit_their_type(ty, data),
    }
}

proof fn lemma_elements_fit(name: Seq<char>, ty: Type, n: nat, data: Seq<u8>)
    ensures
        generated_elements(name, ty, n, data).1.len() == n,
        forall|i: int|
            0 <= i < n ==> fits(ty, #[trigger] generated_elements(name, ty, n, data).1[i]),
    decreases ty, 1nat, n,
{
    if n > 0 {
        let m = (n - 1) as nat;
        lemma_elements_fit(name, ty, m, data);
        let used = generated_elements(name, ty, m, data).2;
        law_generated_values_fit_their_type(element_name(name, m), ty, after(data, used));
        let value = generated(element_name(name, m), ty, after(data, used)).1;
        assert(generated_elements(name, ty, n, data).1 == generated_elements(
            name,
            ty,
            m,
            data,
        ).1.push(value));
    }
}

proof fn lemma_pushes_fit(name: Seq<char>, ty: Type, n: nat, data: Seq<u8>)
    ensures
        generated_pushes(name, ty, n, data).1.len() == n,
        forall|i: int|
            0 <= i < n ==> fits(ty, #[trigger] generated_pushes(name, ty, n, data).1[i]),
    decreases ty, 1nat, n,
{
    if n > 0 {
        let m = (n - 1) as nat;
        lemma_pushes_fit(name, ty, m, data);
        let used = generated_pushes(name, ty, m, data).2;
        let last = name + "["@ + name + ".length - 1]"@;
        law_generated_values_fit_their_type(last, ty, after(data, used));
        let value = generated(last, ty, after(data, used)).1;
        assert(generated_pushes(name, ty, n, data).1 == generated_pushes(
            name,
            ty,
            m,
            data,
        ).1.push(value));
    }
}

proof fn lemma_fields_fit(name: Seq<char>, types: Seq<(String, Type)>, n: nat, data: Seq<u8>)
    requires
        n <= types.len(),
    ensures
        fields_fit(types, n, generated_fields(name, types, n, data).1),
    decreases types, 0nat, n,
{
    if n > 0 {
        let m = (n - 1) as nat;
        lemma_fields_fit(name, types, m, data);
        let (before, values, used) = generated_fields(name, types, m, data);
        law_generated_values_fit_their_type(
            member_name(name, m),
            types[m as int].1,
            after(data, used),
        );
        let value = generated(member_name(name, m), types[m as int].1, after(data, used)).1;
        assert(generated_fields(name, types, n, data).1 == values.insert(field_name(m), value));
        lemma_insert_field(types, n, values, value);
    }
}

proof fn lemma_pairs_fit(name: Seq<char>, mapping: TypeMapping, n: nat, data: Seq<u8>)
    ensures
        forall|key: Seq<char>| #[trigger]
            generated_pairs(name, mapping, n, data).1.dom().contains(key) ==> fits(
                *mapping.value,
                generated_pairs(name, mapping, n, data).1[key],
            ),
        n > 0 ==> !generated_pairs(name, mapping, n, data).1.dom().is_empty(),
    decreases mapping, 1nat, n,
{
    if n > 0 {
        let m = (n - 1) as nat;
        lemma_pairs_fit(name, mapping, m, data);
        let (before, values, used) = generated_pairs(name, mapping, m, data);
        let (key, key_used) = drawn_value(*mapping.key, after(data, used));
        let place = name + "["@ + literal(key, *mapping.key) + "]"@;
        law_generated_values_fit_their_type(
            place,
            *mapping.value,
            after(data, used + key_used),
        );
        let value = generated(place, *mapping.value, after(data, used + key_used)).1;
        let text = key_text(key);
        assert(generated_pairs(name, mapping, n, data).1 == values.insert(text, value));
        assert(generated_pairs(name, mapping, n, data).1.dom().contains(text));
    }
}

/// What a generated variable in memory holds is a value of its type. There are no mappings in memory.
pub proof fn law_values_in_memory_fit_their_type(name: Seq<char>, ty: Type, data: Seq<u8>)
    requires
        without_mappings(ty),
    ensures
        fits(ty, generated_in_memory(name, ty, data).1),
    decreases ty, 0nat, 0nat,
{
    match ty {
        Type::Array(arr) => {
            let n = match arr.size {
                Some(size) => size as nat,
                None => 2,
            };
            lemma_memory_elements_fit(name, *arr.ty, n, data);
        },
        Type::Tuple(tuple) => lemma_memory_fields_fit(
            name,
            tuple.types@,
            tuple.types@.len(),
            data,
        ),
        _ => law_drawn_values_fit_their_type(ty, data),
    }
}

/// Whether a type has no mapping in it.
pub open spec fn without_mappings(ty: Type) -> bool
    decreases ty,
{
    match ty {
        Type::Mapping(_) => false,
        Type::Array(arr) => without_mappings(*arr.ty),
        Type::Tuple(tuple) => forall|i: int|
            0 <= i < tuple.types@.len() ==> without_mappings((#[trigger] tuple.types@[i]).1),
        _ => true,
    }
}

proof fn lemma_memory_elements_fit(name: Seq<char>, ty: Type, n: nat, data: Seq<u8>)
    requires
        without_mappings(ty),
    ensures
        memory_elements(name, ty, n, data).1.len() == n,
        forall|i: int| 0 <= i < n ==> fits(ty, #[trigger] memory_elements(name, ty, n, data).1[i]),
    decreases ty, 1nat, n,
{
    if n > 0 {
        let m = (n - 1) as nat;
        lemma_memory_elements_fit(name, ty, m, data);
        let used = memory_elements(name, ty, m, data).2;
        law_values_in_memory_fit_their_type(element_name(name, m), ty, after(data, used));
        let value = generated_in_memory(element_name(name, m), ty, after(data, used)).1;
        assert(memory_elements(name, ty, n, data).1 == memory_elements(name, ty, m, data).1.push(
            value,
        ));
    }
}

proof fn lemma_memory_fields_fit(name: Seq<char>, types: Seq<(String, Type)>, n: nat, data: Seq<u8>)
    requires
        n <= types.len(),
        forall|i: int| 0 <= i < types.len() ==> without_mappings((#[trigger] types[i]).1),
    ensures
        fields_fit(types, n, memory_fields(name, types, n, data).1),
    decreases types, 0nat, n,
{
    if n > 0 {
        let m = (n - 1) as nat;
        lemma_memory_fields_fit(name, types, m, data);
        let (before, values, used) = memory_fields(name, types, m, data);
        law_values_in_memory_fit_their_type(
            member_name(name, m),
            types[m as int].1,
            after(data, used),
        );
        let value = generated_in_memory(member_name(name, m), types[m as int].1, after(data, used)).1;
        assert(memory_fields(name, types, n, data).1 == values.insert(field_name(m), value));
        lemma_insert_field(types, n, values, value);
    }
}

/// A variable of a simple type is set by one assignment of the value that it then holds, in storage
/// as in memory.
pub proof fn law_simple_values_are_assigned(name: Seq<char>, ty: Type, data: Seq<u8>)
    requires
        !(ty is Array) && !(ty is Tuple) && !(ty is Mapping),
    ensures
        generated(name, ty, data).0 == name + " = "@ + literal(generated(name, ty, data).1, ty) + ";"@,
        generated_in_memory(name, ty, data) == generated(name, ty, data),
{
}

/// A truth value is written as its word, a number as its numeral, bytes as their digits in quotation
/// marks, and every other text in quotation marks.
pub proof fn law_values_are_written_for_their_type(ty: Type, data: Seq<u8>)
    ensures
        ({
            let value = drawn_value(ty, data).0;
            &&& ty is Bool ==> literal(value, ty) == if value->Bool_0 {
                "true"@
            } else {
                "false"@
            }
            &&& ty is Uint || ty is Int ==> literal(value, ty) == value->String_0
            &&& ty is String ==> literal(value, ty) == "\""@ + value->String_0 + "\""@
            &&& ty is Bytes || ty is FixedBytes ==> exists|bytes: Seq<u8>|
                value->String_0 == "0x"@ + #[trigger] hex_digits(bytes) && literal(value, ty)
                    == "hex\""@ + hex_digits(bytes) + "\""@
        }),
{
    reveal_strlit("0x");
    let value = drawn_value(ty, data).0;
    if !(ty is Array) && !(ty is Tuple) && !(ty is Mapping) {
        law_drawn_values_fit_their_type(ty, data);
    }
    match ty {
        Type::String => {
            let text = value->String_0;
            if begins_with(text, "0x"@) {
                assert(text.subrange(0, 2)[0] == '0');
                assert('a' <= text[0]);
            }
        },
        Type::Bytes => {
            let text = value->String_0;
            let n = choose|n: nat| n <= 60 && #[trigger] writes_bytes(text, n);
            lemma_hex_literal(value, ty, n);
        },
        Type::FixedBytes(size) => lemma_hex_literal(value, ty, size as nat),
        Type::Int(size) => {
            lemma_not_hex(drawn(data, -10, 10));
            lemma_not_hex(drawn(data, -1000, 1000));
        },
        Type::Uint(size) => {
            lemma_drawn(data, 0, 10);
            lemma_drawn(data, 0, 1000);
            lemma_not_hex(drawn(data, 0, 10));
            lemma_not_hex(drawn(data, 0, 1000));
        },
        _ => {},
    }
}

proof fn lemma_not_hex(n: int)
    ensures
        !begins_with(signed_decimal(n), "0x"@),
{
    reveal_strlit("0x");
    reveal_strlit("-");
    let text = signed_decimal(n);
    law_numerals_name_their_numbers(
        if n < 0 {
            (-n) as nat
        } else {
            n as nat
        },
    );
    if begins_with(text, "0x"@) {
        assert(text.subrange(0, 2)[0] == '0' && text.subrange(0, 2)[1] == 'x');
        assert(text[0] == '0' && text[1] == 'x');
    }
}

proof fn lemma_hex_literal(value: Json, ty: Type, n: nat)
    requires
        !(ty is Address),
        value is String,
        writes_bytes(value->String_0, n),
    ensures
        exists|bytes: Seq<u8>|
            value->String_0 == "0x"@ + #[trigger] hex_digits(bytes) && literal(value, ty) == "hex\""@
                + hex_digits(bytes) + "\""@,
{
    reveal_strlit("0x");
    let text = value->String_0;
    let bytes = choose|bytes: Seq<u8>|
        bytes.len() == n && text == "0x"@ + #[trigger] hex_digits(bytes);
    assert(text.subrange(0, 2) =~= "0x"@);
    assert(text.subrange(2, text.len() as int) =~= hex_digits(bytes));
}

proof fn lemma_flat_push(parts: Seq<Seq<char>>, part: Seq<char>)
    ensures
        parts.push(part).flatten() == parts.flatten() + part,
{
    parts.lemma_flatten_push(part);
}

/// The code for the element with number `i` of an array in storage, and the value that it sets.
pub open spec fn element_set(name: Seq<char>, ty: Type, data: Seq<u8>, i: int) -> (
    Seq<char>,
    Json,
    nat,
) {
    generated(
        name + "["@ + decimal(i as nat) + "]"@,
        ty,
        after(data, generated_elements(name, ty, i as nat, data).2),
    )
}

/// The elements of an array of fixed size are set one after the other, each by a line of its own and
/// each to its own value.
pub proof fn law_elements_are_set_one_by_one(name: Seq<char>, ty: Type, n: nat, data: Seq<u8>)
    ensures
        generated_elements(name, ty, n, data).0 == Seq::new(
            n,
            |i: int| element_set(name, ty, data, i).0 + "\n"@,
        ).flatten(),
        generated_elements(name, ty, n, data).1 == Seq::new(
            n,
            |i: int| element_set(name, ty, data, i).1,
        ),
    decreases n,
{
    let f = |i: int| element_set(name, ty, data, i).0 + "\n"@;
    let g = |i: int| element_set(name, ty, data, i).1;
    if n > 0 {
        let m = (n - 1) as nat;
        law_elements_are_set_one_by_one(name, ty, m, data);
        lemma_flat_push(Seq::new(m, f), f(m as int));
        assert(Seq::new(n, f) =~= Seq::new(m, f).push(f(m as int)));
        let (before, values, used) = generated_elements(name, ty, m, data);
        let (setup, value, more) = generated(element_name(name, m), ty, after(data, used));
        assert(before + (setup + "\n"@) =~= before + setup + "\n"@);
        assert(generated_elements(name, ty, n, data) == (
            before + setup + "\n"@,
            values.push(value),
            used + more,
        ));
        assert(values.push(value) =~= Seq::new(n, g));
    } else {
        assert(Seq::new(0, f) =~= Seq::empty());
        assert(Seq::new(0, g) =~= Seq::<Json>::empty());
    }
}

/// The code for the element with number `i` that is pushed, and the value that it sets: it is the last
/// one right then.
pub open spec fn pushed_set(name: Seq<char>, ty: Type, data: Seq<u8>, i: int) -> (
    Seq<char>,
    Json,
    nat,
) {
    generated(
        name + "["@ + name + ".length - 1]"@,
        ty,
        after(data, generated_pushes(name, ty, i as nat, data).2),
    )
}

/// The elements of a dynamic array are pushed one after the other, and each is set right then to its
/// own value.
pub proof fn law_elements_are_pushed_one_by_one(name: Seq<char>, ty: Type, n: nat, data: Seq<u8>)
    ensures
        generated_pushes(name, ty, n, data).0 == Seq::new(
            n,
            |i: int| name + ".push();\n"@ + pushed_set(name, ty, data, i).0 + "\n"@,
        ).flatten(),
        generated_pushes(name, ty, n, data).1 == Seq::new(
            n,
            |i: int| pushed_set(name, ty, data, i).1,
        ),
    decreases n,
{
    let f = |i: int| name + ".push();\n"@ + pushed_set(name, ty, data, i).0 + "\n"@;
    let g = |i: int| pushed_set(name, ty, data, i).1;
    if n > 0 {
        let m = (n - 1) as nat;
        law_elements_are_pushed_one_by_one(name, ty, m, data);
        lemma_flat_push(Seq::new(m, f), f(m as int));
        assert(Seq::new(n, f) =~= Seq::new(m, f).push(f(m as int)));
        let (before, values, used) = generated_pushes(name, ty, m, data);
        let (setup, value, more) = generated(
            name + "["@ + name + ".length - 1]"@,
            ty,
            after(data, used),
        );
        assert(before + (name + ".push();\n"@ + setup + "\n"@) =~= before + name + ".push();\n"@ + setup
            + "\n"@);
        assert(generated_pushes(name, ty, n, data) == (
            before + name + ".push();\n"@ + setup + "\n"@,
            values.push(value),
            used + more,
        ));
        assert(values.push(value) =~= Seq::new(n, g));
    } else {
        assert(Seq::new(0, f) =~= Seq::empty());
        assert(Seq::new(0, g) =~= Seq::<Json>::empty());
    }
}

/// The code for the field with number `i` of a struct in storage, and the value that it sets.
pub open spec fn field_set(
    name: Seq<char>,
    types: Seq<(String, Type)>,
    data: Seq<u8>,
    i: int,
) -> (Seq<char>, Json, nat) {
    generated(
        name + "."@ + "field_"@ + decimal(i as nat),
        types[i].1,
        after(data, generated_fields(name, types, i as nat, data).2),
    )
}

/// The fields of a struct are set one after the other, each by a line of its own, and each holds its
/// own value then.
pub proof fn law_fields_are_set_one_by_one(
    name: Seq<char>,
    types: Seq<(String, Type)>,
    n: nat,
    data: Seq<u8>,
)
    requires
        n <= types.len(),
    ensures
        generated_fields(name, types, n, data).0 == Seq::new(
            n,
            |i: int| field_set(name, types, data, i).0 + "\n"@,
        ).flatten(),
        forall|i: nat|
            i < n ==> generated_fields(name, types, n, data).1.dom().contains(
                #[trigger] field_name(i),
            ) && generated_fields(name, types, n, data).1[field_name(i)] == field_set(
                name,
                types,
                data,
                i as int,
            ).1,
{
    lemma_fields_code(name, types, n, data);
    lemma_fields_hold(name, types, n, data);
}

proof fn lemma_fields_step(name: Seq<char>, types: Seq<(String, Type)>, n: nat, data: Seq<u8>)
    requires
        0 < n <= types.len(),
    ensures
        ({
            let m = (n - 1) as nat;
            let (before, values, used) = generated_fields(name, types, m, data);
            let (setup, value, more) = field_set(name, types, data, m as int);
            generated_fields(name, types, n, data) == (
                before + setup + "\n"@,
                values.insert(field_name(m), value),
                used + more,
            )
        }),
{
    let m = (n - 1) as nat;
    assert(name + "."@ + "field_"@ + decimal(m) =~= member_name(name, m));
}

proof fn lemma_fields_code(name: Seq<char>, types: Seq<(String, Type)>, n: nat, data: Seq<u8>)
    requires
        n <= types.len(),
    ensures
        generated_fields(name, types, n, data).0 == Seq::new(
            n,
            |i: int| field_set(name, types, data, i).0 + "\n"@,
        ).flatten(),
    decreases n,
{
    let f = |i: int| field_set(name, types, data, i).0 + "\n"@;
    if n > 0 {
        let m = (n - 1) as nat;
        lemma_fields_code(name, types, m, data);
        lemma_fields_step(name, types, n, data);
        lemma_flat_push(Seq::new(m, f), f(m as int));
        assert(Seq::new(n, f) =~= Seq::new(m, f).push(f(m as int)));
        let before = generated_fields(name, types, m, data).0;
        let setup = field_set(name, types, data, m as int).0;
        assert(before + (setup + "\n"@) =~= before + setup + "\n"@);
    } else {
        assert(Seq::new(0, f) =~= Seq::empty());
    }
}

proof fn lemma_fields_hold(name: Seq<char>, types: Seq<(String, Type)>, n: nat, data: Seq<u8>)
    requires
        n <= types.len(),
    ensures
        forall|i: nat|
            i < n ==> generated_fields(name, types, n, data).1.dom().contains(
                #[trigger] field_name(i),
            ) && generated_fields(name, types, n, data).1[field_name(i)] == field_set(
                name,
                types,
                data,
                i as int,
            ).1,
    decreases n,
{
    if n > 0 {
        let m = (n - 1) as nat;
        lemma_fields_hold(name, types, m, data);
        lemma_fields_step(name, types, n, data);
        let values = generated_fields(name, types, m, data).1;
        let value = field_set(name, types, data, m as int).1;
        let all = values.insert(field_name(m), value);
        assert(generated_fields(name, types, n, data).1 == all);
        assert forall|i: nat| i < n implies all.dom().contains(#[trigger] field_name(i))
            && all[field_name(i)] == field_set(name, types, data, i as int).1 by {
            if i != m {
                lemma_field_names_differ(i, m);
            }
        }
    }
}

proof fn lemma_argument_names_differ(i: nat, j: nat)
    requires
        i != j,
    ensures
        argument_name(i) != argument_name(j),
{
    reveal_strlit("arg_");
    law_numerals_name_their_numbers(i);
    law_numerals_name_their_numbers(j);
    let (a, b) = (argument_name(i), argument_name(j));
    assert(a.subrange(4, a.len() as int) =~= decimal(i));
    assert(b.subrange(4, b.len() as int) =~= decimal(j));
}

/// The code for the state variable with number `i`, and the value that it sets.
pub open spec fn variable_set(types: Seq<(String, Type)>, data: Seq<u8>, i: int) -> (
    Seq<char>,
    Json,
    nat,
) {
    generated(
        argument_name(i as nat),
        types[i].1,
        after(data, storage_setup(types, i as nat, data).2),
    )
}

/// The state variables of a generated contract are set one after the other, each by code of its own,
/// and each holds a value of its type then. There are values for no other variables.
pub proof fn law_state_variables_are_set_one_by_one(
    types: Seq<(String, Type)>,
    n: nat,
    data: Seq<u8>,
)
    requires
        n <= types.len(),
    ensures
        storage_setup(types, n, data).0 == Seq::new(
            n,
            |i: int| variable_set(types, data, i).0 + "\n"@,
        ).flatten(),
        forall|i: nat|
            i < n ==> {
                let values = storage_setup(types, n, data).1;
                &&& values.dom().contains(#[trigger] argument_name(i))
                &&& values[argument_name(i)] == variable_set(types, data, i as int).1
                &&& fits(types[i as int].1, values[argument_name(i)])
            },
        forall|name: Seq<char>| #[trigger]
            storage_setup(types, n, data).1.dom().contains(name) ==> exists|i: nat|
                i < n && name == #[trigger] argument_name(i),
    decreases n,
{
    let f = |i: int| variable_set(types, data, i).0 + "\n"@;
    if n > 0 {
        let m = (n - 1) as nat;
        law_state_variables_are_set_one_by_one(types, m, data);
        lemma_flat_push(Seq::new(m, f), f(m as int));
        assert(Seq::new(n, f) =~= Seq::new(m, f).push(f(m as int)));
        let (before, values, used) = storage_setup(types, m, data);
        let (setup, value, more) = variable_set(types, data, m as int);
        law_generated_values_fit_their_type(argument_name(m), types[m as int].1, after(data, used));
        assert(before + (setup + "\n"@) =~= before + setup + "\n"@);
        let all = values.insert(argument_name(m), value);
        assert(storage_setup(types, n, data).1 == all);
        assert forall|i: nat| i < n implies all.dom().contains(#[trigger] argument_name(i))
            && all[argument_name(i)] == variable_set(types, data, i as int).1 && fits(
            types[i as int].1,
            all[argument_name(i)],
        ) by {
            if i != m {
                lemma_argument_names_differ(i, m);
            }
        }
        assert forall|name: Seq<char>| #[trigger] all.dom().contains(name) implies exists|i: nat|
            i < n && name == #[trigger] argument_name(i) by {
            if name != argument_name(m) {
                assert(values.dom().contains(name));
                let i = choose|i: nat| i < m && name == #[trigger] argument_name(i);
                assert(name == argument_name(i));
            }
        }
    } else {
        assert(Seq::new(0, f) =~= Seq::empty());
    }
}

/// The code for the variable in memory with number `i`, and the value that it sets.
pub open spec fn memory_variable_set(
    declarations: Seq<char>,
    types: Seq<(String, Type)>,
    data: Seq<u8>,
    i: int,
) -> (Seq<char>, Json, nat) {
    generated_in_memory(
        argument_name(i as nat),
        types[i].1,
        after(data, memory_setup(declarations, types, i as nat, data).2),
    )
}

/// The variables of a generated contract in memory are set behind their declarations, one after the
/// other and each by code of its own, and each holds its own value then.
pub proof fn law_variables_in_memory_are_set_one_by_one(
    declarations: Seq<char>,
    types: Seq<(String, Type)>,
    n: nat,
    data: Seq<u8>,
)
    requires
        n <= types.len(),
    ensures
        memory_setup(declarations, types, n, data).0 == declarations + Seq::new(
            n,
            |i: int| memory_variable_set(declarations, types, data, i).0 + "\n"@,
        ).flatten(),
        forall|i: nat|
            i < n ==> {
                let values = memory_setup(declarations, types, n, data).1;
                &&& values.dom().contains(#[trigger] argument_name(i))
                &&& values[argument_name(i)] == memory_variable_set(
                    declarations,
                    types,
                    data,
                    i as int,
                ).1
            },
{
    lemma_memory_code(declarations, types, n, data);
    lemma_memory_holds(declarations, types, n, data);
}

proof fn lemma_memory_step(
    declarations: Seq<char>,
    types: Seq<(String, Type)>,
    n: nat,
    data: Seq<u8>,
)
    requires
        0 < n <= types.len(),
    ensures
        ({
            let m = (n - 1) as nat;
            let (before, values, used) = memory_setup(declarations, types, m, data);
            let (setup, value, more) = memory_variable_set(declarations, types, data, m as int);
            memory_setup(declarations, types, n, data) == (
                before + setup + "\n"@,
                values.insert(argument_name(m), value),
                used + more,
            )
        }),
{
}

proof fn lemma_memory_code(
    declarations: Seq<char>,
    types: Seq<(String, Type)>,
    n: nat,
    data: Seq<u8>,
)
    requires
        n <= types.len(),
    ensures
        memory_setup(declarations, types, n, data).0 == declarations + Seq::new(
            n,
            |i: int| memory_variable_set(declarations, types, data, i).0 + "\n"@,
        ).flatten(),
    decreases n,
{
    let f = |i: int| memory_variable_set(declarations, types, data, i).0 + "\n"@;
    if n > 0 {
        let m = (n - 1) as nat;
        lemma_memory_code(declarations, types, m, data);
        lemma_memory_step(declarations, types, n, data);
        lemma_flat_push(Seq::new(m, f), f(m as int));
        assert(Seq::new(n, f) =~= Seq::new(m, f).push(f(m as int)));
        let setup = memory_variable_set(declarations, types, data, m as int).0;
        let lines = Seq::new(m, f).flatten();
        assert(declarations + (lines + (setup + "\n"@)) =~= declarations + lines + setup + "\n"@);
    } else {
        assert(Seq::new(0, f) =~= Seq::empty());
        assert(declarations + Seq::new(0, f).flatten() =~= declarations);
    }
}

proof fn lemma_memory_holds(
    declarations: Seq<char>,
    types: Seq<(String, Type)>,
    n: nat,
    data: Seq<u8>,
)
    requires
        n <= types.len(),
    ensures
        forall|i: nat|
            i < n ==> {
                let values = memory_setup(declarations, types, n, data).1;
                &&& values.dom().contains(#[trigger] argument_name(i))
                &&& values[argument_name(i)] == memory_variable_set(
                    declarations,
                    types,
                    data,
                    i as int,
                ).1
            },
    decreases n,
{
    if n > 0 {
        let m = (n - 1) as nat;
        lemma_memory_holds(declarations, types, m, data);
        lemma_memory_step(declarations, types, n, data);
        let values = memory_setup(declarations, types, m, data).1;
        let value = memory_variable_set(declarations, types, data, m as int).1;
        let all = values.insert(argument_name(m), value);
        assert(memory_setup(declarations, types, n, data).1 == all);
        assert forall|i: nat| i < n implies all.dom().contains(#[trigger] argument_name(i))
            && all[argument_name(i)] == memory_variable_set(
            declarations,
            types,
            data,
            i as int,
        ).1 by {
            if i != m {
                lemma_argument_names_differ(i, m);
            }
        }
    }
}

/// Whether a variable of the type stands on the stack: all types that fit into a word do.
pub open spec fn fits_a_word(ty: Type) -> bool {
    match ty {
        Type::Address | Type::Bool | Type::Uint(_) | Type::Int(_) | Type::FixedBytes(_) => true,
        _ => false,
    }
}

/// The value that is drawn for the variable on the stack with number `i`.
pub open spec fn stack_value(types: Seq<(String, Type)>, data: Seq<u8>, i: int) -> Json {
    drawn_value(types[i].1, after(data, stack_setup(types, i as nat, data).3)).0
}

/// Of the variables of a generated contract, those that fit into a word stand on the stack: each is
/// declared with its type, is assigned its value, and holds a value of its type then. The others are
/// left out.
pub proof fn law_variables_on_the_stack_are_set_one_by_one(
    types: Seq<(String, Type)>,
    n: nat,
    data: Seq<u8>,
)
    requires
        n <= types.len(),
    ensures
        stack_setup(types, n, data).0 == Seq::new(
            n,
            |i: int|
                if fits_a_word(types[i].1) {
                    "        "@ + encoded(types[i].1, Seq::empty()).0 + " "@ + argument_name(
                        i as nat,
                    ) + ";\n"@
                } else {
                    Seq::empty()
                },
        ).flatten(),
        stack_setup(types, n, data).1 == Seq::new(
            n,
            |i: int|
                if fits_a_word(types[i].1) {
                    "        "@ + argument_name(i as nat) + " = "@ + literal(
                        stack_value(types, data, i),
                        types[i].1,
                    ) + ";\n"@
                } else {
                    Seq::empty()
                },
        ).flatten(),
        forall|i: nat|
            i < n && fits_a_word(types[i as int].1) ==> {
                let values = stack_setup(types, n, data).2;
                &&& values.dom().contains(#[trigger] argument_name(i))
                &&& values[argument_name(i)] == stack_value(types, data, i as int)
                &&& is_one_of(types[i as int].1, values[argument_name(i)])
            },
        forall|name: Seq<char>| #[trigger]
            stack_setup(types, n, data).2.dom().contains(name) ==> exists|i: nat|
                i < n && name == #[trigger] argument_name(i) && fits_a_word(types[i as int].1),
    decreases n,
{
    let f = |i: int|
        if fits_a_word(types[i].1) {
            "        "@ + encoded(types[i].1, Seq::empty()).0 + " "@ + argument_name(i as nat)
                + ";\n"@
        } else {
            Seq::empty()
        };
    let g = |i: int|
        if fits_a_word(types[i].1) {
            "        "@ + argument_name(i as nat) + " = "@ + literal(
                stack_value(types, data, i),
                types[i].1,
            ) + ";\n"@
        } else {
            Seq::empty()
        };
    if n > 0 {
        let m = (n - 1) as nat;
        law_variables_on_the_stack_are_set_one_by_one(types, m, data);
        lemma_flat_push(Seq::new(m, f), f(m as int));
        assert(Seq::new(n, f) =~= Seq::new(m, f).push(f(m as int)));
        lemma_flat_push(Seq::new(m, g), g(m as int));
        assert(Seq::new(n, g) =~= Seq::new(m, g).push(g(m as int)));
        let before = stack_setup(types, m, data);
        let ty = types[m as int].1;
        let all = stack_setup(types, n, data).2;
        assert(on_stack(ty) == fits_a_word(ty));
        if fits_a_word(ty) {
            law_drawn_values_fit_their_type(ty, after(data, before.3));
            assert(all == before.2.insert(argument_name(m), stack_value(types, data, m as int)));
        } else {
            assert(before.0 + Seq::<char>::empty() =~= before.0);
            assert(before.1 + Seq::<char>::empty() =~= before.1);
        }
        assert forall|i: nat| i < n && fits_a_word(types[i as int].1) implies all.dom().contains(
            #[trigger] argument_name(i),
        ) && all[argument_name(i)] == stack_value(types, data, i as int) && is_one_of(
            types[i as int].1,
            all[argument_name(i)],
        ) by {
            if i != m {
                lemma_argument_names_differ(i, m);
            }
        }
        assert forall|name: Seq<char>| #[trigger] all.dom().contains(name) implies exists|i: nat|
            i < n && name == #[trigger] argument_name(i) && fits_a_word(types[i as int].1) by {
            if before.2.dom().contains(name) {
                let i = choose|i: nat|
                    i < m && name == #[trigger] argument_name(i) && fits_a_word(types[i as int].1);
                assert(name == argument_name(i));
            } else {
                assert(name == argument_name(m));
            }
        }
    } else {
        assert(Seq::new(0, f) =~= Seq::empty());
        assert(Seq::new(0, g) =~= Seq::empty());
    }
}

/// An array is written as the type of its elements with its size in brackets, a mapping with the types
/// of its keys and values, and a struct by a name of its own, under which its definition is added
/// behind those of what it is made of.
pub proof fn law_composite_types_are_written(ty: Type, structs: Seq<Seq<char>>)
    ensures
        ty matches Type::Array(arr) ==> encoded(ty, structs).1 == encoded(*arr.ty, structs).1
            && encoded(ty, structs).0 == match arr.size {
            Some(size) => encoded(*arr.ty, structs).0 + "["@ + decimal(size as nat) + "]"@,
            None => encoded(*arr.ty, structs).0 + "[]"@,
        },
        ty matches Type::Mapping(mapping) ==> {
            let (key, with_key) = encoded(*mapping.key, structs);
            let (value, with_value) = encoded(*mapping.value, with_key);
            encoded(ty, structs) == ("mapping("@ + key + " => "@ + value + ")"@, with_value)
        },
        ty is Tuple ==> {
            let (name, definitions) = encoded(ty, structs);
            &&& definitions.len() > 0
            &&& name == "Struct"@ + decimal(definitions.len())
            &&& begins_with(definitions.last(), "struct "@ + name + " {\n"@)
        },
{
    if ty is Tuple {
        let (name, definitions) = encoded(ty, structs);
        let head = "struct "@ + name + " {\n"@;
        let whole = definitions.last();
        assert(whole.subrange(0, head.len() as int) =~= head);
    }
}

} // verus!
