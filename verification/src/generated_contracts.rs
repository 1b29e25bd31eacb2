//! The whole contracts that hold generated values: in storage, in memory or on the stack.

use arbitrary::Unstructured;
use vstd::prelude::*;
use vstd::string::{StrSliceExecFns, StringExecFns};

use crate::drawn_types::{argument_name, argument_name_text, field_name, field_name_text};
use crate::generator::{
    assign, drawn_value, element_name, element_name_text, encoded, generate_random_value,
    generate_value, generated, literal, member_name, member_name_text, push_text, push_value, says,
    value_to_literal, ContractGenerator, GeneratedContract, SolidityValue,
};
use crate::json::{json_models, lemma_array_model, Json, JsonObject, JsonValue};
use crate::text::{join, joined, same_text, texts, trim_end, trimmed};
use crate::types::{Type, TypeArray, TypeTuple};
use crate::unstructured::{after, bytes_left, lemma_after_twice};

verus! {

/// The statements that set the variable `name` in memory, the value that it then holds, and how
/// many bytes are used to draw it. Dynamic arrays are allocated with two elements.
pub open spec fn generated_in_memory(name: Seq<char>, ty: Type, data: Seq<u8>) -> (
    Seq<char>,
    Json,
    nat,
)
    decreases ty, 0nat, 0nat,
{
    match ty {
        Type::Array(arr) => {
            let n = match arr.size {
                Some(size) => size as nat,
                None => 2,
            };
            let (setup, values, used) = memory_elements(name, *arr.ty, n, data);
            (trimmed(setup), Json::Array(values), used)
        },
        Type::Tuple(tuple) => {
            let (setup, values, used) = memory_fields(
                name,
                tuple.types@,
                tuple.types@.len(),
                data,
            );
            (trimmed(setup), Json::Object(values), used)
        },
        _ => {
            let (value, used) = drawn_value(ty, data);
            (name + " = "@ + literal(value, ty) + ";"@, value, used)
        },
    }
}

/// The first `n` elements of an array in memory.
pub open spec fn memory_elements(name: Seq<char>, ty: Type, n: nat, data: Seq<u8>) -> (
    Seq<char>,
    Seq<Json>,
    nat,
)
    decreases ty, 1nat, n,
{
    if n == 0 {
        (Seq::empty(), Seq::empty(), 0)
    } else {
        let (before, values, used) = memory_elements(name, ty, (n - 1) as nat, data);
        let (setup, value, more) = generated_in_memory(
            element_name(name, (n - 1) as nat),
            ty,
            after(data, used),
        );
        (before + setup + "\n"@, values.push(value), used + more)
    }
}

/// The first `n` fields of a struct in memory.
pub open spec fn memory_fields(
    name: Seq<char>,
    types: Seq<(String, Type)>,
    n: nat,
    data: Seq<u8>,
) -> (Seq<char>, Map<Seq<char>, Json>, nat)
    decreases types, 0nat, n,
{
    if n == 0 || n > types.len() {
        (Seq::empty(), Map::empty(), 0)
    } else {
        let (before, values, used) = memory_fields(name, types, (n - 1) as nat, data);
        let (setup, value, more) = generated_in_memory(
            member_name(name, (n - 1) as nat),
            types[n - 1].1,
            after(data, used),
        );
        (
            before + setup + "\n"@,
            values.insert(field_name((n - 1) as nat), value),
            used + more,
        )
    }
}

fn generate_setup_code_memory(u: &mut Unstructured<'_>, name: &str, ty: &Type) -> (r: SolidityValue)
    ensures
        says(r, generated_in_memory(name@, *ty, bytes_left(*old(u)))),
        bytes_left(*final(u)) == after(
            bytes_left(*old(u)),
            generated_in_memory(name@, *ty, bytes_left(*old(u))).2,
        ),
    decreases ty, 0nat,
{
    match ty {
        Type::Array(arr) => array_in_memory(u, name, arr),
        Type::Tuple(tuple) => struct_in_memory(u, name, tuple),
        _ => assign(u, name, ty),
    }
}

fn array_in_memory(u: &mut Unstructured<'_>, name: &str, arr: &TypeArray) -> (r: SolidityValue)
    ensures
        says(r, generated_in_memory(name@, Type::Array(*arr), bytes_left(*old(u)))),
        bytes_left(*final(u)) == after(
            bytes_left(*old(u)),
            generated_in_memory(name@, Type::Array(*arr), bytes_left(*old(u))).2,
        ),
    decreases arr, 0nat,
{
    let ghost data = bytes_left(*u);
    let mut setup: String = String::new();
    let mut values: Vec<JsonValue> = Vec::new();
    assert(json_models(values@) =~= Seq::<Json>::empty());
    assert(after(data, 0) =~= data);
    let n: u16 = match arr.size {
        Some(size) => size,
        None => 2,
    };
    let mut i: u16 = 0;
    while i < n
        invariant
            i <= n,
            setup@ == memory_elements(name@, *arr.ty, i as nat, data).0,
            json_models(values@) == memory_elements(name@, *arr.ty, i as nat, data).1,
            bytes_left(*u) == after(data, memory_elements(name@, *arr.ty, i as nat, data).2),
        decreases n - i,
    {
        let ghost used = memory_elements(name@, *arr.ty, i as nat, data).2;
        let at = element_name_text(name, i as usize);
        proof {
            lemma_after_twice(
                data,
                used,
                generated_in_memory(at@, *arr.ty, after(data, used)).2,
            );
        }
        let element = generate_setup_code_memory(u, at.as_str(), &arr.ty);
        setup.append(element.setup_code.as_str());
        setup.append("\n");
        push_value(&mut values, element.value);
        i = i + 1;
    }
    proof {
        lemma_array_model(values);
    }
    SolidityValue {
        setup_code: trim_end(setup.as_str()).to_string(),
        value: JsonValue::Array(values),
    }
}

fn struct_in_memory(u: &mut Unstructured<'_>, name: &str, tuple: &TypeTuple) -> (r: SolidityValue)
    ensures
        says(r, generated_in_memory(name@, Type::Tuple(*tuple), bytes_left(*old(u)))),
        bytes_left(*final(u)) == after(
            bytes_left(*old(u)),
            generated_in_memory(name@, Type::Tuple(*tuple), bytes_left(*old(u))).2,
        ),
    decreases tuple, 0nat,
{
    let ghost data = bytes_left(*u);
    let mut setup: String = String::new();
    let mut values = JsonObject::new();
    assert(after(data, 0) =~= data);
    let types = &tuple.types;
    let mut i: usize = 0;
    while i < types.len()
        invariant
            i <= types@.len(),
            setup@ == memory_fields(name@, types@, i as nat, data).0,
            values@ == memory_fields(name@, types@, i as nat, data).1,
            bytes_left(*u) == after(data, memory_fields(name@, types@, i as nat, data).2),
            decreases_to!(tuple => types@),
        decreases types@.len() - i,
    {
        let ghost used = memory_fields(name@, types@, i as nat, data).2;
        let at = member_name_text(name, i);
        proof {
            lemma_after_twice(
                data,
                used,
                generated_in_memory(at@, types@[i as int].1, after(data, used)).2,
            );
        }
        let field = generate_setup_code_memory(u, at.as_str(), &types[i].1);
        setup.append(field.setup_code.as_str());
        setup.append("\n");
        values.insert(field_name_text(i), field.value);
        i = i + 1;
    }
    SolidityValue {
        setup_code: trim_end(setup.as_str()).to_string(),
        value: JsonValue::Object(values),
    }
}

/// How the first `n` types are written, with the struct definitions that this adds.
pub open spec fn encoded_types(
    types: Seq<(String, Type)>,
    n: nat,
    structs: Seq<Seq<char>>,
) -> (Seq<Seq<char>>, Seq<Seq<char>>)
    decreases n,
{
    if n == 0 || n > types.len() {
        (Seq::empty(), structs)
    } else {
        let (before, so_far) = encoded_types(types, (n - 1) as nat, structs);
        let (ty, more) = encoded(types[n - 1].1, so_far);
        (before.push(ty), more)
    }
}

/// The declarations of the state variables.
pub open spec fn storage_variables(types: Seq<Seq<char>>) -> Seq<Seq<char>> {
    types.map(|i: int, ty: Seq<char>| "    "@ + ty + " "@ + argument_name(i as nat) + ";"@)
}

/// The statements that set the first `n` state variables, and their values.
pub open spec fn storage_setup(types: Seq<(String, Type)>, n: nat, data: Seq<u8>) -> (
    Seq<char>,
    Map<Seq<char>, Json>,
    nat,
)
    decreases n,
{
    if n == 0 || n > types.len() {
        (Seq::empty(), Map::empty(), 0)
    } else {
        let name = argument_name((n - 1) as nat);
        let (before, values, used) = storage_setup(types, (n - 1) as nat, data);
        let (setup, value, more) = generated(name, types[n - 1].1, after(data, used));
        (before + setup + "\n"@, values.insert(name, value), used + more)
    }
}

/// What every contract begins with.
pub open spec fn contract_head() -> Seq<char> {
    "// SPDX-License-Identifier: UNLICENSED\npragma solidity ^0.8.0;\n\ncontract ComplexTypes {\n"@
}

/// The source of a contract whose state variables have the given types.
pub open spec fn storage_source(
    types: Seq<(String, Type)>,
    structs: Seq<Seq<char>>,
    data: Seq<u8>,
) -> Seq<char> {
    let (declared, definitions) = encoded_types(types, types.len(), structs);
    contract_head() + "    "@ + joined(definitions, "\n\n    "@) + "\n    "@ + joined(
        storage_variables(declared),
        "\n"@,
    ) + "\n\n    function setup() public {\n        "@ + trimmed(
        storage_setup(types, types.len(), data).0,
    ) + "\n    }\n}\n"@
}

/// A type without the brackets of a dynamic array behind it.
pub open spec fn without_brackets(ty: Seq<char>) -> Seq<char> {
    if ty.len() >= 2 && ty.subrange(ty.len() - 2, ty.len() as int) == "[]"@ {
        ty.subrange(0, ty.len() - 2)
    } else {
        ty
    }
}

/// The declarations of the first `n` variables in memory.
pub open spec fn memory_declarations(
    types: Seq<(String, Type)>,
    declared: Seq<Seq<char>>,
    n: nat,
) -> Seq<char>
    decreases n,
{
    if n == 0 || n > types.len() {
        Seq::empty()
    } else {
        memory_declarations(types, declared, (n - 1) as nat) + memory_declaration(
            types[n - 1].1,
            declared[n - 1],
            argument_name((n - 1) as nat),
        )
    }
}

/// The declaration of a variable in memory.
pub open spec fn memory_declaration(ty: Type, text: Seq<char>, name: Seq<char>) -> Seq<char> {
    let declaration = "    "@ + text + " memory "@ + name;
    match ty {
        Type::Array(arr) if arr.size is None => declaration + " = new "@ + without_brackets(text)
            + "[](2);\n"@,
        _ => declaration + ";\n"@,
    }
}

/// The statements that set the first `n` variables in memory, behind their declarations, and their
/// values.
pub open spec fn memory_setup(
    declarations: Seq<char>,
    types: Seq<(String, Type)>,
    n: nat,
    data: Seq<u8>,
) -> (Seq<char>, Map<Seq<char>, Json>, nat)
    decreases n,
{
    if n == 0 || n > types.len() {
        (declarations, Map::empty(), 0)
    } else {
        let name = argument_name((n - 1) as nat);
        let (before, values, used) = memory_setup(declarations, types, (n - 1) as nat, data);
        let (setup, value, more) = generated_in_memory(name, types[n - 1].1, after(data, used));
        (before + setup + "\n"@, values.insert(name, value), used + more)
    }
}

/// The setup of a contract whose function has variables of the given types in memory.
pub open spec fn memory_contract_setup(
    types: Seq<(String, Type)>,
    structs: Seq<Seq<char>>,
    data: Seq<u8>,
) -> (Seq<char>, Map<Seq<char>, Json>, nat) {
    let declared = encoded_types(types, types.len(), structs).0;
    memory_setup(memory_declarations(types, declared, types.len()), types, types.len(), data)
}

/// The source of a contract whose function has variables of the given types in memory.
pub open spec fn memory_source(
    types: Seq<(String, Type)>,
    structs: Seq<Seq<char>>,
    data: Seq<u8>,
) -> Seq<char> {
    contract_head() + "    "@ + joined(
        encoded_types(types, types.len(), structs).1,
        "\n\n    "@,
    ) + "\n\n    function setup() public {\n"@ + trimmed(
        memory_contract_setup(types, structs, data).0,
    ) + "\n    }\n}\n"@
}

/// Whether a variable of the type stands on the stack.
pub open spec fn on_stack(ty: Type) -> bool {
    ty is Address || ty is Bool || ty is Uint || ty is Int || ty is FixedBytes
}

/// The declarations and the assignments of those of the first `n` variables that stand on the
/// stack, and their values.
pub open spec fn stack_setup(types: Seq<(String, Type)>, n: nat, data: Seq<u8>) -> (
    Seq<char>,
    Seq<char>,
    Map<Seq<char>, Json>,
    nat,
)
    decreases n,
{
    if n == 0 || n > types.len() {
        (Seq::empty(), Seq::empty(), Map::empty(), 0)
    } else {
        let (declarations, assignments, values, used) = stack_setup(types, (n - 1) as nat, data);
        let ty = types[n - 1].1;
        let name = argument_name((n - 1) as nat);
        if on_stack(ty) {
            let (value, more) = drawn_value(ty, after(data, used));
            (
                declarations + ("        "@ + encoded(ty, Seq::empty()).0 + " "@ + name + ";\n"@),
                assignments + ("        "@ + name + " = "@ + literal(value, ty) + ";\n"@),
                values.insert(name, value),
                used + more,
            )
        } else {
            (declarations, assignments, values, used)
        }
    }
}

/// The source of a contract whose function has those variables on the stack that can stand there.
pub open spec fn stack_source(types: Seq<(String, Type)>, data: Seq<u8>) -> Seq<char> {
    let (declarations, assignments, values, used) = stack_setup(types, types.len(), data);
    contract_head()
        + "    function setup() public {\n        // Stack variables declarations\n"@ + trimmed(
        declarations,
    ) + "\n        // Stack variables assignments\n"@ + trimmed(assignments) + "\n    }\n}"@
}

fn head_text() -> (r: String)
    ensures
        r@ == contract_head(),
{
    "// SPDX-License-Identifier: UNLICENSED\npragma solidity ^0.8.0;\n\ncontract ComplexTypes {\n".to_string()
}

fn remove_brackets(ty: &str) -> (r: &str)
    ensures
        r@ == without_brackets(ty@),
{
    let len: usize = ty.unicode_len();
    if len >= 2 && same_text(ty.substring_char(len - 2, len), "[]") {
        ty.substring_char(0, len - 2)
    } else {
        ty
    }
}

fn declare_in_memory(ty: &Type, text: &str, name: &str) -> (r: String)
    ensures
        r@ == memory_declaration(*ty, text@, name@),
{
    let mut out: String = "    ".to_string();
    out.append(text);
    out.append(" memory ");
    out.append(name);
    let dynamic: bool = match ty {
        Type::Array(arr) => arr.size.is_none(),
        _ => false,
    };
    if dynamic {
        out.append(" = new ");
        out.append(remove_brackets(text));
        out.append("[](2);\n");
    } else {
        out.append(";\n");
    }
    out
}

proof fn lemma_encoded_on_stack(ty: Type, structs: Seq<Seq<char>>)
    requires
        on_stack(ty),
    ensures
        encoded(ty, structs).0 == encoded(ty, Seq::empty()).0,
        encoded(ty, structs).1 == structs,
{
}

impl ContractGenerator {
    /// Writes a contract with the members of a tuple in storage.
    pub fn build_storage(typ: Type, u: &mut Unstructured<'_>) -> (r: GeneratedContract)
        requires
            typ is Tuple,
        ensures
            ({
                let types = typ->Tuple_0.types@;
                let (_, values, used) = storage_setup(types, types.len(), bytes_left(*old(u)));
                &&& r.source@ == storage_source(types, Seq::empty(), bytes_left(*old(u)))
                &&& r.values@ == Json::Object(values)
                &&& bytes_left(*final(u)) == after(bytes_left(*old(u)), used)
            }),
    {
        let mut generator = ContractGenerator::new(typ);
        assert(texts(generator.structs@) =~= Seq::<Seq<char>>::empty());
        generator.build_storage_inner(u)
    }

    /// Writes a contract with the members of a tuple in memory.
    pub fn build_memory(typ: Type, u: &mut Unstructured<'_>) -> (r: GeneratedContract)
        requires
            typ is Tuple,
        ensures
            ({
                let types = typ->Tuple_0.types@;
                let (_, values, used) = memory_contract_setup(
                    types,
                    Seq::empty(),
                    bytes_left(*old(u)),
                );
                &&& r.source@ == memory_source(types, Seq::empty(), bytes_left(*old(u)))
                &&& r.values@ == Json::Object(values)
                &&& bytes_left(*final(u)) == after(bytes_left(*old(u)), used)
            }),
    {
        let mut generator = ContractGenerator::new(typ);
        assert(texts(generator.structs@) =~= Seq::<Seq<char>>::empty());
        generator.build_memory_inner(u)
    }

    /// Writes a contract with the members of a tuple on the stack.
    pub fn build_stack(typ: Type, u: &mut Unstructured<'_>) -> (r: GeneratedContract)
        requires
            typ is Tuple,
        ensures
            ({
                let types = typ->Tuple_0.types@;
                let (_, _, values, used) = stack_setup(types, types.len(), bytes_left(*old(u)));
                &&& r.source@ == stack_source(types, bytes_left(*old(u)))
                &&& r.values@ == Json::Object(values)
                &&& bytes_left(*final(u)) == after(bytes_left(*old(u)), used)
            }),
    {
        let mut generator = ContractGenerator::new(typ);
        generator.build_stack_inner(u)
    }

    /// The statements that set a variable in storage, and the value that it then holds.
    pub fn generate_setup_code_2_with_value(
        &self,
        u: &mut Unstructured<'_>,
        field_name: &str,
        ty: &Type,
    ) -> (r: (String, JsonValue))
        ensures
            r.0@ == generated(field_name@, *ty, bytes_left(*old(u))).0,
            r.1@ == generated(field_name@, *ty, bytes_left(*old(u))).1,
            bytes_left(*final(u)) == after(
                bytes_left(*old(u)),
                generated(field_name@, *ty, bytes_left(*old(u))).2,
            ),
    {
        let result = generate_value(u, field_name, ty);
        (result.setup_code, result.value)
    }

    fn encode_types(&mut self, types: &Vec<(String, Type)>) -> (r: Vec<String>)
        ensures
            final(self).typ == old(self).typ,
            texts(r@) == encoded_types(types@, types@.len(), texts(old(self).structs@)).0,
            r@.len() == types@.len(),
            texts(final(self).structs@) == encoded_types(
                types@,
                types@.len(),
                texts(old(self).structs@),
            ).1,
    {
        let ghost before = texts(self.structs@);
        let ghost typ = self.typ;
        let mut declared: Vec<String> = Vec::new();
        assert(texts(declared@) =~= Seq::<Seq<char>>::empty());
        let mut i: usize = 0;
        while i < types.len()
            invariant
                i <= types@.len(),
                self.typ == typ,
                declared@.len() == i,
                texts(declared@) == encoded_types(types@, i as nat, before).0,
                texts(self.structs@) == encoded_types(types@, i as nat, before).1,
            decreases types@.len() - i,
        {
            let name = argument_name_text(i);
            let text = self.encode_argument(name.as_str(), &types[i].1);
            push_text(&mut declared, text);
            assert(texts(declared@).len() == declared@.len());
            i = i + 1;
        }
        declared
    }

    /// Writes a contract with the members of the generator's tuple in storage.
    pub fn build_storage_inner(&mut self, u: &mut Unstructured<'_>) -> (r: GeneratedContract)
        requires
            old(self).typ is Tuple,
        ensures
            final(self).typ == old(self).typ,
            ({
                let types = old(self).typ->Tuple_0.types@;
                let structs = texts(old(self).structs@);
                let (_, values, used) = storage_setup(types, types.len(), bytes_left(*old(u)));
                &&& texts(final(self).structs@) == encoded_types(types, types.len(), structs).1
                &&& r.source@ == storage_source(types, structs, bytes_left(*old(u)))
                &&& r.values@ == Json::Object(values)
                &&& bytes_left(*final(u)) == after(bytes_left(*old(u)), used)
            }),
    {
        let mut taken = Type::Address;
        std::mem::swap(&mut taken, &mut self.typ);
        let r = match &taken {
            Type::Tuple(tuple) => {
                let declared = self.encode_types(&tuple.types);
                storage_text(&tuple.types, &declared, &self.structs, u)
            },
            _ => GeneratedContract { source: String::new(), values: JsonValue::Null },
        };
        self.typ = taken;
        r
    }

    /// Writes a contract with the members of the generator's tuple in memory.
    pub fn build_memory_inner(&mut self, u: &mut Unstructured<'_>) -> (r: GeneratedContract)
        requires
            old(self).typ is Tuple,
        ensures
            final(self).typ == old(self).typ,
            ({
                let types = old(self).typ->Tuple_0.types@;
                let structs = texts(old(self).structs@);
                let (_, values, used) = memory_contract_setup(types, structs, bytes_left(*old(u)));
                &&& texts(final(self).structs@) == encoded_types(types, types.len(), structs).1
                &&& r.source@ == memory_source(types, structs, bytes_left(*old(u)))
                &&& r.values@ == Json::Object(values)
                &&& bytes_left(*final(u)) == after(bytes_left(*old(u)), used)
            }),
    {
        let mut taken = Type::Address;
        std::mem::swap(&mut taken, &mut self.typ);
        let r = match &taken {
            Type::Tuple(tuple) => {
                let declared = self.encode_types(&tuple.types);
                memory_text(&tuple.types, &declared, &self.structs, u)
            },
            _ => GeneratedContract { source: String::new(), values: JsonValue::Null },
        };
        self.typ = taken;
        r
    }

    /// Writes a contract with those members of the generator's tuple on the stack that can stand
    /// there; the others are skipped.
    pub fn build_stack_inner(&mut self, u: &mut Unstructured<'_>) -> (r: GeneratedContract)
        requires
            old(self).typ is Tuple,
        ensures
            final(self).typ == old(self).typ,
            texts(final(self).structs@) == texts(old(self).structs@),
            ({
                let types = old(self).typ->Tuple_0.types@;
                let (_, _, values, used) = stack_setup(types, types.len(), bytes_left(*old(u)));
                &&& r.source@ == stack_source(types, bytes_left(*old(u)))
                &&& r.values@ == Json::Object(values)
                &&& bytes_left(*final(u)) == after(bytes_left(*old(u)), used)
            }),
    {
        let mut taken = Type::Address;
        std::mem::swap(&mut taken, &mut self.typ);
        let r = match &taken {
            Type::Tuple(tuple) => self.stack_text(&tuple.types, u),
            _ => GeneratedContract { source: String::new(), values: JsonValue::Null },
        };
        self.typ = taken;
        r
    }

    fn stack_text(&mut self, types: &Vec<(String, Type)>, u: &mut Unstructured<'_>) -> (r:
        GeneratedContract)
        ensures
            texts(final(self).structs@) == texts(old(self).structs@),
            ({
                let (_, _, values, used) = stack_setup(types@, types@.len(), bytes_left(*old(u)));
                &&& r.source@ == stack_source(types@, bytes_left(*old(u)))
                &&& r.values@ == Json::Object(values)
                &&& bytes_left(*final(u)) == after(bytes_left(*old(u)), used)
            }),
    {
        let ghost data = bytes_left(*u);
        let ghost structs = texts(self.structs@);
        let mut declarations: String = String::new();
        let mut assignments: String = String::new();
        let mut values = JsonObject::new();
        assert(after(data, 0) =~= data);
        let mut i: usize = 0;
        while i < types.len()
            invariant
                i <= types@.len(),
                texts(self.structs@) == structs,
                declarations@ == stack_setup(types@, i as nat, data).0,
                assignments@ == stack_setup(types@, i as nat, data).1,
                values@ == stack_setup(types@, i as nat, data).2,
                bytes_left(*u) == after(data, stack_setup(types@, i as nat, data).3),
            decreases types@.len() - i,
        {
            let ty = &types[i].1;
            let simple: bool = match ty {
                Type::Address
                | Type::Bool
                | Type::Uint(_)
                | Type::Int(_)
                | Type::FixedBytes(_) => true,
                _ => false,
            };
            if simple {
                let ghost used = stack_setup(types@, i as nat, data).3;
                proof {
                    lemma_encoded_on_stack(*ty, structs);
                    lemma_after_twice(data, used, drawn_value(*ty, after(data, used)).1);
                }
                let name = argument_name_text(i);
                let text = self.encode_argument(name.as_str(), ty);
                let mut declaration: String = "        ".to_string();
                declaration.append(text.as_str());
                declaration.append(" ");
                declaration.append(name.as_str());
                declaration.append(";\n");
                declarations.append(declaration.as_str());
                let value = generate_random_value(u, ty);
                let mut assignment: String = "        ".to_string();
                assignment.append(name.as_str());
                assignment.append(" = ");
                assignment.append(value_to_literal(&value, ty).as_str());
                assignment.append(";\n");
                assignments.append(assignment.as_str());
                values.insert(name, value);
            }
            i = i + 1;
        }
        let mut source = head_text();
        source.append("    function setup() public {\n        // Stack variables declarations\n");
        source.append(trim_end(declarations.as_str()));
        source.append("\n        // Stack variables assignments\n");
        source.append(trim_end(assignments.as_str()));
        source.append("\n    }\n}");
        GeneratedContract { source, values: JsonValue::Object(values) }
    }
}

fn declare_in_storage(declared: &Vec<String>) -> (r: Vec<String>)
    ensures
        texts(r@) == storage_variables(texts(declared@)),
{
    let mut lines: Vec<String> = Vec::new();
    let mut i: usize = 0;
    while i < declared.len()
        invariant
            i <= declared@.len(),
            texts(lines@) == storage_variables(texts(declared@)).take(i as int),
        decreases declared@.len() - i,
    {
        let ghost all = storage_variables(texts(declared@));
        let mut line: String = "    ".to_string();
        line.append(declared[i].as_str());
        line.append(" ");
        line.append(argument_name_text(i).as_str());
        line.append(";");
        assert(line@ == all[i as int]);
        push_text(&mut lines, line);
        assert(all.take(i + 1) =~= all.take(i as int).push(all[i as int]));
        i = i + 1;
    }
    assert(storage_variables(texts(declared@)).take(declared@.len() as int) =~= storage_variables(
        texts(declared@),
    ));
    lines
}

fn storage_text(
    types: &Vec<(String, Type)>,
    declared: &Vec<String>,
    structs: &Vec<String>,
    u: &mut Unstructured<'_>,
) -> (r: GeneratedContract)
    ensures
        ({
            let (setup, values, used) = storage_setup(types@, types@.len(), bytes_left(*old(u)));
            &&& r.source@ == contract_head() + "    "@ + joined(texts(structs@), "\n\n    "@)
                + "\n    "@ + joined(storage_variables(texts(declared@)), "\n"@)
                + "\n\n    function setup() public {\n        "@ + trimmed(setup) + "\n    }\n}\n"@
            &&& r.values@ == Json::Object(values)
            &&& bytes_left(*final(u)) == after(bytes_left(*old(u)), used)
        }),
{
    let ghost data = bytes_left(*u);
    let mut setup: String = String::new();
    let mut values = JsonObject::new();
    assert(after(data, 0) =~= data);
    let mut i: usize = 0;
    while i < types.len()
        invariant
            i <= types@.len(),
            setup@ == storage_setup(types@, i as nat, data).0,
            values@ == storage_setup(types@, i as nat, data).1,
            bytes_left(*u) == after(data, storage_setup(types@, i as nat, data).2),
        decreases types@.len() - i,
    {
        let ghost used = storage_setup(types@, i as nat, data).2;
        let name = argument_name_text(i);
        proof {
            lemma_after_twice(
                data,
                used,
                generated(name@, types@[i as int].1, after(data, used)).2,
            );
        }
        let result = generate_value(u, name.as_str(), &types[i].1);
        setup.append(result.setup_code.as_str());
        setup.append("\n");
        values.insert(name, result.value);
        i = i + 1;
    }
    let variables = declare_in_storage(declared);
    let mut source = head_text();
    source.append("    ");
    source.append(join(structs, "\n\n    ").as_str());
    source.append("\n    ");
    source.append(join(&variables, "\n").as_str());
    source.append("\n\n    function setup() public {\n        ");
    source.append(trim_end(setup.as_str()));
    source.append("\n    }\n}\n");
    GeneratedContract { source, values: JsonValue::Object(values) }
}

fn memory_text(
    types: &Vec<(String, Type)>,
    declared: &Vec<String>,
    structs: &Vec<String>,
    u: &mut Unstructured<'_>,
) -> (r: GeneratedContract)
    requires
        declared@.len() == types@.len(),
    ensures
        ({
            let (setup, values, used) = memory_setup(
                memory_declarations(types@, texts(declared@), types@.len()),
                types@,
                types@.len(),
                bytes_left(*old(u)),
            );
            &&& r.source@ == contract_head() + "    "@ + joined(texts(structs@), "\n\n    "@)
                + "\n\n    function setup() public {\n"@ + trimmed(setup) + "\n    }\n}\n"@
            &&& r.values@ == Json::Object(values)
            &&& bytes_left(*final(u)) == after(bytes_left(*old(u)), used)
        }),
{
    let ghost data = bytes_left(*u);
    let mut setup: String = String::new();
    let mut i: usize = 0;
    while i < types.len()
        invariant
            i <= types@.len(),
            declared@.len() == types@.len(),
            setup@ == memory_declarations(types@, texts(declared@), i as nat),
        decreases types@.len() - i,
    {
        let declaration = declare_in_memory(
            &types[i].1,
            declared[i].as_str(),
            argument_name_text(i).as_str(),
        );
        assert(texts(declared@)[i as int] == declared@[i as int]@);
        setup.append(declaration.as_str());
        i = i + 1;
    }
    let ghost declarations = setup@;
    let mut values = JsonObject::new();
    assert(after(data, 0) =~= data);
    let mut i: usize = 0;
    while i < types.len()
        invariant
            i <= types@.len(),
            setup@ == memory_setup(declarations, types@, i as nat, data).0,
            values@ == memory_setup(declarations, types@, i as nat, data).1,
            bytes_left(*u) == after(data, memory_setup(declarations, types@, i as nat, data).2),
        decreases types@.len() - i,
    {
        let ghost used = memory_setup(declarations, types@, i as nat, data).2;
        let name = argument_name_text(i);
        proof {
            lemma_after_twice(
                data,
                used,
                generated_in_memory(name@, types@[i as int].1, after(data, used)).2,
            );
        }
        let result = generate_setup_code_memory(u, name.as_str(), &types[i].1);
        setup.append(result.setup_code.as_str());
        setup.append("\n");
        values.insert(name, result.value);
        i = i + 1;
    }
    let mut source = head_text();
    source.append("    ");
    source.append(join(structs, "\n\n    ").as_str());
    source.append("\n\n    function setup() public {\n");
    source.append(trim_end(setup.as_str()));
    source.append("\n    }\n}\n");
    GeneratedContract { source, values: JsonValue::Object(values) }
}

} // verus!
