use arbitrary::Unstructured;
use solstice::drawn_types::{MemoryType, StackType};
use solstice::generator::{generate_random_value, value_to_literal, ContractGenerator};
use solstice::json::{JsonObject, JsonValue};
use solstice::types::{Type, TypeArray, TypeMapping, TypeTuple};

fn text(s: &str) -> JsonValue {
    JsonValue::String(s.to_string())
}

fn array(ty: Type, size: Option<u16>) -> Type {
    Type::Array(TypeArray { ty: Box::new(ty), size })
}

fn tuple(types: Vec<(&str, Type)>) -> Type {
    Type::Tuple(TypeTuple {
        types: types.into_iter().map(|(n, t)| (n.to_string(), t)).collect(),
    })
}

fn object(members: Vec<(&str, JsonValue)>) -> JsonValue {
    let mut o = JsonObject::new();
    for (k, v) in members {
        o.insert(k.to_string(), v);
    }
    JsonValue::Object(o)
}

fn drawn(data: &[u8]) -> Type {
    Type::arbitrary(&mut Unstructured::new(data)).unwrap()
}

#[test]
fn draws_simple_types() {
    assert_eq!(drawn(&[]), Type::Address);
    assert_eq!(drawn(&[0]), Type::Address);
    assert_eq!(drawn(&[10]), Type::Bool);
    assert_eq!(drawn(&[2]), Type::String);
    assert_eq!(drawn(&[3]), Type::Bytes);
    assert_eq!(drawn(&[4, 31]), Type::FixedBytes(32));
    assert_eq!(drawn(&[4, 32]), Type::FixedBytes(1));
    assert_eq!(drawn(&[5, 2]), Type::Int(Some(32)));
    assert_eq!(drawn(&[6, 11]), Type::Uint(Some(256)));
}

#[test]
fn draws_nested_types() {
    assert_eq!(drawn(&[7, 1, 1, 3]), array(Type::Bool, Some(4)));
    assert_eq!(drawn(&[7, 1, 2]), array(Type::Bool, None));
    assert_eq!(
        drawn(&[8, 1, 0, 5, 2]),
        tuple(vec![("field_0", Type::Address), ("field_1", Type::Int(Some(32)))])
    );
    // what is drawn past the end of the data is the first choice
    assert_eq!(drawn(&[8]), tuple(vec![("field_0", Type::Address)]));
}

#[test]
fn uses_up_the_bytes_that_it_draws() {
    let data = [4u8, 31, 9];
    let mut u = Unstructured::new(&data);
    assert_eq!(Type::arbitrary(&mut u), Some(Type::FixedBytes(32)));
    assert_eq!(u.len(), 1);
}

#[test]
fn draws_mapping_types() {
    let mut u = Unstructured::new(&[3, 8, 1]);
    assert_eq!(
        TypeMapping::arbitrary(&mut u),
        Some(TypeMapping {
            key: Box::new(Type::FixedBytes(9)),
            value: Box::new(Type::Bool),
        })
    );
    let mut u = Unstructured::new(&[5, 1, 1]);
    assert_eq!(
        TypeMapping::arbitrary(&mut u),
        Some(TypeMapping {
            key: Box::new(Type::Uint(Some(16))),
            value: Box::new(Type::Bool),
        })
    );
}

#[test]
fn draws_memory_types() {
    let mut u = Unstructured::new(&[1, 0, 1, 0, 1, 0, 2]);
    assert_eq!(
        MemoryType::arbitrary_type(&mut u),
        Some(tuple(vec![
            ("", array(Type::Bool, None)),
            ("", tuple(vec![("field_0", Type::String)])),
        ]))
    );
}

#[test]
fn draws_stack_types() {
    let mut u = Unstructured::new(&[2, 1, 2, 0, 4, 3]);
    assert_eq!(
        StackType::arbitrary_type(&mut u),
        Some(tuple(vec![
            ("arg_0", Type::Bool),
            ("arg_1", Type::Uint(Some(8))),
            ("arg_2", Type::FixedBytes(4)),
        ]))
    );
    assert_eq!(Type::from(StackType::Int(8)), Type::Int(Some(8)));
}

fn value(data: &[u8], ty: &Type) -> JsonValue {
    generate_random_value(&mut Unstructured::new(data), ty)
}

#[test]
fn draws_values() {
    assert_eq!(value(&[3], &Type::Bool), JsonValue::Bool(true));
    assert_eq!(value(&[], &Type::Bool), JsonValue::Bool(false));
    assert_eq!(value(&[2, 0, 27], &Type::String), text("ab"));
    assert_eq!(value(&[2, 0xab, 1], &Type::Bytes), text("0xab01"));
    assert_eq!(value(&[0xab], &Type::FixedBytes(2)), text("0xab00"));
    assert_eq!(
        value(&[], &Type::Address),
        text("0x0000000000000000000000000000000000000000")
    );
    assert_eq!(value(&[0], &Type::Int(Some(8))), text("-10"));
    assert_eq!(value(&[20], &Type::Int(Some(32))), text("10"));
    // two bytes, most significant first
    assert_eq!(value(&[1, 0], &Type::Int(Some(64))), text("-744"));
    assert_eq!(value(&[12], &Type::Uint(Some(16))), text("1"));
    assert_eq!(value(&[3, 232], &Type::Uint(None)), text("1000"));
    assert_eq!(value(&[1], &array(Type::Bool, None)), JsonValue::Null);
}

#[test]
fn writes_literals() {
    assert_eq!(value_to_literal(&text("0xab"), &Type::Bytes), "hex\"ab\"");
    assert_eq!(value_to_literal(&text("0xab"), &Type::Address), "0xab");
    assert_eq!(value_to_literal(&text("0xab"), &Type::String), "hex\"ab\"");
    assert_eq!(value_to_literal(&text("-3"), &Type::Int(None)), "-3");
    assert_eq!(value_to_literal(&text("7"), &Type::Uint(None)), "7");
    assert_eq!(value_to_literal(&text("abc"), &Type::String), "\"abc\"");
    assert_eq!(value_to_literal(&JsonValue::Bool(true), &Type::Bool), "true");
    assert_eq!(value_to_literal(&JsonValue::Bool(false), &Type::Bool), "false");
    assert_eq!(
        value_to_literal(&JsonValue::Number("12".to_string()), &Type::Uint(None)),
        "12"
    );
    assert_eq!(value_to_literal(&JsonValue::Null, &Type::Bool), "0");
}

#[test]
fn writes_types() {
    let mut g = ContractGenerator::new(Type::Bool);
    assert_eq!(g.encode_argument("a", &Type::Int(None)), "int256");
    assert_eq!(g.encode_argument("a", &Type::Uint(None)), "uint256");
    assert_eq!(g.encode_argument("a", &Type::FixedBytes(4)), "bytes4");
    assert_eq!(g.encode_argument("a", &array(Type::Address, Some(3))), "address[3]");
    assert_eq!(g.encode_argument("a", &array(Type::String, None)), "string[]");
    let mapping = Type::Mapping(TypeMapping {
        key: Box::new(Type::Bytes),
        value: Box::new(Type::Int(Some(8))),
    });
    assert_eq!(g.encode_argument("a", &mapping), "mapping(bytes => int8)");
    assert!(g.structs.is_empty());
}

#[test]
fn writes_structs_inside_out() {
    let mut g = ContractGenerator::new(Type::Bool);
    let inner = tuple(vec![("x", Type::Bool)]);
    let outer = tuple(vec![("y", array(inner, None)), ("z", Type::Uint(Some(8)))]);
    assert_eq!(g.encode_argument("a", &outer), "Struct2");
    assert_eq!(
        g.structs,
        vec![
            "struct Struct1 {\nbool field_0;\n    }".to_string(),
            "struct Struct2 {\nStruct1[] field_0;\nuint8 field_1;\n    }".to_string(),
        ]
    );
}

#[test]
fn builds_storage_contracts() {
    let ty = tuple(vec![
        ("", Type::Bool),
        ("", Type::Uint(Some(8))),
        ("", Type::FixedBytes(2)),
        ("", Type::String),
    ]);
    let mut u = Unstructured::new(&[3, 7, 0xab, 0xcd, 2, 0, 27]);
    let contract = ContractGenerator::build_storage(ty, &mut u);
    assert_eq!(
        contract.source,
        "// SPDX-License-Identifier: UNLICENSED
pragma solidity ^0.8.0;

contract ComplexTypes {
    
        bool arg_0;
    uint8 arg_1;
    bytes2 arg_2;
    string arg_3;

    function setup() public {
        arg_0 = true;
arg_1 = 7;
arg_2 = hex\"abcd\";
arg_3 = \"ab\";
    }
}
"
    );
    assert_eq!(
        contract.values,
        object(vec![
            ("arg_0", JsonValue::Bool(true)),
            ("arg_1", text("7")),
            ("arg_2", text("0xabcd")),
            ("arg_3", text("ab")),
        ])
    );
}

#[test]
fn fills_nested_storage() {
    let ty = tuple(vec![
        ("", array(Type::Bool, None)),
        ("", array(Type::Bool, Some(2))),
        ("", tuple(vec![("x", Type::Bool)])),
    ]);
    let mut u = Unstructured::new(&[1, 0, 0, 1, 1]);
    let contract = ContractGenerator::build_storage(ty, &mut u);
    assert_eq!(
        contract.source,
        "// SPDX-License-Identifier: UNLICENSED
pragma solidity ^0.8.0;

contract ComplexTypes {
    struct Struct1 {
bool field_0;
    }
        bool[] arg_0;
    bool[2] arg_1;
    Struct1 arg_2;

    function setup() public {
        arg_0.push();
arg_0[arg_0.length - 1] = true;
arg_0.push();
arg_0[arg_0.length - 1] = false;
arg_1[0] = false;
arg_1[1] = true;
arg_2.field_0 = true;
    }
}
"
    );
    assert_eq!(
        contract.values,
        object(vec![
            ("arg_0", JsonValue::Array(vec![JsonValue::Bool(true), JsonValue::Bool(false)])),
            ("arg_1", JsonValue::Array(vec![JsonValue::Bool(false), JsonValue::Bool(true)])),
            ("arg_2", object(vec![("field_0", JsonValue::Bool(true))])),
        ])
    );
}

#[test]
fn fills_mappings() {
    let mapping = Type::Mapping(TypeMapping {
        key: Box::new(Type::String),
        value: Box::new(Type::Uint(Some(8))),
    });
    let mut u = Unstructured::new(&[1, 3, 9, 1, 4, 10]);
    let g = ContractGenerator::new(Type::Bool);
    let (setup, value) = g.generate_setup_code_2_with_value(&mut u, "m", &mapping);
    assert_eq!(setup, "m[\"d\"] = 9;\nm[\"e\"] = 10;");
    assert_eq!(value, object(vec![("\"d\"", text("9")), ("\"e\"", text("10"))]));
    let flags = Type::Mapping(TypeMapping {
        key: Box::new(Type::Bool),
        value: Box::new(Type::Bool),
    });
    let mut u = Unstructured::new(&[1, 1, 0, 1]);
    let (setup, value) = g.generate_setup_code_2_with_value(&mut u, "m", &flags);
    assert_eq!(setup, "m[true] = true;\nm[false] = true;");
    assert_eq!(
        value,
        object(vec![("true", JsonValue::Bool(true)), ("false", JsonValue::Bool(true))])
    );
}

#[test]
fn builds_memory_contracts() {
    let ty = tuple(vec![
        ("", array(Type::Uint(Some(8)), None)),
        ("", array(Type::Bool, Some(1))),
        ("", tuple(vec![("x", Type::Bytes)])),
    ]);
    let mut u = Unstructured::new(&[1, 2, 1, 1, 0xff]);
    let contract = ContractGenerator::build_memory(ty, &mut u);
    assert_eq!(
        contract.source,
        "// SPDX-License-Identifier: UNLICENSED
pragma solidity ^0.8.0;

contract ComplexTypes {
    struct Struct1 {
bytes field_0;
    }

    function setup() public {
    uint8[] memory arg_0 = new uint8[](2);
    bool[1] memory arg_1;
    Struct1 memory arg_2;
arg_0[0] = 1;
arg_0[1] = 2;
arg_1[0] = true;
arg_2.field_0 = hex\"ff\";
    }
}
"
    );
    assert_eq!(
        contract.values,
        object(vec![
            ("arg_0", JsonValue::Array(vec![text("1"), text("2")])),
            ("arg_1", JsonValue::Array(vec![JsonValue::Bool(true)])),
            ("arg_2", object(vec![("field_0", text("0xff"))])),
        ])
    );
}

#[test]
fn builds_stack_contracts() {
    let ty = tuple(vec![
        ("", Type::Uint(Some(8))),
        ("", Type::String),
        ("", Type::Bool),
    ]);
    let mut u = Unstructured::new(&[4, 1]);
    let contract = ContractGenerator::build_stack(ty, &mut u);
    assert_eq!(
        contract.source,
        "// SPDX-License-Identifier: UNLICENSED
pragma solidity ^0.8.0;

contract ComplexTypes {
    function setup() public {
        // Stack variables declarations
        uint8 arg_0;
        bool arg_2;
        // Stack variables assignments
        arg_0 = 4;
        arg_2 = true;
    }
}"
    );
    assert_eq!(
        contract.values,
        object(vec![("arg_0", text("4")), ("arg_2", JsonValue::Bool(true))])
    );
}
