//! Contracts with variables of given types, and the values that their setup gives them.

use arbitrary::Unstructured;
use vstd::prelude::*;
use vstd::string::{StrSliceExecFns, StringExecFns};

use crate::drawn_types::{drawn_flag, field_name, field_name_text};
use crate::json::{json_models, lemma_array_model, Json, JsonObject, JsonValue};
use crate::primitives::{address_text, checksum_address, hex_text, quoted_text, json_quoted};
use crate::text::{
    begins_with, decimal, decimal_text, hex_digits, signed_decimal, signed_decimal_text,
    starts_with, texts, trim_end, trimmed,
};
use crate::types::{Type, TypeArray, TypeMapping, TypeTuple};
use crate::unstructured::{
    after, arbitrary_bool, bytes_drawn, bytes_left, drawn, int_in_range, lemma_after_twice,
    lemma_drawn,
};

verus! {

/// A contract, and what its variables hold once it is set up.
#[derive(Debug, PartialEq)]
pub struct GeneratedContract {
    pub source: String,
    pub values: JsonValue,
}

/// The statements that set a variable, and the value that it then holds.
#[derive(Debug, PartialEq)]
pub struct SolidityValue {
    pub setup_code: String,
    pub value: JsonValue,
}

/// Writes contracts around the members of a tuple type.
#[derive(Debug)]
pub struct ContractGenerator {
    pub typ: Type,
    /// The struct definitions so far.
    pub structs: Vec<String>,
}

/// How a type is written in a declaration, with the struct definitions that this adds.
pub open spec fn encoded(ty: Type, structs: Seq<Seq<char>>) -> (Seq<char>, Seq<Seq<char>>)
    decreases ty, 0nat,
{
    match ty {
        Type::Tuple(tuple) => {
            let (fields, more) = encoded_fields(tuple.types@, tuple.types@.len(), structs);
            let name = "Struct"@ + decimal(more.len() + 1);
            (name, more.push("struct "@ + name + " {\n"@ + fields + "    }"@))
        },
        Type::Array(arr) => {
            let (base, more) = encoded(*arr.ty, structs);
            match arr.size {
                Some(size) => (base + "["@ + decimal(size as nat) + "]"@, more),
                None => (base + "[]"@, more),
            }
        },
        Type::Mapping(mapping) => {
            let (key, with_key) = encoded(*mapping.key, structs);
            let (value, with_value) = encoded(*mapping.value, with_key);
            ("mapping("@ + key + " => "@ + value + ")"@, with_value)
        },
        Type::Address => ("address"@, structs),
        Type::Bool => ("bool"@, structs),
        Type::String => ("string"@, structs),
        Type::Bytes => ("bytes"@, structs),
        Type::FixedBytes(size) => ("bytes"@ + decimal(size as nat), structs),
        Type::Int(Some(bits)) => ("int"@ + decimal(bits as nat), structs),
        Type::Int(None) => ("int256"@, structs),
        Type::Uint(Some(bits)) => ("uint"@ + decimal(bits as nat), structs),
        Type::Uint(None) => ("uint256"@, structs),
    }
}

/// The declarations of the first `n` fields of a struct.
pub open spec fn encoded_fields(
    types: Seq<(String, Type)>,
    n: nat,
    structs: Seq<Seq<char>>,
) -> (Seq<char>, Seq<Seq<char>>)
    decreases types, n,
{
    if n == 0 || n > types.len() {
        (Seq::empty(), structs)
    } else {
        let (before, so_far) = encoded_fields(types, (n - 1) as nat, structs);
        let (ty, more) = encoded(types[n - 1].1, so_far);
        (before + (ty + " "@ + field_name((n - 1) as nat) + ";\n"@), more)
    }
}

/// A text of `n` lower-case letters, and how many bytes are used to draw it.
pub open spec fn drawn_letters(data: Seq<u8>, n: nat) -> (Seq<char>, nat)
    decreases n,
{
    if n == 0 {
        (Seq::empty(), 0)
    } else {
        let (before, used) = drawn_letters(data, (n - 1) as nat);
        let rest = after(data, used);
        (
            before.push("abcdefghijklmnopqrstuvwxyz"@[drawn(rest, 97, 122) - 97]),
            used + bytes_drawn(rest, 25),
        )
    }
}

/// A sequence of `n` bytes, and how many bytes are used to draw it.
pub open spec fn drawn_bytes(data: Seq<u8>, n: nat) -> (Seq<u8>, nat)
    decreases n,
{
    if n == 0 {
        (Seq::empty(), 0)
    } else {
        let (before, used) = drawn_bytes(data, (n - 1) as nat);
        let rest = after(data, used);
        (before.push(drawn(rest, 0, 255) as u8), used + bytes_drawn(rest, 255))
    }
}

/// How many bytes an integer of this size takes.
pub open spec fn integer_bytes(size: Option<u16>) -> nat {
    match size {
        Some(bits) => bits as nat / 8,
        None => 32,
    }
}

/// A value of a simple type, and how many bytes are used to draw it.
pub open spec fn drawn_value(ty: Type, data: Seq<u8>) -> (Json, nat) {
    match ty {
        Type::Bool => (Json::Bool(drawn_flag(data).0), drawn_flag(data).1),
        Type::String => {
            let used = bytes_drawn(data, 60);
            let (letters, more) = drawn_letters(after(data, used), drawn(data, 0, 60) as nat);
            (Json::String(letters), used + more)
        },
        Type::Bytes => {
            let used = bytes_drawn(data, 60);
            let (bytes, more) = drawn_bytes(after(data, used), drawn(data, 0, 60) as nat);
            (Json::String("0x"@ + hex_digits(bytes)), used + more)
        },
        Type::FixedBytes(size) => {
            let (bytes, used) = drawn_bytes(data, size as nat);
            (Json::String("0x"@ + hex_digits(bytes)), used)
        },
        Type::Address => {
            let (bytes, used) = drawn_bytes(data, 20);
            (Json::String(checksum_address(bytes)), used)
        },
        Type::Int(size) => if integer_bytes(size) <= 4 {
            (Json::String(signed_decimal(drawn(data, -10, 10))), bytes_drawn(data, 20))
        } else {
            (Json::String(signed_decimal(drawn(data, -1000, 1000))), bytes_drawn(data, 2000))
        },
        Type::Uint(size) => if integer_bytes(size) <= 4 {
            (Json::String(decimal(drawn(data, 0, 10) as nat)), bytes_drawn(data, 10))
        } else {
            (Json::String(decimal(drawn(data, 0, 1000) as nat)), bytes_drawn(data, 1000))
        },
        _ => (Json::Null, 0),
    }
}

/// How a value of a type is written in an assignment.
pub open spec fn literal(value: Json, ty: Type) -> Seq<char> {
    match value {
        Json::String(s) => if begins_with(s, "0x"@) {
            if ty is Address {
                s
            } else {
                "hex\""@ + s.subrange(2, s.len() as int) + "\""@
            }
        } else if ty is Int || ty is Uint {
            s
        } else {
            "\""@ + s + "\""@
        },
        Json::Number(n) => n,
        Json::Bool(b) => if b {
            "true"@
        } else {
            "false"@
        },
        _ => "0"@,
    }
}

pub(crate) fn push_text(parts: &mut Vec<String>, text: String)
    ensures
        texts(final(parts)@) == texts(old(parts)@).push(text@),
{
    let ghost before = texts(parts@);
    parts.push(text);
    assert(texts(parts@) =~= before.push(text@));
}

impl ContractGenerator {
    /// A generator for a type, without struct definitions.
    pub fn new(typ: Type) -> (r: ContractGenerator)
        ensures
            r.typ == typ,
            r.structs@.len() == 0,
    {
        ContractGenerator { typ, structs: Vec::new() }
    }

    /// Writes a type as it stands in a declaration. Each tuple in it becomes a struct of its own.
    pub fn encode_argument(&mut self, field_name: &str, ty: &Type) -> (r: String)
        ensures
            final(self).typ == old(self).typ,
            r@ == encoded(*ty, texts(old(self).structs@)).0,
            texts(final(self).structs@) == encoded(*ty, texts(old(self).structs@)).1,
        decreases ty, 0nat,
    {
        match ty {
            Type::Tuple(tuple) => {
                let ghost before = texts(self.structs@);
                let fields = self.encode_fields(tuple);
                let mut name: String = "Struct".to_string();
                name.append(decimal_text(self.structs.len() as u128 + 1).as_str());
                let mut definition: String = "struct ".to_string();
                definition.append(name.as_str());
                definition.append(" {\n");
                definition.append(fields.as_str());
                definition.append("    }");
                assert(texts(self.structs@).len() == self.structs@.len());
                assert(encoded_fields(tuple.types@, tuple.types@.len(), before).0 == fields@);
                push_text(&mut self.structs, definition);
                name
            },
            Type::Array(arr) => {
                let mut base = self.encode_argument(field_name, &arr.ty);
                match arr.size {
                    Some(size) => {
                        base.append("[");
                        base.append(decimal_text(size as u128).as_str());
                        base.append("]");
                    },
                    None => {
                        base.append("[]");
                    },
                }
                base
            },
            Type::Mapping(mapping) => {
                let key = self.encode_argument(field_name, &mapping.key);
                let value = self.encode_argument(field_name, &mapping.value);
                let mut out: String = "mapping(".to_string();
                out.append(key.as_str());
                out.append(" => ");
                out.append(value.as_str());
                out.append(")");
                out
            },
            Type::Address => "address".to_string(),
            Type::Bool => "bool".to_string(),
            Type::String => "string".to_string(),
            Type::Bytes => "bytes".to_string(),
            Type::FixedBytes(size) => "bytes".to_string().concat(
                decimal_text(*size as u128).as_str(),
            ),
            Type::Int(Some(bits)) => "int".to_string().concat(decimal_text(*bits as u128).as_str()),
            Type::Int(None) => "int256".to_string(),
            Type::Uint(Some(bits)) => "uint".to_string().concat(
                decimal_text(*bits as u128).as_str(),
            ),
            Type::Uint(None) => "uint256".to_string(),
        }
    }

    fn encode_fields(&mut self, tuple: &TypeTuple) -> (r: String)
        ensures
            final(self).typ == old(self).typ,
            r@ == encoded_fields(tuple.types@, tuple.types@.len(), texts(old(self).structs@)).0,
            texts(final(self).structs@) == encoded_fields(
                tuple.types@,
                tuple.types@.len(),
                texts(old(self).structs@),
            ).1,
        decreases tuple, 0nat,
    {
        let ghost before = texts(self.structs@);
        let ghost typ = self.typ;
        let mut fields: String = String::new();
        let types = &tuple.types;
        let mut i: usize = 0;
        while i < types.len()
            invariant
                i <= types@.len(),
                self.typ == typ,
                fields@ == encoded_fields(types@, i as nat, before).0,
                texts(self.structs@) == encoded_fields(types@, i as nat, before).1,
                decreases_to!(tuple => types@),
            decreases types@.len() - i,
        {
            let name = field_name_text(i);
            let mut field = self.encode_argument(name.as_str(), &types[i].1);
            field.append(" ");
            field.append(name.as_str());
            field.append(";\n");
            fields.append(field.as_str());
            i = i + 1;
        }
        fields
    }
}

fn random_letters(u: &mut Unstructured<'_>, n: usize) -> (r: String)
    ensures
        r@ == drawn_letters(bytes_left(*old(u)), n as nat).0,
        bytes_left(*final(u)) == after(
            bytes_left(*old(u)),
            drawn_letters(bytes_left(*old(u)), n as nat).1,
        ),
{
    let ghost data = bytes_left(*u);
    let alphabet = "abcdefghijklmnopqrstuvwxyz";
    proof {
        reveal_strlit("abcdefghijklmnopqrstuvwxyz");
        assert(after(data, 0) =~= data);
    }
    let mut out: String = String::new();
    let mut i: usize = 0;
    while i < n
        invariant
            i <= n,
            alphabet@ == "abcdefghijklmnopqrstuvwxyz"@,
            alphabet@.len() == 26,
            out@ == drawn_letters(data, i as nat).0,
            bytes_left(*u) == after(data, drawn_letters(data, i as nat).1),
        decreases n - i,
    {
        let ghost before = out@;
        let ghost used = drawn_letters(data, i as nat).1;
        proof {
            lemma_drawn(after(data, used), 97, 122);
            lemma_after_twice(data, used, bytes_drawn(after(data, used), 25));
        }
        let code: i32 = match int_in_range(u, 97, 122) {
            Some(code) => code,
            None => 120,
        };
        let k: usize = (code - 97) as usize;
        out.append(alphabet.substring_char(k, k + 1));
        assert(out@ =~= before.push(alphabet@[k as int]));
        i = i + 1;
    }
    out
}

fn random_bytes(u: &mut Unstructured<'_>, n: usize) -> (r: Vec<u8>)
    ensures
        r@ == drawn_bytes(bytes_left(*old(u)), n as nat).0,
        r@.len() == n,
        bytes_left(*final(u)) == after(
            bytes_left(*old(u)),
            drawn_bytes(bytes_left(*old(u)), n as nat).1,
        ),
{
    let ghost data = bytes_left(*u);
    assert(after(data, 0) =~= data);
    let mut out: Vec<u8> = Vec::new();
    let mut i: usize = 0;
    while i < n
        invariant
            i <= n,
            out@.len() == i,
            out@ == drawn_bytes(data, i as nat).0,
            bytes_left(*u) == after(data, drawn_bytes(data, i as nat).1),
        decreases n - i,
    {
        let ghost used = drawn_bytes(data, i as nat).1;
        proof {
            lemma_drawn(after(data, used), 0, 255);
            lemma_after_twice(data, used, bytes_drawn(after(data, used), 255));
        }
        let byte: i32 = match int_in_range(u, 0, 255) {
            Some(byte) => byte,
            None => 0,
        };
        out.push(byte as u8);
        i = i + 1;
    }
    out
}

fn random_length(u: &mut Unstructured<'_>) -> (r: usize)
    ensures
        r == drawn(bytes_left(*old(u)), 0, 60),
        bytes_left(*final(u)) == after(
            bytes_left(*old(u)),
            bytes_drawn(bytes_left(*old(u)), 60),
        ),
{
    proof {
        lemma_drawn(bytes_left(*u), 0, 60);
    }
    match int_in_range(u, 0, 60) {
        Some(n) => n as usize,
        None => 10,
    }
}

fn random_number(u: &mut Unstructured<'_>, lo: i32, hi: i32) -> (r: i32)
    requires
        lo <= 0 <= hi,
    ensures
        r == drawn(bytes_left(*old(u)), lo as int, hi as int),
        lo <= r <= hi,
        bytes_left(*final(u)) == after(
            bytes_left(*old(u)),
            bytes_drawn(bytes_left(*old(u)), (hi - lo) as nat),
        ),
{
    proof {
        lemma_drawn(bytes_left(*u), lo as int, hi as int);
    }
    match int_in_range(u, lo, hi) {
        Some(n) => n,
        None => 0,
    }
}

/// Draws a value of a simple type; for another type there is none.
pub fn generate_random_value(u: &mut Unstructured<'_>, ty: &Type) -> (r: JsonValue)
    ensures
        r@ == drawn_value(*ty, bytes_left(*old(u))).0,
        bytes_left(*final(u)) == after(
            bytes_left(*old(u)),
            drawn_value(*ty, bytes_left(*old(u))).1,
        ),
        r is Bool || r is String || r is Null,
{
    let ghost data = bytes_left(*u);
    match ty {
        Type::Bool => JsonValue::Bool(
            match arbitrary_bool(u) {
                Some(value) => value,
                None => false,
            },
        ),
        Type::String => {
            let n: usize = random_length(u);
            let ghost used = bytes_drawn(data, 60);
            proof {
                lemma_after_twice(data, used, drawn_letters(after(data, used), n as nat).1);
            }
            JsonValue::String(random_letters(u, n))
        },
        Type::Bytes => {
            let n: usize = random_length(u);
            let ghost used = bytes_drawn(data, 60);
            proof {
                lemma_after_twice(data, used, drawn_bytes(after(data, used), n as nat).1);
            }
            let bytes = random_bytes(u, n);
            JsonValue::String("0x".to_string().concat(hex_text(bytes.as_slice()).as_str()))
        },
        Type::FixedBytes(size) => {
            let bytes = random_bytes(u, *size as usize);
            JsonValue::String("0x".to_string().concat(hex_text(bytes.as_slice()).as_str()))
        },
        Type::Address => {
            let bytes = random_bytes(u, 20);
            JsonValue::String(address_text(bytes.as_slice()))
        },
        Type::Int(_) => {
            let n: i32 = if small_integer(ty) {
                random_number(u, -10, 10)
            } else {
                random_number(u, -1000, 1000)
            };
            JsonValue::String(signed_decimal_text(n as i128))
        },
        Type::Uint(_) => {
            let n: i32 = if small_integer(ty) {
                random_number(u, 0, 10)
            } else {
                random_number(u, 0, 1000)
            };
            JsonValue::String(decimal_text(n as u128))
        },
        _ => {
            assert(after(data, 0) =~= data);
            JsonValue::Null
        },
    }
}

fn small_integer(ty: &Type) -> (r: bool)
    requires
        ty is Int || ty is Uint,
    ensures
        ty is Int ==> r == (integer_bytes(ty->Int_0) <= 4),
        ty is Uint ==> r == (integer_bytes(ty->Uint_0) <= 4),
{
    ty.get_bytes() <= 4
}

/// Writes a value of a type as it stands in an assignment.
pub fn value_to_literal(value: &JsonValue, ty: &Type) -> (r: String)
    ensures
        r@ == literal(value@, *ty),
{
    proof {
        reveal_strlit("0x");
    }
    match value {
        JsonValue::String(s) => if starts_with(s.as_str(), "0x") {
            match ty {
                Type::Address => s.clone(),
                _ => {
                    let mut out: String = "hex\"".to_string();
                    out.append(s.as_str().substring_char(2, s.as_str().unicode_len()));
                    out.append("\"");
                    out
                },
            }
        } else {
            match ty {
                Type::Int(_) | Type::Uint(_) => s.clone(),
                _ => {
                    let mut out: String = "\"".to_string();
                    out.append(s.as_str());
                    out.append("\"");
                    out
                },
            }
        },
        JsonValue::Number(n) => n.clone(),
        JsonValue::Bool(b) => if *b {
            "true".to_string()
        } else {
            "false".to_string()
        },
        _ => "0".to_string(),
    }
}

/// The statements that set the variable `name` in storage, the value that it then holds, and how
/// many bytes are used to draw it.
pub open spec fn generated(name: Seq<char>, ty: Type, data: Seq<u8>) -> (Seq<char>, Json, nat)
    decreases ty, 0nat, 0nat,
{
    match ty {
        Type::Array(arr) => {
            let (setup, values, used) = match arr.size {
                Some(size) => generated_elements(name, *arr.ty, size as nat, data),
                None => generated_pushes(name, *arr.ty, 2, data),
            };
            (trimmed(setup), Json::Array(values), used)
        },
        Type::Tuple(tuple) => {
            let (setup, values, used) = generated_fields(
                name,
                tuple.types@,
                tuple.types@.len(),
                data,
            );
            (trimmed(setup), Json::Object(values), used)
        },
        Type::Mapping(mapping) => {
            let (setup, values, used) = generated_pairs(name, mapping, 2, data);
            (trimmed(setup), Json::Object(values), used)
        },
        _ => {
            let (value, used) = drawn_value(ty, data);
            (name + " = "@ + literal(value, ty) + ";"@, value, used)
        },
    }
}

/// The element of the array `name` at `i`.
pub open spec fn element_name(name: Seq<char>, i: nat) -> Seq<char> {
    name + "["@ + decimal(i) + "]"@
}

/// The field of the struct `name` with the number `i`.
pub open spec fn member_name(name: Seq<char>, i: nat) -> Seq<char> {
    name + "."@ + field_name(i)
}

/// The first `n` elements of a fixed-size array.
pub open spec fn generated_elements(name: Seq<char>, ty: Type, n: nat, data: Seq<u8>) -> (
    Seq<char>,
    Seq<Json>,
    nat,
)
    decreases ty, 1nat, n,
{
    if n == 0 {
        (Seq::empty(), Seq::empty(), 0)
    } else {
        let (before, values, used) = generated_elements(name, ty, (n - 1) as nat, data);
        let (setup, value, more) = generated(
            element_name(name, (n - 1) as nat),
            ty,
            after(data, used),
        );
        (before + setup + "\n"@, values.push(value), used + more)
    }
}

/// The first `n` elements of a dynamic array, each of which is pushed first.
pub open spec fn generated_pushes(name: Seq<char>, ty: Type, n: nat, data: Seq<u8>) -> (
    Seq<char>,
    Seq<Json>,
    nat,
)
    decreases ty, 1nat, n,
{
    if n == 0 {
        (Seq::empty(), Seq::empty(), 0)
    } else {
        let (before, values, used) = generated_pushes(name, ty, (n - 1) as nat, data);
        let (setup, value, more) = generated(
            name + "["@ + name + ".length - 1]"@,
            ty,
            after(data, used),
        );
        (before + name + ".push();\n"@ + setup + "\n"@, values.push(value), used + more)
    }
}

/// The first `n` fields of a struct.
pub open spec fn generated_fields(
    name: Seq<char>,
    types: Seq<(String, Type)>,
    n: nat,
    data: Seq<u8>,
) -> (Seq<char>, Map<Seq<char>, Json>, nat)
    decreases types, 0nat, n,
{
    if n == 0 || n > types.len() {
        (Seq::empty(), Map::empty(), 0)
    } else {
        let (before, values, used) = generated_fields(name, types, (n - 1) as nat, data);
        let (setup, value, more) = generated(
            member_name(name, (n - 1) as nat),
            types[n - 1].1,
            after(data, used),
        );
        (
            before + setup + "\n"@,
            values.insert(field_name((n - 1) as nat), value),
            used + more,
        )
    }
}

/// The key of a mapping, as it is written in JSON.
pub open spec fn key_text(key: Json) -> Seq<char> {
    match key {
        Json::String(s) => json_quoted(s),
        Json::Bool(b) => if b {
            "true"@
        } else {
            "false"@
        },
        _ => "null"@,
    }
}

/// The first `n` pairs of a mapping.
pub open spec fn generated_pairs(name: Seq<char>, mapping: TypeMapping, n: nat, data: Seq<u8>) -> (
    Seq<char>,
    Map<Seq<char>, Json>,
    nat,
)
    decreases mapping, 1nat, n,
{
    if n == 0 {
        (Seq::empty(), Map::empty(), 0)
    } else {
        let (before, values, used) = generated_pairs(name, mapping, (n - 1) as nat, data);
        let (key, key_used) = drawn_value(*mapping.key, after(data, used));
        let (setup, value, more) = generated(
            name + "["@ + literal(key, *mapping.key) + "]"@,
            *mapping.value,
            after(data, used + key_used),
        );
        (
            before + setup + "\n"@,
            values.insert(key_text(key), value),
            used + key_used + more,
        )
    }
}

/// What is generated says this.
pub open spec fn says(r: SolidityValue, model: (Seq<char>, Json, nat)) -> bool {
    r.setup_code@ == model.0 && r.value@ == model.1
}

pub(crate) fn element_name_text(name: &str, i: usize) -> (r: String)
    ensures
        r@ == element_name(name@, i as nat),
{
    let mut out: String = name.to_string();
    out.append("[");
    out.append(decimal_text(i as u128).as_str());
    out.append("]");
    out
}

pub(crate) fn member_name_text(name: &str, i: usize) -> (r: String)
    ensures
        r@ == member_name(name@, i as nat),
{
    let mut out: String = name.to_string();
    out.append(".");
    out.append(field_name_text(i).as_str());
    out
}

/// `name = value;`, for a value that is drawn.
pub(crate) fn assign(u: &mut Unstructured<'_>, name: &str, ty: &Type) -> (r: SolidityValue)
    ensures
        ({
            let (value, used) = drawn_value(*ty, bytes_left(*old(u)));
            &&& says(r, (name@ + " = "@ + literal(value, *ty) + ";"@, value, used))
            &&& bytes_left(*final(u)) == after(bytes_left(*old(u)), used)
        }),
{
    let value = generate_random_value(u, ty);
    let mut setup_code: String = name.to_string();
    setup_code.append(" = ");
    setup_code.append(value_to_literal(&value, ty).as_str());
    setup_code.append(";");
    SolidityValue { setup_code, value }
}

pub(crate) fn push_value(values: &mut Vec<JsonValue>, value: JsonValue)
    ensures
        json_models(final(values)@) == json_models(old(values)@).push(value@),
{
    let ghost before = json_models(values@);
    values.push(value);
    assert(json_models(values@) =~= before.push(value@));
}

pub(crate) fn generate_value(u: &mut Unstructured<'_>, name: &str, ty: &Type) -> (r: SolidityValue)
    ensures
        says(r, generated(name@, *ty, bytes_left(*old(u)))),
        bytes_left(*final(u)) == after(
            bytes_left(*old(u)),
            generated(name@, *ty, bytes_left(*old(u))).2,
        ),
    decreases ty, 0nat,
{
    match ty {
        Type::Array(arr) => generate_array_value(u, name, arr),
        Type::Tuple(tuple) => generate_struct_value(u, name, tuple),
        Type::Mapping(mapping) => generate_mapping_value(u, name, mapping),
        _ => assign(u, name, ty),
    }
}

fn generate_array_value(u: &mut Unstructured<'_>, name: &str, arr: &TypeArray) -> (r: SolidityValue)
    ensures
        says(r, generated(name@, Type::Array(*arr), bytes_left(*old(u)))),
        bytes_left(*final(u)) == after(
            bytes_left(*old(u)),
            generated(name@, Type::Array(*arr), bytes_left(*old(u))).2,
        ),
    decreases arr, 0nat,
{
    let ghost data = bytes_left(*u);
    let mut setup: String = String::new();
    let mut values: Vec<JsonValue> = Vec::new();
    assert(json_models(values@) =~= Seq::<Json>::empty());
    assert(after(data, 0) =~= data);
    match arr.size {
        Some(size) => {
            let mut i: u16 = 0;
            while i < size
                invariant
                    i <= size,
                    setup@ == generated_elements(name@, *arr.ty, i as nat, data).0,
                    json_models(values@) == generated_elements(name@, *arr.ty, i as nat, data).1,
                    bytes_left(*u) == after(
                        data,
                        generated_elements(name@, *arr.ty, i as nat, data).2,
                    ),
                decreases size - i,
            {
                let ghost used = generated_elements(name@, *arr.ty, i as nat, data).2;
                let at = element_name_text(name, i as usize);
                proof {
                    lemma_after_twice(
                        data,
                        used,
                        generated(at@, *arr.ty, after(data, used)).2,
                    );
                }
                let element = generate_value(u, at.as_str(), &arr.ty);
                setup.append(element.setup_code.as_str());
                setup.append("\n");
                push_value(&mut values, element.value);
                i = i + 1;
            }
        },
        None => {
            let mut i: u16 = 0;
            while i < 2
                invariant
                    i <= 2,
                    setup@ == generated_pushes(name@, *arr.ty, i as nat, data).0,
                    json_models(values@) == generated_pushes(name@, *arr.ty, i as nat, data).1,
                    bytes_left(*u) == after(
                        data,
                        generated_pushes(name@, *arr.ty, i as nat, data).2,
                    ),
                decreases 2 - i,
            {
                let ghost used = generated_pushes(name@, *arr.ty, i as nat, data).2;
                setup.append(name);
                setup.append(".push();\n");
                let mut at: String = name.to_string();
                at.append("[");
                at.append(name);
                at.append(".length - 1]");
                proof {
                    lemma_after_twice(
                        data,
                        used,
                        generated(at@, *arr.ty, after(data, used)).2,
                    );
                }
                let element = generate_value(u, at.as_str(), &arr.ty);
                setup.append(element.setup_code.as_str());
                setup.append("\n");
                push_value(&mut values, element.value);
                i = i + 1;
            }
        },
    }
    proof {
        lemma_array_model(values);
    }
    SolidityValue {
        setup_code: trim_end(setup.as_str()).to_string(),
        value: JsonValue::Array(values),
    }
}

fn generate_struct_value(u: &mut Unstructured<'_>, name: &str, tuple: &TypeTuple) -> (r:
    SolidityValue)
    ensures
        says(r, generated(name@, Type::Tuple(*tuple), bytes_left(*old(u)))),
        bytes_left(*final(u)) == after(
            bytes_left(*old(u)),
            generated(name@, Type::Tuple(*tuple), bytes_left(*old(u))).2,
        ),
    decreases tuple, 0nat,
{
    let ghost data = bytes_left(*u);
    let mut setup: String = String::new();
    let mut values = JsonObject::new();
    assert(after(data, 0) =~= data);
    let types = &tuple.types;
    let mut i: usize = 0;
    while i < types.len()
        invariant
            i <= types@.len(),
            setup@ == generated_fields(name@, types@, i as nat, data).0,
            values@ == generated_fields(name@, types@, i as nat, data).1,
            bytes_left(*u) == after(data, generated_fields(name@, types@, i as nat, data).2),
            decreases_to!(tuple => types@),
        decreases types@.len() - i,
    {
        let ghost used = generated_fields(name@, types@, i as nat, data).2;
        let at = member_name_text(name, i);
        proof {
            lemma_after_twice(
                data,
                used,
                generated(at@, types@[i as int].1, after(data, used)).2,
            );
        }
        let field = generate_value(u, at.as_str(), &types[i].1);
        setup.append(field.setup_code.as_str());
        setup.append("\n");
        values.insert(field_name_text(i), field.value);
        i = i + 1;
    }
    SolidityValue {
        setup_code: trim_end(setup.as_str()).to_string(),
        value: JsonValue::Object(values),
    }
}

fn write_key(key: &JsonValue) -> (r: String)
    ensures
        r@ == key_text(key@),
{
    match key {
        JsonValue::String(s) => quoted_text(s.as_str()),
        JsonValue::Bool(b) => if *b {
            "true".to_string()
        } else {
            "false".to_string()
        },
        _ => "null".to_string(),
    }
}

fn generate_mapping_value(u: &mut Unstructured<'_>, name: &str, mapping: &TypeMapping) -> (r:
    SolidityValue)
    ensures
        says(r, generated(name@, Type::Mapping(*mapping), bytes_left(*old(u)))),
        bytes_left(*final(u)) == after(
            bytes_left(*old(u)),
            generated(name@, Type::Mapping(*mapping), bytes_left(*old(u))).2,
        ),
    decreases mapping, 0nat,
{
    let ghost data = bytes_left(*u);
    let mut setup: String = String::new();
    let mut values = JsonObject::new();
    assert(after(data, 0) =~= data);
    let mut i: usize = 0;
    while i < 2
        invariant
            i <= 2,
            setup@ == generated_pairs(name@, *mapping, i as nat, data).0,
            values@ == generated_pairs(name@, *mapping, i as nat, data).1,
            bytes_left(*u) == after(data, generated_pairs(name@, *mapping, i as nat, data).2),
        decreases 2 - i,
    {
        let ghost used = generated_pairs(name@, *mapping, i as nat, data).2;
        let ghost key_used = drawn_value(*mapping.key, after(data, used)).1;
        proof {
            lemma_after_twice(data, used, key_used);
        }
        let key = generate_random_value(u, &mapping.key);
        let mut at: String = name.to_string();
        at.append("[");
        at.append(value_to_literal(&key, &mapping.key).as_str());
        at.append("]");
        proof {
            lemma_after_twice(
                data,
                used + key_used,
                generated(at@, *mapping.value, after(data, used + key_used)).2,
            );
        }
        let value = generate_value(u, at.as_str(), &mapping.value);
        setup.append(value.setup_code.as_str());
        setup.append("\n");
        values.insert(write_key(&key), value.value);
        i = i + 1;
    }
    SolidityValue {
        setup_code: trim_end(setup.as_str()).to_string(),
        value: JsonValue::Object(values),
    }
}

} // verus!
