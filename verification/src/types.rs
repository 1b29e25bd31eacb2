//! Solidity types and the decoding of their elementary values.

use vstd::prelude::*;
use vstd::string::StringExecFns;
use vstd::utf8::*;

use crate::json::{Json, JsonValue};
use crate::primitives::{
    address_text, be_i128, be_signed_value, be_value, checksum_address, hex_text, int256_text,
    uint_text, utf8_text,
};
use crate::text::{decimal, hex_digits, signed_decimal, signed_decimal_text};

verus! {

/// A Solidity type.
#[derive(Debug, PartialEq)]
pub enum Type {
    /// `address $(payable)?`
    Address,
    /// `bool`
    Bool,
    /// `string`
    String,
    /// `bytes`
    Bytes,
    /// `bytes<size>`
    FixedBytes(u16),
    /// `int[size]`
    Int(Option<u16>),
    /// `uint[size]`
    Uint(Option<u16>),
    /// `$ty[$($size)?]`
    Array(TypeArray),
    /// `$(tuple)? ( $($types,)* )`
    Tuple(TypeTuple),
    /// `mapping($key $($key_name)? => $value $($value_name)?)`
    Mapping(TypeMapping),
}

/// An array type, of fixed or dynamic size.
#[derive(Debug, PartialEq)]
pub struct TypeArray {
    pub ty: Box<Type>,
    pub size: Option<u16>,
}

/// A tuple type.
#[derive(Debug, PartialEq)]
pub struct TypeTuple {
    pub types: Vec<(String, Type)>,
}

/// A mapping type.
#[derive(Debug, PartialEq)]
pub struct TypeMapping {
    pub key: Box<Type>,
    pub value: Box<Type>,
}

/// A type with its names taken as texts.
pub enum TypeModel {
    Address,
    Bool,
    String,
    Bytes,
    FixedBytes(u16),
    Int(Option<u16>),
    Uint(Option<u16>),
    Array(Box<TypeModel>, Option<u16>),
    Tuple(Seq<(Seq<char>, TypeModel)>),
    Mapping(Box<TypeModel>, Box<TypeModel>),
}

impl View for Type {
    type V = TypeModel;

    open spec fn view(&self) -> TypeModel {
        type_model(*self)
    }
}

/// What `ty` says.
pub open spec fn type_model(ty: Type) -> TypeModel
    decreases ty,
{
    match ty {
        Type::Address => TypeModel::Address,
        Type::Bool => TypeModel::Bool,
        Type::String => TypeModel::String,
        Type::Bytes => TypeModel::Bytes,
        Type::FixedBytes(size) => TypeModel::FixedBytes(size),
        Type::Int(size) => TypeModel::Int(size),
        Type::Uint(size) => TypeModel::Uint(size),
        Type::Array(arr) => TypeModel::Array(Box::new(type_model(*arr.ty)), arr.size),
        Type::Tuple(tuple) => TypeModel::Tuple(
            Seq::new(
                tuple.types@.len(),
                |i: int|
                    if 0 <= i < tuple.types@.len() {
                        (tuple.types@[i].0@, type_model(tuple.types@[i].1))
                    } else {
                        (Seq::empty(), TypeModel::Address)
                    },
            ),
        ),
        Type::Mapping(mapping) => TypeModel::Mapping(
            Box::new(type_model(*mapping.key)),
            Box::new(type_model(*mapping.value)),
        ),
    }
}

/// The names and types of the members.
pub open spec fn member_models(types: Seq<(String, Type)>) -> Seq<(Seq<char>, TypeModel)> {
    types.map_values(|m: (String, Type)| (m.0@, type_model(m.1)))
}

pub proof fn lemma_tuple_model(tuple: TypeTuple)
    ensures
        type_model(Type::Tuple(tuple)) == TypeModel::Tuple(member_models(tuple.types@)),
{
    let m = type_model(Type::Tuple(tuple));
    assert(m is Tuple);
    assert(m->Tuple_0 =~= member_models(tuple.types@));
}

/// How many bytes a value of the type takes in a storage slot.
pub open spec fn type_bytes(ty: Type) -> nat {
    match ty {
        Type::Address => 20,
        Type::Bool => 1,
        Type::FixedBytes(size) => size as nat,
        Type::Int(Some(bits)) | Type::Uint(Some(bits)) => bits as nat / 8,
        _ => 32,
    }
}

/// Whether the elements of an array of this type each start a slot of their own.
pub open spec fn type_is_dynamic(ty: Type) -> bool {
    match ty {
        Type::Array(arr) => arr.size is None,
        Type::Tuple(_) | Type::String | Type::Bytes => true,
        _ => false,
    }
}

/// Whether a value of the type stands on its own in one word.
pub open spec fn is_value_type(ty: Type) -> bool {
    ty is Address || ty is Bool || ty is FixedBytes || ty is Uint || ty is Int
}

/// Whether `bytes` is as long as the decoding of an elementary value asks for.
pub open spec fn decodable(ty: Type, bytes: Seq<u8>) -> bool {
    match ty {
        Type::Address => bytes.len() == 20,
        Type::Bool => bytes.len() >= 1,
        Type::Uint(_) => bytes.len() <= 32,
        Type::Int(Some(bits)) => int_size_supported(bits) ==> bytes.len() == bits as nat / 8,
        _ => true,
    }
}

/// The widths of the signed integers that can be decoded.
pub open spec fn int_size_supported(bits: u16) -> bool {
    bits == 8 || bits == 16 || bits == 32 || bits == 64 || bits == 128 || bits == 256
}

/// What `bytes` says when it is read as a value of the elementary type `ty`.
pub open spec fn decoded(ty: Type, bytes: Seq<u8>) -> Result<Json, Seq<char>> {
    match ty {
        Type::Address => Ok(Json::String(checksum_address(bytes))),
        Type::Bool => Ok(Json::Bool(bytes[0] != 0)),
        Type::Uint(_) => Ok(Json::String(decimal(be_value(bytes)))),
        Type::Int(Some(bits)) => if int_size_supported(bits) {
            Ok(Json::String(signed_decimal(be_signed_value(bytes))))
        } else {
            Err("Unsupported int size"@)
        },
        Type::Int(None) => Err("Unsupported int size"@),
        Type::String => if valid_utf8(bytes) {
            Ok(Json::String(decode_utf8(bytes)))
        } else {
            Err("Failed to convert bytes to string"@)
        },
        Type::FixedBytes(_) | Type::Bytes => Ok(Json::String("0x"@ + hex_digits(bytes))),
        _ => Err("Unsupported type"@),
    }
}

/// What a decoding result says.
pub open spec fn decode_model(r: Result<JsonValue, String>) -> Result<Json, Seq<char>> {
    match r {
        Ok(v) => Ok(v@),
        Err(e) => Err(e@),
    }
}

impl Type {
    /// Reads `bytes` as a value of this elementary type. Bytes of a length that the type
    /// does not have are ruled out, as are indices past the end.
    pub fn decode_bytes(&self, bytes: &[u8]) -> (r: Result<JsonValue, String>)
        requires
            decodable(*self, bytes@),
        ensures
            decode_model(r) == decoded(*self, bytes@),
    {
        match self {
            Type::Address => Ok(JsonValue::String(address_text(bytes))),
            Type::Bool => Ok(JsonValue::Bool(bytes[0] != 0)),
            Type::Uint(_) => Ok(JsonValue::String(uint_text(bytes))),
            Type::Int(size) => match size {
                Some(bits) => {
                    let bits: u16 = *bits;
                    if bits == 8 || bits == 16 || bits == 32 || bits == 64 || bits == 128 {
                        Ok(JsonValue::String(signed_decimal_text(be_i128(bytes))))
                    } else if bits == 256 {
                        Ok(JsonValue::String(int256_text(bytes)))
                    } else {
                        Err("Unsupported int size".to_string())
                    }
                },
                None => Err("Unsupported int size".to_string()),
            },
            Type::String => {
                match utf8_text(vstd::slice::slice_to_vec(bytes)) {
                    Some(s) => Ok(JsonValue::String(s)),
                    None => Err("Failed to convert bytes to string".to_string()),
                }
            },
            Type::FixedBytes(_) | Type::Bytes => Ok(
                JsonValue::String("0x".to_string().concat(hex_text(bytes).as_str())),
            ),
            _ => Err("Unsupported type".to_string()),
        }
    }

    /// How many bytes a value of this type takes in a storage slot.
    pub fn get_bytes(&self) -> (r: u32)
        ensures
            r as nat == type_bytes(*self),
            r <= 0xffff,
    {
        match self {
            Type::Address => 20,
            Type::Bool => 1,
            Type::FixedBytes(size) => *size as u32,
            Type::Int(size) => match size {
                Some(bits) => (*bits as u32) / 8,
                None => 32,
            },
            Type::Uint(size) => match size {
                Some(bits) => (*bits as u32) / 8,
                None => 32,
            },
            Type::String | Type::Bytes | Type::Array(_) | Type::Tuple(_) | Type::Mapping(_) => 32,
        }
    }

    /// Whether the elements of an array of this type each start a slot of their own.
    pub fn is_dynamic(&self) -> (r: bool)
        ensures
            r == type_is_dynamic(*self),
    {
        match self {
            Type::Array(arr) => arr.size.is_none(),
            Type::Tuple(_) => true,
            Type::String => true,
            Type::Bytes => true,
            _ => false,
        }
    }
}

} // verus!
