//! Types that are drawn from raw bytes.

use arbitrary::Unstructured;
use vstd::prelude::*;
use vstd::std_specs::convert::FromSpecImpl;
use vstd::string::StringExecFns;

use crate::text::{decimal, decimal_text};
use crate::types::{
    lemma_tuple_model, member_models, Type, TypeArray, TypeMapping, TypeModel, TypeTuple,
};
use crate::unstructured::{
    after, arbitrary_bool, bytes_drawn, bytes_left, choose_one, drawn, int_in_range,
    lemma_after_twice, lemma_drawn,
};

verus! {

/// The sizes that integers are drawn with, in bits.
pub open spec fn integer_sizes() -> Seq<u16> {
    seq![8u16, 16, 32, 64, 128, 256]
}

/// A size for an integer.
pub open spec fn drawn_size(data: Seq<u8>) -> (u16, nat) {
    (integer_sizes()[drawn(data, 0, 5)], bytes_drawn(data, 5))
}

/// Whether an array is drawn with a size, and how many bytes that takes.
pub open spec fn drawn_flag(data: Seq<u8>) -> (bool, nat) {
    if data.len() > 0 {
        (data[0] % 2 == 1, 1)
    } else {
        (false, 0)
    }
}

/// A type, and how many bytes are used to draw it. No mapping is drawn.
pub open spec fn drawn_type(data: Seq<u8>) -> (TypeModel, nat)
    decreases data.len(), 1nat, 0nat,
{
    proof {
        lemma_drawn(data, 0, 8);
    }
    let k = drawn(data, 0, 8);
    let used = bytes_drawn(data, 8);
    let rest = after(data, used);
    if k == 0 {
        (TypeModel::Address, used)
    } else if k == 1 {
        (TypeModel::Bool, used)
    } else if k == 2 {
        (TypeModel::String, used)
    } else if k == 3 {
        (TypeModel::Bytes, used)
    } else if k == 4 {
        (TypeModel::FixedBytes(drawn(rest, 1, 32) as u16), used + bytes_drawn(rest, 31))
    } else if k == 5 {
        let (bits, more) = drawn_size(rest);
        (TypeModel::Int(Some(bits)), used + more)
    } else if k == 6 {
        let (bits, more) = drawn_size(rest);
        (TypeModel::Uint(Some(bits)), used + more)
    } else if k == 7 {
        let (ty, more) = drawn_array(rest);
        (ty, used + more)
    } else {
        let (ty, more) = drawn_tuple(rest);
        (ty, used + more)
    }
}

/// An array type: of dynamic size, or of one to nine elements.
pub open spec fn drawn_array(data: Seq<u8>) -> (TypeModel, nat)
    decreases data.len(), 2nat, 0nat,
{
    let (ty, used) = drawn_type(data);
    let (sized, flag) = drawn_flag(after(data, used));
    let rest = after(data, used + flag);
    if sized {
        (
            TypeModel::Array(Box::new(ty), Some(drawn(rest, 1, 9) as u16)),
            used + flag + bytes_drawn(rest, 8),
        )
    } else {
        (TypeModel::Array(Box::new(ty), None), used + flag)
    }
}

/// A tuple type of one to five fields.
pub open spec fn drawn_tuple(data: Seq<u8>) -> (TypeModel, nat)
    decreases data.len(), 3nat, 0nat,
{
    let size = drawn(data, 1, 5);
    let used = bytes_drawn(data, 4);
    let (fields, more) = drawn_fields(after(data, used), size as nat);
    (TypeModel::Tuple(fields), used + more)
}

/// The first `n` fields of a tuple type.
pub open spec fn drawn_fields(data: Seq<u8>, n: nat) -> (Seq<(Seq<char>, TypeModel)>, nat)
    decreases data.len(), 2nat, n,
{
    if n == 0 {
        (Seq::empty(), 0)
    } else {
        let (before, used) = drawn_fields(data, (n - 1) as nat);
        let (ty, more) = drawn_type(after(data, used));
        (before.push((field_name((n - 1) as nat), ty)), used + more)
    }
}

/// The name of the field with this number.
pub open spec fn field_name(i: nat) -> Seq<char> {
    "field_"@ + decimal(i)
}

/// A type that a mapping can have as its key.
pub open spec fn drawn_key(data: Seq<u8>) -> (TypeModel, nat) {
    let k = drawn(data, 0, 5);
    let used = bytes_drawn(data, 5);
    let rest = after(data, used);
    if k == 0 {
        (TypeModel::Address, used)
    } else if k == 1 {
        (TypeModel::String, used)
    } else if k == 2 {
        (TypeModel::Bytes, used)
    } else if k == 3 {
        (TypeModel::FixedBytes(drawn(rest, 1, 9) as u16), used + bytes_drawn(rest, 8))
    } else if k == 4 {
        (TypeModel::Int(Some(drawn_size(rest).0)), used + drawn_size(rest).1)
    } else {
        (TypeModel::Uint(Some(drawn_size(rest).0)), used + drawn_size(rest).1)
    }
}

/// A mapping type, whose key is simple and whose value is any type that is drawn.
pub open spec fn drawn_mapping(data: Seq<u8>) -> (TypeModel, nat) {
    let (key, used) = drawn_key(data);
    let (value, more) = drawn_type(after(data, used));
    (TypeModel::Mapping(Box::new(key), Box::new(value)), used + more)
}


fn choose_size(u: &mut Unstructured<'_>) -> (r: Option<u16>)
    ensures
        r == Some(drawn_size(bytes_left(*old(u))).0),
        bytes_left(*final(u)) == after(bytes_left(*old(u)), drawn_size(bytes_left(*old(u))).1),
{
    let sizes: Vec<u16> = vec![8u16, 16, 32, 64, 128, 256];
    assert(sizes@ =~= integer_sizes());
    choose_one(u, sizes.as_slice())
}

impl Type {
    /// Draws a type. Mappings are left out: what they hold cannot be found without knowing
    /// their keys.
    pub fn arbitrary(u: &mut Unstructured<'_>) -> (r: Option<Type>)
        ensures
            r is Some,
            r->Some_0@ == drawn_type(bytes_left(*old(u))).0,
            bytes_left(*final(u)) == after(bytes_left(*old(u)), drawn_type(bytes_left(*old(u))).1),
        decreases bytes_left(*old(u)).len(), 1nat,
    {
        let ghost data = bytes_left(*u);
        proof {
            lemma_drawn(data, 0, 8);
        }
        let variants: Vec<u16> = vec![0u16, 1, 2, 3, 4, 5, 6, 7, 8];
        let k: u16 = match choose_one(u, variants.as_slice()) {
            Some(k) => k,
            None => {
                return None;
            },
        };
        let ghost used = bytes_drawn(data, 8);
        let ghost rest = bytes_left(*u);
        assert(k == drawn(data, 0, 8));
        if k == 0 {
            Some(Type::Address)
        } else if k == 1 {
            Some(Type::Bool)
        } else if k == 2 {
            Some(Type::String)
        } else if k == 3 {
            Some(Type::Bytes)
        } else if k == 4 {
            proof {
                lemma_drawn(rest, 1, 32);
                lemma_after_twice(data, used, bytes_drawn(rest, 31));
            }
            match int_in_range(u, 1, 32) {
                Some(size) => Some(Type::FixedBytes(size as u16)),
                None => None,
            }
        } else if k == 5 {
            proof {
                lemma_after_twice(data, used, drawn_size(rest).1);
            }
            match choose_size(u) {
                Some(size) => Some(Type::Int(Some(size))),
                None => None,
            }
        } else if k == 6 {
            proof {
                lemma_after_twice(data, used, drawn_size(rest).1);
            }
            match choose_size(u) {
                Some(size) => Some(Type::Uint(Some(size))),
                None => None,
            }
        } else if k == 7 {
            proof {
                lemma_after_twice(data, used, drawn_array(rest).1);
            }
            match TypeArray::arbitrary(u) {
                Some(array) => Some(Type::Array(array)),
                None => None,
            }
        } else {
            proof {
                lemma_after_twice(data, used, drawn_tuple(rest).1);
            }
            match TypeTuple::arbitrary(u) {
                Some(tuple) => Some(Type::Tuple(tuple)),
                None => None,
            }
        }
    }
}

impl TypeArray {
    /// Draws an array type.
    pub fn arbitrary(u: &mut Unstructured<'_>) -> (r: Option<TypeArray>)
        ensures
            r is Some,
            Type::Array(r->Some_0)@ == drawn_array(bytes_left(*old(u))).0,
            bytes_left(*final(u)) == after(
                bytes_left(*old(u)),
                drawn_array(bytes_left(*old(u))).1,
            ),
        decreases bytes_left(*old(u)).len(), 2nat,
    {
        let ghost data = bytes_left(*u);
        let ty = match Type::arbitrary(u) {
            Some(ty) => ty,
            None => {
                return None;
            },
        };
        let ghost used = drawn_type(data).1;
        let ghost flag = drawn_flag(after(data, used)).1;
        proof {
            lemma_after_twice(data, used, flag);
        }
        let has_size: bool = match arbitrary_bool(u) {
            Some(has_size) => has_size,
            None => {
                return None;
            },
        };
        let ghost rest = bytes_left(*u);
        let size: Option<u16> = if has_size {
            proof {
                lemma_drawn(rest, 1, 9);
                lemma_after_twice(data, used + flag, bytes_drawn(rest, 8));
            }
            match int_in_range(u, 1, 9) {
                Some(size) => Some(size as u16),
                None => {
                    return None;
                },
            }
        } else {
            None
        };
        Some(TypeArray { ty: Box::new(ty), size })
    }
}

/// Writes the name of the field with this number.
pub(crate) fn field_name_text(i: usize) -> (r: String)
    ensures
        r@ == field_name(i as nat),
{
    "field_".to_string().concat(decimal_text(i as u128).as_str())
}

impl TypeTuple {
    /// Draws a tuple type.
    pub fn arbitrary(u: &mut Unstructured<'_>) -> (r: Option<TypeTuple>)
        ensures
            r is Some,
            Type::Tuple(r->Some_0)@ == drawn_tuple(bytes_left(*old(u))).0,
            bytes_left(*final(u)) == after(
                bytes_left(*old(u)),
                drawn_tuple(bytes_left(*old(u))).1,
            ),
        decreases bytes_left(*old(u)).len(), 3nat,
    {
        let ghost data = bytes_left(*u);
        proof {
            lemma_drawn(data, 1, 5);
        }
        let size: usize = match int_in_range(u, 1, 5) {
            Some(size) => size as usize,
            None => {
                return None;
            },
        };
        let ghost used = bytes_drawn(data, 4);
        let ghost rest = bytes_left(*u);
        let mut types: Vec<(String, Type)> = Vec::new();
        assert(member_models(types@) =~= Seq::<(Seq<char>, TypeModel)>::empty());
        assert(after(rest, 0) =~= rest);
        let mut i: usize = 0;
        while i < size
            invariant
                i <= size,
                rest.len() <= data.len(),
                data == bytes_left(*old(u)),
                member_models(types@) == drawn_fields(rest, i as nat).0,
                bytes_left(*u) == after(rest, drawn_fields(rest, i as nat).1),
            decreases size - i,
        {
            let ghost before = member_models(types@);
            let ghost so_far = drawn_fields(rest, i as nat).1;
            match Type::arbitrary(u) {
                Some(ty) => {
                    proof {
                        lemma_after_twice(rest, so_far, drawn_type(after(rest, so_far)).1);
                    }
                    let ghost added = (field_name(i as nat), ty@);
                    types.push((field_name_text(i), ty));
                    assert(member_models(types@) =~= before.push(added));
                },
                None => {
                    return None;
                },
            }
            i = i + 1;
        }
        proof {
            lemma_after_twice(data, used, drawn_fields(rest, size as nat).1);
        }
        let tuple = TypeTuple { types };
        proof {
            lemma_tuple_model(tuple);
        }
        Some(tuple)
    }
}

impl TypeMapping {
    /// Draws a mapping type.
    pub fn arbitrary(u: &mut Unstructured<'_>) -> (r: Option<TypeMapping>)
        ensures
            r is Some,
            Type::Mapping(r->Some_0)@ == drawn_mapping(bytes_left(*old(u))).0,
            bytes_left(*final(u)) == after(
                bytes_left(*old(u)),
                drawn_mapping(bytes_left(*old(u))).1,
            ),
    {
        let ghost data = bytes_left(*u);
        let key = match arbitrary_key(u) {
            Some(key) => key,
            None => {
                return None;
            },
        };
        let ghost used = drawn_key(data).1;
        proof {
            lemma_after_twice(data, used, drawn_type(after(data, used)).1);
        }
        match Type::arbitrary(u) {
            Some(value) => Some(TypeMapping { key: Box::new(key), value: Box::new(value) }),
            None => None,
        }
    }
}

fn arbitrary_key(u: &mut Unstructured<'_>) -> (r: Option<Type>)
    ensures
        r is Some,
        r->Some_0@ == drawn_key(bytes_left(*old(u))).0,
        bytes_left(*final(u)) == after(bytes_left(*old(u)), drawn_key(bytes_left(*old(u))).1),
{
    let ghost data = bytes_left(*u);
    proof {
        lemma_drawn(data, 0, 5);
    }
    let variants: Vec<u16> = vec![0u16, 1, 2, 3, 4, 5];
    let k: u16 = match choose_one(u, variants.as_slice()) {
        Some(k) => k,
        None => {
            return None;
        },
    };
    let ghost used = bytes_drawn(data, 5);
    let ghost rest = bytes_left(*u);
    assert(k == drawn(data, 0, 5));
    if k == 0 {
        Some(Type::Address)
    } else if k == 1 {
        Some(Type::String)
    } else if k == 2 {
        Some(Type::Bytes)
    } else if k == 3 {
        proof {
            lemma_drawn(rest, 1, 9);
            lemma_after_twice(data, used, bytes_drawn(rest, 8));
        }
        match int_in_range(u, 1, 9) {
            Some(size) => Some(Type::FixedBytes(size as u16)),
            None => None,
        }
    } else {
        proof {
            lemma_after_twice(data, used, drawn_size(rest).1);
        }
        match choose_size(u) {
            Some(size) => if k == 4 {
                Some(Type::Int(Some(size)))
            } else {
                Some(Type::Uint(Some(size)))
            },
            None => None,
        }
    }
}

/// A type that is only allocated in memory.
#[derive(Debug, PartialEq)]
pub enum MemoryType {
    /// `$ty[$($size)?]`
    Array(TypeArray),
    /// `$(tuple)? ( $($types,)* )`
    Tuple(TypeTuple),
}

impl From<MemoryType> for Type {
    fn from(memory_type: MemoryType) -> (r: Type) {
        match memory_type {
            MemoryType::Array(array) => Type::Array(array),
            MemoryType::Tuple(tuple) => Type::Tuple(tuple),
        }
    }
}

impl FromSpecImpl<MemoryType> for Type {
    open spec fn obeys_from_spec() -> bool {
        true
    }

    open spec fn from_spec(memory_type: MemoryType) -> Type {
        match memory_type {
            MemoryType::Array(array) => Type::Array(array),
            MemoryType::Tuple(tuple) => Type::Tuple(tuple),
        }
    }
}

/// The type that a memory type stands for.
pub open spec fn memory_model(memory_type: MemoryType) -> TypeModel {
    match memory_type {
        MemoryType::Array(array) => Type::Array(array)@,
        MemoryType::Tuple(tuple) => Type::Tuple(tuple)@,
    }
}

/// An array or a tuple.
pub open spec fn drawn_memory(data: Seq<u8>) -> (TypeModel, nat) {
    let used = bytes_drawn(data, 1);
    let rest = after(data, used);
    if drawn(data, 0, 1) == 0 {
        (drawn_array(rest).0, used + drawn_array(rest).1)
    } else {
        (drawn_tuple(rest).0, used + drawn_tuple(rest).1)
    }
}

/// The first `n` members of a tuple of memory types, without names.
pub open spec fn drawn_memories(data: Seq<u8>, n: nat) -> (Seq<(Seq<char>, TypeModel)>, nat)
    decreases n,
{
    if n == 0 {
        (Seq::empty(), 0)
    } else {
        let (before, used) = drawn_memories(data, (n - 1) as nat);
        let (ty, more) = drawn_memory(after(data, used));
        (before.push((""@, ty)), used + more)
    }
}

/// A tuple of one to five memory types.
pub open spec fn drawn_memory_tuple(data: Seq<u8>) -> (TypeModel, nat) {
    let used = bytes_drawn(data, 4);
    let (members, more) = drawn_memories(after(data, used), drawn(data, 1, 5) as nat);
    (TypeModel::Tuple(members), used + more)
}

impl MemoryType {
    /// Draws a memory type.
    pub fn arbitrary(u: &mut Unstructured<'_>) -> (r: Option<MemoryType>)
        ensures
            r is Some,
            memory_model(r->Some_0) == drawn_memory(bytes_left(*old(u))).0,
            bytes_left(*final(u)) == after(
                bytes_left(*old(u)),
                drawn_memory(bytes_left(*old(u))).1,
            ),
    {
        let ghost data = bytes_left(*u);
        proof {
            lemma_drawn(data, 0, 1);
        }
        let variants: Vec<u16> = vec![0u16, 1];
        let k: u16 = match choose_one(u, variants.as_slice()) {
            Some(k) => k,
            None => {
                return None;
            },
        };
        let ghost used = bytes_drawn(data, 1);
        let ghost rest = bytes_left(*u);
        assert(k == drawn(data, 0, 1));
        if k == 0 {
            proof {
                lemma_after_twice(data, used, drawn_array(rest).1);
            }
            match TypeArray::arbitrary(u) {
                Some(array) => Some(MemoryType::Array(array)),
                None => None,
            }
        } else {
            proof {
                lemma_after_twice(data, used, drawn_tuple(rest).1);
            }
            match TypeTuple::arbitrary(u) {
                Some(tuple) => Some(MemoryType::Tuple(tuple)),
                None => None,
            }
        }
    }

    /// Draws a tuple of memory types.
    pub fn arbitrary_type(u: &mut Unstructured<'_>) -> (r: Option<Type>)
        ensures
            r is Some,
            r->Some_0@ == drawn_memory_tuple(bytes_left(*old(u))).0,
            bytes_left(*final(u)) == after(
                bytes_left(*old(u)),
                drawn_memory_tuple(bytes_left(*old(u))).1,
            ),
    {
        let ghost data = bytes_left(*u);
        proof {
            lemma_drawn(data, 1, 5);
        }
        let num_elements: usize = match int_in_range(u, 1, 5) {
            Some(n) => n as usize,
            None => {
                return None;
            },
        };
        let ghost used = bytes_drawn(data, 4);
        let ghost rest = bytes_left(*u);
        let mut types: Vec<(String, Type)> = Vec::new();
        assert(member_models(types@) =~= Seq::<(Seq<char>, TypeModel)>::empty());
        assert(after(rest, 0) =~= rest);
        let mut i: usize = 0;
        while i < num_elements
            invariant
                i <= num_elements,
                member_models(types@) == drawn_memories(rest, i as nat).0,
                bytes_left(*u) == after(rest, drawn_memories(rest, i as nat).1),
            decreases num_elements - i,
        {
            let ghost before = member_models(types@);
            let ghost so_far = drawn_memories(rest, i as nat).1;
            match MemoryType::arbitrary(u) {
                Some(memory_type) => {
                    proof {
                        lemma_after_twice(rest, so_far, drawn_memory(after(rest, so_far)).1);
                    }
                    let ty = Type::from(memory_type);
                    let ghost added = (""@, ty@);
                    types.push(("".to_string(), ty));
                    assert(member_models(types@) =~= before.push(added));
                },
                None => {
                    return None;
                },
            }
            i = i + 1;
        }
        proof {
            lemma_after_twice(data, used, drawn_memories(rest, num_elements as nat).1);
        }
        let tuple = TypeTuple { types };
        proof {
            lemma_tuple_model(tuple);
        }
        Some(Type::Tuple(tuple))
    }
}

/// A type whose values stand on the stack.
#[derive(Clone, Copy, Debug, PartialEq, Eq, Structural)]
pub enum StackType {
    Address,
    Bool,
    Uint(u16),
    Int(u16),
    FixedBytes(u16),
}

impl From<StackType> for Type {
    fn from(stack_type: StackType) -> (r: Type) {
        match stack_type {
            StackType::Address => Type::Address,
            StackType::Bool => Type::Bool,
            StackType::Uint(size) => Type::Uint(Some(size)),
            StackType::Int(size) => Type::Int(Some(size)),
            StackType::FixedBytes(size) => Type::FixedBytes(size),
        }
    }
}

impl FromSpecImpl<StackType> for Type {
    open spec fn obeys_from_spec() -> bool {
        true
    }

    open spec fn from_spec(stack_type: StackType) -> Type {
        match stack_type {
            StackType::Address => Type::Address,
            StackType::Bool => Type::Bool,
            StackType::Uint(size) => Type::Uint(Some(size)),
            StackType::Int(size) => Type::Int(Some(size)),
            StackType::FixedBytes(size) => Type::FixedBytes(size),
        }
    }
}

/// The type that a stack type stands for.
pub open spec fn stack_model(stack_type: StackType) -> TypeModel {
    match stack_type {
        StackType::Address => TypeModel::Address,
        StackType::Bool => TypeModel::Bool,
        StackType::Uint(size) => TypeModel::Uint(Some(size)),
        StackType::Int(size) => TypeModel::Int(Some(size)),
        StackType::FixedBytes(size) => TypeModel::FixedBytes(size),
    }
}

/// A stack type.
pub open spec fn drawn_stack(data: Seq<u8>) -> (StackType, nat) {
    let k = drawn(data, 0, 4);
    let used = bytes_drawn(data, 4);
    let rest = after(data, used);
    if k == 0 {
        (StackType::Address, used)
    } else if k == 1 {
        (StackType::Bool, used)
    } else if k == 2 {
        (StackType::Uint(drawn_size(rest).0), used + drawn_size(rest).1)
    } else if k == 3 {
        (StackType::Int(drawn_size(rest).0), used + drawn_size(rest).1)
    } else {
        (StackType::FixedBytes(drawn(rest, 1, 32) as u16), used + bytes_drawn(rest, 31))
    }
}

/// The name of the argument with this number.
pub open spec fn argument_name(i: nat) -> Seq<char> {
    "arg_"@ + decimal(i)
}

/// The first `n` members of a tuple of stack types.
pub open spec fn drawn_stacks(data: Seq<u8>, n: nat) -> (Seq<(Seq<char>, TypeModel)>, nat)
    decreases n,
{
    if n == 0 {
        (Seq::empty(), 0)
    } else {
        let (before, used) = drawn_stacks(data, (n - 1) as nat);
        let (ty, more) = drawn_stack(after(data, used));
        (before.push((argument_name((n - 1) as nat), stack_model(ty))), used + more)
    }
}

/// A tuple of one to five stack types.
pub open spec fn drawn_stack_tuple(data: Seq<u8>) -> (TypeModel, nat) {
    let used = bytes_drawn(data, 4);
    let (members, more) = drawn_stacks(after(data, used), drawn(data, 1, 5) as nat);
    (TypeModel::Tuple(members), used + more)
}

/// Writes the name of the argument with this number.
pub(crate) fn argument_name_text(i: usize) -> (r: String)
    ensures
        r@ == argument_name(i as nat),
{
    "arg_".to_string().concat(decimal_text(i as u128).as_str())
}

impl StackType {
    /// Draws a stack type.
    pub fn arbitrary(u: &mut Unstructured<'_>) -> (r: Option<StackType>)
        ensures
            r == Some(drawn_stack(bytes_left(*old(u))).0),
            bytes_left(*final(u)) == after(bytes_left(*old(u)), drawn_stack(bytes_left(*old(u))).1),
    {
        let ghost data = bytes_left(*u);
        proof {
            lemma_drawn(data, 0, 4);
        }
        let variants: Vec<u16> = vec![0u16, 1, 2, 3, 4];
        let k: u16 = match choose_one(u, variants.as_slice()) {
            Some(k) => k,
            None => {
                return None;
            },
        };
        let ghost used = bytes_drawn(data, 4);
        let ghost rest = bytes_left(*u);
        assert(k == drawn(data, 0, 4));
        if k == 0 {
            Some(StackType::Address)
        } else if k == 1 {
            Some(StackType::Bool)
        } else if k == 4 {
            proof {
                lemma_drawn(rest, 1, 32);
                lemma_after_twice(data, used, bytes_drawn(rest, 31));
            }
            match int_in_range(u, 1, 32) {
                Some(size) => Some(StackType::FixedBytes(size as u16)),
                None => None,
            }
        } else {
            proof {
                lemma_after_twice(data, used, drawn_size(rest).1);
            }
            match choose_size(u) {
                Some(size) => if k == 2 {
                    Some(StackType::Uint(size))
                } else {
                    Some(StackType::Int(size))
                },
                None => None,
            }
        }
    }

    /// Draws a tuple of stack types.
    pub fn arbitrary_type(u: &mut Unstructured<'_>) -> (r: Option<Type>)
        ensures
            r is Some,
            r->Some_0@ == drawn_stack_tuple(bytes_left(*old(u))).0,
            bytes_left(*final(u)) == after(
                bytes_left(*old(u)),
                drawn_stack_tuple(bytes_left(*old(u))).1,
            ),
    {
        let ghost data = bytes_left(*u);
        proof {
            lemma_drawn(data, 1, 5);
        }
        let num_elements: usize = match int_in_range(u, 1, 5) {
            Some(n) => n as usize,
            None => {
                return None;
            },
        };
        let ghost used = bytes_drawn(data, 4);
        let ghost rest = bytes_left(*u);
        let mut types: Vec<(String, Type)> = Vec::new();
        assert(member_models(types@) =~= Seq::<(Seq<char>, TypeModel)>::empty());
        assert(after(rest, 0) =~= rest);
        let mut i: usize = 0;
        while i < num_elements
            invariant
                i <= num_elements,
                member_models(types@) == drawn_stacks(rest, i as nat).0,
                bytes_left(*u) == after(rest, drawn_stacks(rest, i as nat).1),
            decreases num_elements - i,
        {
            let ghost before = member_models(types@);
            let ghost so_far = drawn_stacks(rest, i as nat).1;
            match StackType::arbitrary(u) {
                Some(stack_type) => {
                    proof {
                        lemma_after_twice(rest, so_far, drawn_stack(after(rest, so_far)).1);
                    }
                    let ty = Type::from(stack_type);
                    let ghost added = (argument_name(i as nat), ty@);
                    types.push((argument_name_text(i), ty));
                    assert(member_models(types@) =~= before.push(added));
                },
                None => {
                    return None;
                },
            }
            i = i + 1;
        }
        proof {
            lemma_after_twice(data, used, drawn_stacks(rest, num_elements as nat).1);
        }
        let tuple = TypeTuple { types };
        proof {
            lemma_tuple_model(tuple);
        }
        Some(Type::Tuple(tuple))
    }
}

/// Whether a type is one that can be drawn: sizes are in their ranges, tuples have one to five
/// fields, and nothing in it is a mapping.
pub open spec fn drawable(ty: TypeModel) -> bool
    decreases ty,
{
    match ty {
        TypeModel::FixedBytes(size) => 1 <= size <= 32,
        TypeModel::Int(Some(bits)) | TypeModel::Uint(Some(bits)) => integer_sizes().contains(bits),
        TypeModel::Int(None) | TypeModel::Uint(None) => false,
        TypeModel::Array(element, size) => drawable(*element) && match size {
            Some(n) => 1 <= n <= 9,
            None => true,
        },
        TypeModel::Tuple(fields) => {
            &&& 1 <= fields.len() <= 5
            &&& forall|i: int| 0 <= i < fields.len() ==> drawable((#[trigger] fields[i]).1)
        },
        TypeModel::Mapping(_, _) => false,
        _ => true,
    }
}

/// Whatever the bytes are, the type that is drawn is a drawable one.
pub proof fn law_drawn_types_are_drawable(data: Seq<u8>)
    ensures
        drawable(drawn_type(data).0),
    decreases data.len(), 1nat, 0nat,
{
    lemma_drawn(data, 0, 8);
    let used = bytes_drawn(data, 8);
    let rest = after(data, used);
    lemma_drawn(rest, 1, 32);
    lemma_drawn(rest, 0, 5);
    assert(integer_sizes().contains(integer_sizes()[drawn(rest, 0, 5)]));
    if drawn(data, 0, 8) == 7 {
        lemma_drawn_array(rest);
    } else if drawn(data, 0, 8) == 8 {
        lemma_drawn_tuple(rest);
    }
}

proof fn lemma_drawn_array(data: Seq<u8>)
    ensures
        drawable(drawn_array(data).0),
    decreases data.len(), 2nat, 0nat,
{
    law_drawn_types_are_drawable(data);
    let (ty, used) = drawn_type(data);
    let (sized, flag) = drawn_flag(after(data, used));
    lemma_drawn(after(data, used + flag), 1, 9);
}

proof fn lemma_drawn_tuple(data: Seq<u8>)
    ensures
        drawable(drawn_tuple(data).0),
    decreases data.len(), 3nat, 0nat,
{
    lemma_drawn(data, 1, 5);
    let n = drawn(data, 1, 5) as nat;
    let rest = after(data, bytes_drawn(data, 4));
    lemma_drawn_fields(rest, n);
    let fields = drawn_fields(rest, n).0;
    assert(drawn_tuple(data).0 == TypeModel::Tuple(fields));
    assert forall|i: int| 0 <= i < fields.len() implies drawable((#[trigger] fields[i]).1) by {
        assert(drawable(drawn_fields(rest, n).0[i].1));
    }
}

proof fn lemma_drawn_fields(data: Seq<u8>, n: nat)
    ensures
        drawn_fields(data, n).0.len() == n,
        forall|i: int| 0 <= i < n ==> #[trigger] drawable(drawn_fields(data, n).0[i].1),
    decreases data.len(), 2nat, n,
{
    if n > 0 {
        let (before, used) = drawn_fields(data, (n - 1) as nat);
        lemma_drawn_fields(data, (n - 1) as nat);
        law_drawn_types_are_drawable(after(data, used));
        assert forall|i: int| 0 <= i < n implies #[trigger] drawable(
            drawn_fields(data, n).0[i].1,
        ) by {
            if i < n - 1 {
                assert(drawable(before[i].1));
            }
        }
    }
}

} // verus!
