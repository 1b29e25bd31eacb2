//! The texts that are shown for code objects.

use vstd::prelude::*;
use vstd::string::StringExecFns;

use crate::definitions::StructType;
use crate::namespace::{
    ArithmeticOp, BytesType, ConstantValue, EnumDecl, EventDecl, FunctionDecl, LocalVariable, Loc,
    Namespace, Parameter, Prototype, SolidityType, StructDecl, TypeShape,
};
use crate::primitives::{hex_encode, lossy_text, utf8_text_lossy};
use crate::text::{hex_digits, join, joined, texts};

verus! {

/// A text marked as code.
pub open spec fn code_block(code: Seq<char>) -> Seq<char> {
    "```solidity\n"@ + code + "\n```"@
}

pub fn make_code_block(code: &str) -> (r: String)
    ensures
        r@ == code_block(code@),
{
    let mut block = "```solidity\n".to_string();
    block.append(code);
    block.append("\n```");
    block
}

/// Rendered documentation with an empty line behind it, where there is any.
pub open spec fn tags_above(tags: Seq<char>) -> Seq<char> {
    if tags.len() == 0 {
        tags
    } else {
        tags + "\n\n"@
    }
}

/// Rendered documentation above a text.
pub fn below_tags(tags: &String, text: &str) -> (r: String)
    ensures
        r@ == tags_above(tags@) + text@,
{
    let mut all = tags.clone();
    if tags.as_str().unicode_len() > 0 {
        all.append("\n\n");
    }
    all.append(text);
    all
}

/// The value of a constant as it is written in source code: bytes in hexadecimal, strings in
/// quotation marks, integers as numerals.
pub open spec fn constant_text(value: ConstantValue) -> Option<Seq<char>> {
    match value {
        ConstantValue::BytesLiteral { ty, value } => match ty {
            BytesType::Bytes | BytesType::DynamicBytes => Some(
                "hex\""@ + hex_digits(value@) + "\""@,
            ),
            BytesType::String => Some("\""@ + lossy_text(value@) + "\""@),
            BytesType::Other => None,
        },
        ConstantValue::NumberLiteral { is_integer, value } => if is_integer {
            Some(value@)
        } else {
            None
        },
        ConstantValue::Other => None,
    }
}

pub fn get_constants(value: &ConstantValue) -> (r: Option<String>)
    ensures
        match constant_text(*value) {
            Some(text) => r is Some && r->Some_0@ == text,
            None => r is None,
        },
{
    match value {
        ConstantValue::BytesLiteral { ty, value } => match ty {
            BytesType::Bytes | BytesType::DynamicBytes => {
                let mut text = "hex\"".to_string();
                let digits = hex_encode(value.as_slice());
                text.append(digits.as_str());
                text.append("\"");
                Some(text)
            },
            BytesType::String => {
                let mut text = "\"".to_string();
                let content = utf8_text_lossy(value.as_slice());
                text.append(content.as_str());
                text.append("\"");
                Some(text)
            },
            BytesType::Other => None,
        },
        ConstantValue::NumberLiteral { is_integer, value } => {
            if *is_integer {
                Some(value.clone())
            } else {
                None
            }
        },
        ConstantValue::Other => None,
    }
}

/// The value of the constant at a location, where one is known.
pub open spec fn constant_at(constants: Seq<(Loc, ConstantValue)>, loc: Loc, i: nat) -> Option<
    ConstantValue,
>
    decreases (if i < constants.len() { constants.len() - i } else { 0 }),
{
    if i >= constants.len() {
        None
    } else if constants[i as int].0 == loc {
        Some(constants[i as int].1)
    } else {
        constant_at(constants, loc, i + 1)
    }
}

/// What is shown of the constant at a location, behind its name.
pub open spec fn constant_suffix(ns: Namespace, loc: Loc) -> Seq<char> {
    match constant_at(ns.var_constants@, loc, 0) {
        Some(value) => match constant_text(value) {
            Some(text) => " = "@ + text,
            None => ""@,
        },
        None => ""@,
    }
}

pub fn constant_suffix_text(ns: &Namespace, loc: &Loc) -> (r: String)
    ensures
        r@ == constant_suffix(*ns, *loc),
{
    let mut i: usize = 0;
    while i < ns.var_constants.len()
        invariant
            i <= ns.var_constants@.len(),
            constant_at(ns.var_constants@, *loc, 0) == constant_at(
                ns.var_constants@,
                *loc,
                i as nat,
            ),
        decreases ns.var_constants@.len() - i,
    {
        if ns.var_constants[i].0 == *loc {
            return match get_constants(&ns.var_constants[i].1) {
                Some(value) => {
                    let mut text = " = ".to_string();
                    text.append(value.as_str());
                    text
                },
                None => "".to_string(),
            };
        }
        i = i + 1;
    }
    "".to_string()
}

/// The name of a parameter, empty where it has none.
pub open spec fn parameter_name(param: Parameter) -> Seq<char> {
    match param.id {
        Some(id) => id.name@,
        None => ""@,
    }
}

impl Parameter {
    /// The name, empty where there is none.
    pub fn name_as_str(&self) -> (r: &str)
        ensures
            r@ == parameter_name(*self),
    {
        match &self.id {
            Some(id) => id.name.as_str(),
            None => "",
        }
    }
}

/// The type and the name of a parameter.
pub open spec fn parameter_text(param: Parameter) -> Seq<char> {
    param.ty.text@ + " "@ + parameter_name(param)
}

pub fn render_parameter(param: &Parameter) -> (r: String)
    ensures
        r@ == parameter_text(*param),
{
    let mut text = param.ty.text.clone();
    text.append(" ");
    text.append(param.name_as_str());
    text
}

/// The type of a return value, with its name where it has one.
pub open spec fn return_text(ret: Parameter) -> Seq<char> {
    if parameter_name(ret).len() == 0 {
        ret.ty.text@
    } else {
        ret.ty.text@ + " "@ + parameter_name(ret)
    }
}

/// A field of an event, marked where it is indexed.
pub open spec fn event_field_text(field: Parameter) -> Seq<char> {
    "\t"@ + field.ty.text@ + (if field.indexed {
        " indexed "@
    } else {
        " "@
    }) + parameter_name(field)
}

/// A field of a struct.
pub open spec fn struct_field_text(field: Parameter) -> Seq<char> {
    "\t"@ + field.ty.text@ + " "@ + parameter_name(field)
}

pub open spec fn parameter_texts(params: Seq<Parameter>) -> Seq<Seq<char>> {
    params.map_values(|p: Parameter| parameter_text(p))
}

pub open spec fn return_texts(params: Seq<Parameter>) -> Seq<Seq<char>> {
    params.map_values(|p: Parameter| return_text(p))
}

pub open spec fn event_field_texts(params: Seq<Parameter>) -> Seq<Seq<char>> {
    params.map_values(|p: Parameter| event_field_text(p))
}

pub open spec fn struct_field_texts(params: Seq<Parameter>) -> Seq<Seq<char>> {
    params.map_values(|p: Parameter| struct_field_text(p))
}

pub open spec fn value_texts(values: Seq<(String, Loc)>) -> Seq<Seq<char>> {
    values.map_values(|v: (String, Loc)| "\t"@ + v.0@)
}

fn join_parameters(params: &Vec<Parameter>, sep: &str) -> (r: String)
    ensures
        r@ == joined(parameter_texts(params@), sep@),
{
    let mut parts: Vec<String> = Vec::new();
    let mut i: usize = 0;
    while i < params.len()
        invariant
            i <= params@.len(),
            parts@.len() == i,
            forall|k: int| 0 <= k < i ==> (#[trigger] parts@[k])@ == parameter_text(params@[k]),
        decreases params@.len() - i,
    {
        parts.push(render_parameter(&params[i]));
        i = i + 1;
    }
    assert(texts(parts@) =~= parameter_texts(params@));
    join(&parts, sep)
}

fn join_returns(params: &Vec<Parameter>, sep: &str) -> (r: String)
    ensures
        r@ == joined(return_texts(params@), sep@),
{
    let mut parts: Vec<String> = Vec::new();
    let mut i: usize = 0;
    while i < params.len()
        invariant
            i <= params@.len(),
            parts@.len() == i,
            forall|k: int| 0 <= k < i ==> (#[trigger] parts@[k])@ == return_text(params@[k]),
        decreases params@.len() - i,
    {
        let ret = &params[i];
        let mut text = ret.ty.text.clone();
        if ret.name_as_str().unicode_len() > 0 {
            text.append(" ");
            text.append(ret.name_as_str());
        }
        parts.push(text);
        i = i + 1;
    }
    assert(texts(parts@) =~= return_texts(params@));
    join(&parts, sep)
}

fn join_event_fields(params: &Vec<Parameter>, sep: &str) -> (r: String)
    ensures
        r@ == joined(event_field_texts(params@), sep@),
{
    let mut parts: Vec<String> = Vec::new();
    let mut i: usize = 0;
    while i < params.len()
        invariant
            i <= params@.len(),
            parts@.len() == i,
            forall|k: int| 0 <= k < i ==> (#[trigger] parts@[k])@ == event_field_text(params@[k]),
        decreases params@.len() - i,
    {
        let field = &params[i];
        let mut text = "\t".to_string();
        text.append(field.ty.text.as_str());
        text.append(
            if field.indexed {
                " indexed "
            } else {
                " "
            },
        );
        text.append(field.name_as_str());
        parts.push(text);
        i = i + 1;
    }
    assert(texts(parts@) =~= event_field_texts(params@));
    join(&parts, sep)
}

fn join_struct_fields(params: &Vec<Parameter>, sep: &str) -> (r: String)
    ensures
        r@ == joined(struct_field_texts(params@), sep@),
{
    let mut parts: Vec<String> = Vec::new();
    let mut i: usize = 0;
    while i < params.len()
        invariant
            i <= params@.len(),
            parts@.len() == i,
            forall|k: int| 0 <= k < i ==> (#[trigger] parts@[k])@ == struct_field_text(params@[k]),
        decreases params@.len() - i,
    {
        let field = &params[i];
        let mut text = "\t".to_string();
        text.append(field.ty.text.as_str());
        text.append(" ");
        text.append(field.name_as_str());
        parts.push(text);
        i = i + 1;
    }
    assert(texts(parts@) =~= struct_field_texts(params@));
    join(&parts, sep)
}

fn join_values(values: &Vec<(String, Loc)>, sep: &str) -> (r: String)
    ensures
        r@ == joined(value_texts(values@), sep@),
{
    let mut parts: Vec<String> = Vec::new();
    let mut i: usize = 0;
    while i < values.len()
        invariant
            i <= values@.len(),
            parts@.len() == i,
            forall|k: int| 0 <= k < i ==> (#[trigger] parts@[k])@ == "\t"@ + values@[k].0@,
        decreases values@.len() - i,
    {
        let mut text = "\t".to_string();
        text.append(values[i].0.as_str());
        parts.push(text);
        i = i + 1;
    }
    assert(texts(parts@) =~= value_texts(values@));
    join(&parts, sep)
}

/// A name behind that of the contract around it.
pub open spec fn qualified(contract: Option<String>, name: Seq<char>) -> Seq<char> {
    match contract {
        Some(c) => c@ + "."@ + name,
        None => name,
    }
}

fn qualified_name(contract: &Option<String>, name: &String) -> (r: String)
    ensures
        r@ == qualified(*contract, name@),
{
    match contract {
        Some(c) => {
            let mut text = c.clone();
            text.append(".");
            text.append(name.as_str());
            text
        },
        None => name.clone(),
    }
}

pub open spec fn struct_text(decl: StructDecl) -> Seq<char> {
    tags_above(decl.tags@) + code_block(
        "struct "@ + qualified(decl.contract, decl.id.name@) + " {\n"@ + joined(
            struct_field_texts(decl.fields@),
            ",\n"@,
        ) + "\n}"@,
    )
}

pub open spec fn enum_text(decl: EnumDecl) -> Seq<char> {
    tags_above(decl.tags@) + code_block(
        "enum "@ + qualified(decl.contract, decl.id.name@) + " {\n"@ + joined(
            value_texts(decl.values@),
            ",\n"@,
        ) + "\n}"@,
    )
}

/// The declaration of a struct. The program parameters have none in Solidity.
pub open spec fn struct_of(ns: Namespace, st: StructType) -> Option<StructDecl> {
    match st {
        StructType::UserDefined(n) => if n < ns.structs@.len() {
            Some(ns.structs@[n as int])
        } else {
            None
        },
        StructType::AccountInfo => builtin_struct(ns, 0),
        StructType::AccountMeta => builtin_struct(ns, 1),
        StructType::ExternalFunction => builtin_struct(ns, 2),
        StructType::SolParameters => None,
    }
}

pub open spec fn builtin_struct(ns: Namespace, n: nat) -> Option<StructDecl> {
    if n < ns.builtin_structs@.len() {
        Some(ns.builtin_structs@[n as int])
    } else {
        None
    }
}

/// A type with struct and enum fields expanded; nothing where it refers to what is not there.
pub open spec fn expanded(ns: Namespace, ty: SolidityType) -> Option<Seq<char>>
    decreases ty,
{
    match ty.shape {
        TypeShape::Ref(target) => expanded(ns, *target),
        TypeShape::StorageRef(target) => expanded(ns, *target),
        TypeShape::Struct(st) => match struct_of(ns, st) {
            Some(decl) => Some(struct_text(decl)),
            None => None,
        },
        TypeShape::Enum(n) => if n < ns.enums@.len() {
            Some(enum_text(ns.enums@[n as int]))
        } else {
            None
        },
        _ => Some(code_block(ty.text@)),
    }
}

fn find_struct(ns: &Namespace, st: StructType) -> (r: Option<&StructDecl>)
    ensures
        match struct_of(*ns, st) {
            Some(decl) => r == Some(&decl),
            None => r is None,
        },
{
    let n: usize = match st {
        StructType::UserDefined(n) => {
            return if n < ns.structs.len() {
                Some(&ns.structs[n])
            } else {
                None
            };
        },
        StructType::AccountInfo => 0,
        StructType::AccountMeta => 1,
        StructType::ExternalFunction => 2,
        StructType::SolParameters => {
            return None;
        },
    };
    if n < ns.builtin_structs.len() {
        Some(&ns.builtin_structs[n])
    } else {
        None
    }
}

/// Renders a type with struct and enum fields expanded.
pub fn expanded_ty(ns: &Namespace, ty: &SolidityType) -> (r: Option<String>)
    ensures
        match expanded(*ns, *ty) {
            Some(text) => r is Some && r->Some_0@ == text,
            None => r is None,
        },
    decreases ty,
{
    match &ty.shape {
        TypeShape::Ref(target) => expanded_ty(ns, target),
        TypeShape::StorageRef(target) => expanded_ty(ns, target),
        TypeShape::Struct(st) => match find_struct(ns, *st) {
            Some(decl) => {
                let mut text = "struct ".to_string();
                let name = qualified_name(&decl.contract, &decl.id.name);
                text.append(name.as_str());
                text.append(" {\n");
                let fields = join_struct_fields(&decl.fields, ",\n");
                text.append(fields.as_str());
                text.append("\n}");
                let block = make_code_block(text.as_str());
                Some(below_tags(&decl.tags, block.as_str()))
            },
            None => None,
        },
        TypeShape::Enum(n) => {
            if *n < ns.enums.len() {
                let decl = &ns.enums[*n];
                let mut text = "enum ".to_string();
                let name = qualified_name(&decl.contract, &decl.id.name);
                text.append(name.as_str());
                text.append(" {\n");
                let values = join_values(&decl.values, ",\n");
                text.append(values.as_str());
                text.append("\n}");
                let block = make_code_block(text.as_str());
                Some(below_tags(&decl.tags, block.as_str()))
            } else {
                None
            }
        },
        _ => Some(make_code_block(ty.text.as_str())),
    }
}

/// The name of a contract with a dot behind it; empty where there is no contract.
pub open spec fn contract_prefix(ns: Namespace, contract_no: Option<usize>) -> Option<Seq<char>> {
    match contract_no {
        None => Some(""@),
        Some(n) => if n < ns.contracts@.len() {
            Some(ns.contracts@[n as int].id.name@ + "."@)
        } else {
            None
        },
    }
}

pub fn render_contract_prefix(ns: &Namespace, contract_no: Option<usize>) -> (r: Option<String>)
    ensures
        match contract_prefix(*ns, contract_no) {
            Some(text) => r is Some && r->Some_0@ == text,
            None => r is None,
        },
{
    match contract_no {
        None => Some("".to_string()),
        Some(n) => {
            if n < ns.contracts.len() {
                let mut text = ns.contracts[n].id.name.clone();
                text.append(".");
                Some(text)
            } else {
                None
            }
        },
    }
}

/// What is shown for a call of a function: its documentation and its signature.
pub open spec fn function_text(ns: Namespace, f: FunctionDecl) -> Option<Seq<char>> {
    match contract_prefix(ns, f.contract_no) {
        None => None,
        Some(contract) => Some(
            tags_above(f.tags@) + code_block(
                f.ty@ + " "@ + contract + f.id.name@ + "("@ + joined(
                    parameter_texts(f.params@),
                    ", "@,
                ) + ") returns ("@ + joined(return_texts(f.returns@), ", "@) + ")\n"@,
            ),
        ),
    }
}

pub fn render_function(ns: &Namespace, f: &FunctionDecl) -> (r: Option<String>)
    ensures
        match function_text(*ns, *f) {
            Some(text) => r is Some && r->Some_0@ == text,
            None => r is None,
        },
{
    let contract: String = match render_contract_prefix(ns, f.contract_no) {
        Some(text) => text,
        None => {
            return None;
        },
    };
    let mut text = f.ty.clone();
    text.append(" ");
    text.append(contract.as_str());
    text.append(f.id.name.as_str());
    text.append("(");
    let params = join_parameters(&f.params, ", ");
    text.append(params.as_str());
    text.append(") returns (");
    let results = join_returns(&f.returns, ", ");
    text.append(results.as_str());
    text.append(")\n");
    let block = make_code_block(text.as_str());
    Some(below_tags(&f.tags, block.as_str()))
}

/// What is shown where an event is emitted: its documentation and its declaration.
pub open spec fn event_text(ns: Namespace, event: EventDecl) -> Option<Seq<char>> {
    match contract_prefix(ns, event.contract) {
        None => None,
        Some(contract) => Some(
            tags_above(event.tags@) + code_block(
                "event "@ + (contract + event.id.name@) + " {\n"@ + joined(
                    event_field_texts(event.fields@),
                    ",\n"@,
                ) + "\n}"@ + if event.anonymous {
                    " anonymous"@
                } else {
                    ""@
                },
            ),
        ),
    }
}

pub fn render_event(ns: &Namespace, event: &EventDecl) -> (r: Option<String>)
    ensures
        match event_text(*ns, *event) {
            Some(text) => r is Some && r->Some_0@ == text,
            None => r is None,
        },
{
    let mut name: String = match render_contract_prefix(ns, event.contract) {
        Some(text) => text,
        None => {
            return None;
        },
    };
    name.append(event.id.name.as_str());
    let mut text = "event ".to_string();
    text.append(name.as_str());
    text.append(" {\n");
    let fields = join_event_fields(&event.fields, ",\n");
    text.append(fields.as_str());
    text.append("\n}");
    text.append(
        if event.anonymous {
            " anonymous"
        } else {
            ""
        },
    );
    let block = make_code_block(text.as_str());
    Some(below_tags(&event.tags, block.as_str()))
}

/// What is shown for an arithmetic operation on values of a type.
pub open spec fn arithmetic_text(op: ArithmeticOp, ty: Seq<char>) -> Seq<char> {
    match op {
        ArithmeticOp::Add { unchecked } => unchecked_prefix(unchecked) + " "@ + ty + " addition"@,
        ArithmeticOp::Subtract { unchecked } => unchecked_prefix(unchecked) + " "@ + ty
            + " subtraction"@,
        ArithmeticOp::Multiply { unchecked } => unchecked_prefix(unchecked) + " "@ + ty
            + " multiply"@,
        ArithmeticOp::Divide => ty + " divide"@,
        ArithmeticOp::Modulo => ty + " modulo"@,
        ArithmeticOp::Power { unchecked } => unchecked_prefix(unchecked) + " "@ + ty + "power"@,
    }
}

pub open spec fn unchecked_prefix(unchecked: bool) -> Seq<char> {
    if unchecked {
        "unchecked "@
    } else {
        ""@
    }
}

pub fn render_arithmetic(op: ArithmeticOp, ty: &str) -> (r: String)
    ensures
        r@ == arithmetic_text(op, ty@),
{
    let (unchecked, name) = match op {
        ArithmeticOp::Add { unchecked } => (unchecked, " addition"),
        ArithmeticOp::Subtract { unchecked } => (unchecked, " subtraction"),
        ArithmeticOp::Multiply { unchecked } => (unchecked, " multiply"),
        ArithmeticOp::Power { unchecked } => (unchecked, "power"),
        ArithmeticOp::Divide => {
            let mut text = ty.to_string();
            text.append(" divide");
            return text;
        },
        ArithmeticOp::Modulo => {
            let mut text = ty.to_string();
            text.append(" modulo");
            return text;
        },
    };
    let mut text = if unchecked {
        "unchecked ".to_string()
    } else {
        "".to_string()
    };
    text.append(" ");
    text.append(ty);
    text.append(name);
    text
}

/// What is shown for a call of a function of the language itself.
pub open spec fn builtin_text(prototype: Option<Prototype>) -> Seq<char> {
    match prototype {
        Some(p) => {
            let params = joined(texts(p.params@), " "@);
            p.doc@ + "\n\n"@ + code_block(
                "[built-in] "@ + joined(texts(p.ret@), " "@) + " "@ + p.name@ + " "@ + (
                if params.len() == 0 {
                    params
                } else {
                    "("@ + params + ")"@
                }),
            )
        },
        None => code_block("[built-in]   "@),
    }
}

pub fn render_builtin(prototype: &Option<Prototype>) -> (r: String)
    ensures
        r@ == builtin_text(*prototype),
{
    match prototype {
        Some(p) => {
            let mut text = "[built-in] ".to_string();
            let results = join(&p.ret, " ");
            text.append(results.as_str());
            text.append(" ");
            text.append(p.name.as_str());
            text.append(" ");
            let params = join(&p.params, " ");
            let shown = if params.as_str().unicode_len() == 0 {
                params
            } else {
                let mut listed = "(".to_string();
                listed.append(params.as_str());
                listed.append(")");
                listed
            };
            text.append(shown.as_str());
            let block = make_code_block(text.as_str());
            let mut all = p.doc.clone();
            all.append("\n\n");
            all.append(block.as_str());
            all
        },
        None => make_code_block("[built-in]   "),
    }
}

/// The variable with this number.
pub open spec fn local_variable(vars: Seq<(usize, LocalVariable)>, no: usize, i: nat) -> Option<
    LocalVariable,
>
    decreases (if i < vars.len() { vars.len() - i } else { 0 }),
{
    if i >= vars.len() {
        None
    } else if vars[i as int].0 == no {
        Some(vars[i as int].1)
    } else {
        local_variable(vars, no, i + 1)
    }
}

pub fn find_local<'a>(vars: &'a Vec<(usize, LocalVariable)>, no: usize) -> (r: Option<
    &'a LocalVariable,
>)
    ensures
        match local_variable(vars@, no, 0) {
            Some(var) => r == Some(&var),
            None => r is None,
        },
{
    let mut i: usize = 0;
    while i < vars.len()
        invariant
            i <= vars@.len(),
            local_variable(vars@, no, 0) == local_variable(vars@, no, i as nat),
        decreases vars@.len() - i,
    {
        if vars[i].0 == no {
            return Some(&vars[i].1);
        }
        i = i + 1;
    }
    None
}

/// What is shown of a variable that cannot be written to.
pub open spec fn readonly_suffix(var: Option<LocalVariable>) -> Seq<char> {
    match var {
        Some(v) if v.slice => "\nreadonly: compiled to slice\n"@,
        _ => ""@,
    }
}

pub fn render_readonly(var: Option<&LocalVariable>) -> (r: &'static str)
    ensures
        r@ == readonly_suffix(
            match var {
                Some(v) => Some(*v),
                None => None,
            },
        ),
{
    match var {
        Some(v) => {
            if v.slice {
                "\nreadonly: compiled to slice\n"
            } else {
                ""
            }
        },
        None => "",
    }
}

} // verus!
