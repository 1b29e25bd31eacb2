//! What the texts that are shown are made of.

use vstd::prelude::*;

use crate::hover_text::{
    arithmetic_text, builtin_text, code_block, constant_at, constant_suffix, contract_prefix,
    enum_text, event_field_texts, event_text, expanded, function_text, parameter_name,
    parameter_texts, qualified, return_texts, struct_field_texts, struct_of, struct_text,
    tags_above, unchecked_prefix, value_texts,
};
use crate::namespace::{
    ArithmeticOp, ConstantValue, EnumDecl, EventDecl, FunctionDecl, Loc, Namespace, Parameter,
    Prototype, SolidityType, StructDecl, TypeShape,
};
use crate::text::{hex_digits, is_white, joined, texts, trimmed};

verus! {

/// The parts with a separator between each two.
pub open spec fn separated(parts: Seq<Seq<char>>, sep: Seq<char>) -> Seq<Seq<char>> {
    Seq::new(
        (if parts.len() == 0 {
            0
        } else {
            2 * parts.len() - 1
        }) as nat,
        |i: int|
            if i % 2 == 0 {
                parts[i / 2]
            } else {
                sep
            },
    )
}

proof fn lemma_flat_add(a: Seq<Seq<char>>, b: Seq<Seq<char>>)
    ensures
        (a + b).flatten() == a.flatten() + b.flatten(),
    decreases b.len(),
{
    if b.len() == 0 {
        assert(a + b =~= a);
        assert(a.flatten() + b.flatten() =~= a.flatten());
    } else {
        lemma_flat_add(a, b.drop_last());
        (a + b).lemma_flatten_and_flatten_alt_are_equivalent();
        b.lemma_flatten_and_flatten_alt_are_equivalent();
        (a + b).drop_last().lemma_flatten_and_flatten_alt_are_equivalent();
        b.drop_last().lemma_flatten_and_flatten_alt_are_equivalent();
        assert((a + b).drop_last() =~= a + b.drop_last());
        assert((a + b).last() == b.last());
        assert(a.flatten() + (b.drop_last().flatten() + b.last()) =~= (a.flatten()
            + b.drop_last().flatten()) + b.last());
    }
}

proof fn lemma_flat_one(word: Seq<char>)
    ensures
        seq![word].flatten() == word,
{
    seq![word].lemma_flatten_one_element();
    assert(seq![word].first() == word);
}

/// One more word stands behind the others.
proof fn lemma_word(words: Seq<Seq<char>>, word: Seq<char>) -> (r: Seq<Seq<char>>)
    ensures
        r == words.push(word),
        r.flatten() == words.flatten() + word,
{
    lemma_flat_add(words, seq![word]);
    lemma_flat_one(word);
    assert(words + seq![word] =~= words.push(word));
    words.push(word)
}

/// Texts are joined by writing them one behind the other with the separator between each two.
pub proof fn law_texts_are_joined(parts: Seq<Seq<char>>, sep: Seq<char>)
    ensures
        joined(parts, sep) == separated(parts, sep).flatten(),
    decreases parts.len(),
{
    let words = separated(parts, sep);
    if parts.len() == 0 {
        assert(words =~= Seq::empty());
        assert(words.flatten() =~= Seq::empty());
    } else if parts.len() == 1 {
        lemma_flat_one(parts[0]);
        assert(words =~= seq![parts[0]]);
    } else {
        law_texts_are_joined(parts.drop_last(), sep);
        let before = separated(parts.drop_last(), sep);
        let with_sep = lemma_word(before, sep);
        let all = lemma_word(with_sep, parts.last());
        assert(words =~= all) by {
            let n = parts.len() as int;
            assert(before.len() == 2 * n - 3);
            assert forall|i: int| 0 <= i < words.len() implies words[i] == all[i] by {
                if i < 2 * n - 3 {
                    if i % 2 == 0 {
                        assert(parts.drop_last()[i / 2] == parts[i / 2]);
                    }
                } else if i == 2 * n - 3 {
                    assert(i % 2 == 1);
                } else {
                    assert(i / 2 == n - 1);
                }
            }
        }
    }
}

/// The documentation, with an empty line behind it where there is any.
pub open spec fn documentation(tags: Seq<char>) -> Seq<Seq<char>> {
    if tags.len() == 0 {
        Seq::empty()
    } else {
        seq![tags, "\n\n"@]
    }
}

/// The words as code, below the documentation.
pub open spec fn shown_as_code(tags: Seq<char>, words: Seq<Seq<char>>) -> Seq<char> {
    (documentation(tags) + seq!["```solidity\n"@] + words + seq!["\n```"@]).flatten()
}

proof fn lemma_code(tags: Seq<char>, words: Seq<Seq<char>>, code: Seq<char>)
    requires
        words.flatten() == code,
    ensures
        tags_above(tags) + code_block(code) == shown_as_code(tags, words),
{
    let d = documentation(tags);
    if tags.len() == 0 {
        assert(d.flatten() =~= Seq::empty());
        assert(tags =~= Seq::empty());
    } else {
        let one = lemma_word(Seq::empty(), tags);
        let two = lemma_word(one, "\n\n"@);
        assert(two =~= d);
        assert(Seq::<Seq<char>>::empty().flatten() + tags =~= tags);
    }
    assert(d.flatten() =~= tags_above(tags));
    lemma_flat_add(d, seq!["```solidity\n"@]);
    lemma_flat_one("```solidity\n"@);
    lemma_flat_add(d + seq!["```solidity\n"@], words);
    lemma_flat_add(d + seq!["```solidity\n"@] + words, seq!["\n```"@]);
    lemma_flat_one("\n```"@);
    assert(tags_above(tags) + ("```solidity\n"@ + code + "\n```"@) =~= tags_above(tags)
        + "```solidity\n"@ + code + "\n```"@);
}

/// The name of a parameter, empty where it has none.
pub open spec fn name_of(param: Parameter) -> Seq<char> {
    if param.id is Some {
        param.id->Some_0.name@
    } else {
        Seq::empty()
    }
}

/// What stands before a name: the contract with a dot, where there is one.
pub open spec fn of_contract(contract: Option<Seq<char>>) -> Seq<Seq<char>> {
    match contract {
        Some(name) => seq![name, "."@],
        None => Seq::empty(),
    }
}

proof fn lemma_of_contract(contract: Option<Seq<char>>, prefix: Seq<char>)
    requires
        contract matches Some(name) ==> prefix == name + "."@,
        contract is None ==> prefix.len() == 0,
    ensures
        of_contract(contract).flatten() == prefix,
{
    match contract {
        Some(name) => {
            let one = lemma_word(Seq::empty(), name);
            let two = lemma_word(one, "."@);
            assert(two =~= of_contract(contract));
            assert(Seq::<Seq<char>>::empty().flatten() + name =~= name);
        },
        None => {
            assert(of_contract(contract).flatten() =~= prefix);
        },
    }
}

/// The contract with this number, where one is given.
pub open spec fn contract_name(ns: Namespace, contract_no: Option<usize>) -> Option<Seq<char>> {
    match contract_no {
        Some(n) => Some(ns.contracts@[n as int].id.name@),
        None => None,
    }
}

proof fn lemma_prefix(ns: Namespace, contract_no: Option<usize>)
    ensures
        contract_prefix(ns, contract_no) is Some <==> (contract_no matches Some(n) ==> n
            < ns.contracts@.len()),
        contract_prefix(ns, contract_no) is Some ==> of_contract(
            contract_name(ns, contract_no),
        ).flatten() == contract_prefix(ns, contract_no)->Some_0,
{
    reveal_strlit("");
    if contract_prefix(ns, contract_no) is Some {
        lemma_of_contract(
            contract_name(ns, contract_no),
            contract_prefix(ns, contract_no)->Some_0,
        );
    }
}

/// A function is shown with its documentation, its kind, its contract and its name, its parameters
/// with their types and names, and its return values with their types and, where they have one, their
/// names.
pub proof fn law_function_texts_tell_the_signature(ns: Namespace, f: FunctionDecl)
    ensures
        function_text(ns, f) is Some <==> (f.contract_no matches Some(n) ==> n < ns.contracts@.len()),
        function_text(ns, f) matches Some(text) ==> text == shown_as_code(
            f.tags@,
            seq![f.ty@, " "@] + of_contract(contract_name(ns, f.contract_no)) + seq![
                f.id.name@,
                "("@,
            ] + separated(
                f.params@.map_values(|p: Parameter| p.ty.text@ + " "@ + name_of(p)),
                ", "@,
            ) + seq![") returns ("@] + separated(
                f.returns@.map_values(
                    |p: Parameter|
                        if name_of(p).len() == 0 {
                            p.ty.text@
                        } else {
                            p.ty.text@ + " "@ + name_of(p)
                        },
                ),
                ", "@,
            ) + seq![")\n"@],
        ),
{
    reveal_strlit("");
    lemma_prefix(ns, f.contract_no);
    if let Some(contract) = contract_prefix(ns, f.contract_no) {
        let c = of_contract(contract_name(ns, f.contract_no));
        let ps = f.params@.map_values(|p: Parameter| p.ty.text@ + " "@ + name_of(p));
        let rs = f.returns@.map_values(
            |p: Parameter|
                if name_of(p).len() == 0 {
                    p.ty.text@
                } else {
                    p.ty.text@ + " "@ + name_of(p)
                },
        );
        assert(ps =~= parameter_texts(f.params@)) by {
            assert forall|i: int| 0 <= i < ps.len() implies ps[i] == parameter_texts(
                f.params@,
            )[i] by {
                assert(name_of(f.params@[i]) =~= parameter_name(f.params@[i]));
            }
        }
        assert(rs =~= return_texts(f.returns@)) by {
            assert forall|i: int| 0 <= i < rs.len() implies rs[i] == return_texts(
                f.returns@,
            )[i] by {
                assert(name_of(f.returns@[i]) =~= parameter_name(f.returns@[i]));
            }
        }
        law_texts_are_joined(ps, ", "@);
        law_texts_are_joined(rs, ", "@);
        let w0 = Seq::<Seq<char>>::empty();
        let w1 = lemma_word(w0, f.ty@);
        let w2 = lemma_word(w1, " "@);
        lemma_flat_add(w2, c);
        let w3 = w2 + c;
        let w4 = lemma_word(w3, f.id.name@);
        let w5 = lemma_word(w4, "("@);
        lemma_flat_add(w5, separated(ps, ", "@));
        let w6 = w5 + separated(ps, ", "@);
        let w7 = lemma_word(w6, ") returns ("@);
        lemma_flat_add(w7, separated(rs, ", "@));
        let w8 = w7 + separated(rs, ", "@);
        let w9 = lemma_word(w8, ")\n"@);
        assert(w0.flatten() + f.ty@ =~= f.ty@);
        let words = seq![f.ty@, " "@] + c + seq![f.id.name@, "("@] + separated(ps, ", "@)
            + seq![") returns ("@] + separated(rs, ", "@) + seq![")\n"@];
        assert(words =~= w9);
        lemma_code(f.tags@, words, words.flatten());
    }
}

/// A struct is shown with its documentation, its contract and its name, and its fields with their
/// types and names.
pub proof fn law_struct_texts_tell_the_fields(decl: StructDecl)
    ensures
        struct_text(decl) == shown_as_code(
            decl.tags@,
            seq!["struct "@] + of_contract(
                match decl.contract {
                    Some(c) => Some(c@),
                    None => None,
                },
            ) + seq![decl.id.name@, " {\n"@] + separated(
                decl.fields@.map_values(
                    |p: Parameter| "\t"@ + p.ty.text@ + " "@ + name_of(p),
                ),
                ",\n"@,
            ) + seq!["\n}"@],
        ),
{
    reveal_strlit("");
    let fs = decl.fields@.map_values(|p: Parameter| "\t"@ + p.ty.text@ + " "@ + name_of(p));
    assert(fs =~= struct_field_texts(decl.fields@)) by {
        assert forall|i: int| 0 <= i < fs.len() implies fs[i] == struct_field_texts(
            decl.fields@,
        )[i] by {
            assert(name_of(decl.fields@[i]) =~= parameter_name(decl.fields@[i]));
        }
    }
    lemma_declared(
        decl.tags@,
        "struct "@,
        decl.contract,
        decl.id.name@,
        fs,
    );
}

/// An enum is shown with its documentation, its contract and its name, and the names of its values.
pub proof fn law_enum_texts_tell_the_values(decl: EnumDecl)
    ensures
        enum_text(decl) == shown_as_code(
            decl.tags@,
            seq!["enum "@] + of_contract(
                match decl.contract {
                    Some(c) => Some(c@),
                    None => None,
                },
            ) + seq![decl.id.name@, " {\n"@] + separated(
                decl.values@.map_values(|v: (String, Loc)| "\t"@ + v.0@),
                ",\n"@,
            ) + seq!["\n}"@],
        ),
{
    let vs = decl.values@.map_values(|v: (String, Loc)| "\t"@ + v.0@);
    assert(vs =~= value_texts(decl.values@));
    lemma_declared(decl.tags@, "enum "@, decl.contract, decl.id.name@, vs);
}

proof fn lemma_declared(
    tags: Seq<char>,
    word: Seq<char>,
    contract: Option<String>,
    name: Seq<char>,
    parts: Seq<Seq<char>>,
)
    ensures
        tags_above(tags) + code_block(
            word + qualified(contract, name) + " {\n"@ + joined(parts, ",\n"@) + "\n}"@,
        ) == shown_as_code(
            tags,
            seq![word] + of_contract(
                match contract {
                    Some(c) => Some(c@),
                    None => None,
                },
            ) + seq![name, " {\n"@] + separated(parts, ",\n"@) + seq!["\n}"@],
        ),
{
    let given = match contract {
        Some(c) => Some(c@),
        None => None,
    };
    let prefix = match contract {
        Some(c) => c@ + "."@,
        None => Seq::<char>::empty(),
    };
    let c = of_contract(given);
    lemma_of_contract(given, prefix);
    law_texts_are_joined(parts, ",\n"@);
    let w0 = Seq::<Seq<char>>::empty();
    let w1 = lemma_word(w0, word);
    lemma_flat_add(w1, c);
    let w2 = w1 + c;
    let w3 = lemma_word(w2, name);
    let w4 = lemma_word(w3, " {\n"@);
    lemma_flat_add(w4, separated(parts, ",\n"@));
    let w5 = w4 + separated(parts, ",\n"@);
    let w6 = lemma_word(w5, "\n}"@);
    assert(w0.flatten() + word =~= word);
    let words = seq![word] + c + seq![name, " {\n"@] + separated(parts, ",\n"@) + seq!["\n}"@];
    assert(words =~= w6);
    assert(word + prefix + name =~= word + qualified(contract, name));
    lemma_code(tags, words, words.flatten());
}

/// An event is shown with its documentation, its contract and its name, and its fields with their
/// types and names. Fields that are indexed and events that are anonymous are marked.
pub proof fn law_event_texts_tell_the_fields(ns: Namespace, event: EventDecl)
    ensures
        event_text(ns, event) is Some <==> (event.contract matches Some(n) ==> n
            < ns.contracts@.len()),
        event_text(ns, event) matches Some(text) ==> text == shown_as_code(
            event.tags@,
            seq!["event "@] + of_contract(contract_name(ns, event.contract)) + seq![
                event.id.name@,
                " {\n"@,
            ] + separated(
                event.fields@.map_values(
                    |p: Parameter|
                        "\t"@ + p.ty.text@ + (if p.indexed {
                            " indexed "@
                        } else {
                            " "@
                        }) + name_of(p),
                ),
                ",\n"@,
            ) + seq!["\n}"@] + if event.anonymous {
                seq![" anonymous"@]
            } else {
                Seq::empty()
            },
        ),
{
    reveal_strlit("");
    lemma_prefix(ns, event.contract);
    if let Some(contract) = contract_prefix(ns, event.contract) {
        let c = of_contract(contract_name(ns, event.contract));
        let fs = event.fields@.map_values(
            |p: Parameter|
                "\t"@ + p.ty.text@ + (if p.indexed {
                    " indexed "@
                } else {
                    " "@
                }) + name_of(p),
        );
        assert(fs =~= event_field_texts(event.fields@)) by {
            assert forall|i: int| 0 <= i < fs.len() implies fs[i] == event_field_texts(
                event.fields@,
            )[i] by {
                assert(name_of(event.fields@[i]) =~= parameter_name(
                    event.fields@[i],
                ));
            }
        }
        let tail: Seq<Seq<char>> = if event.anonymous {
            seq![" anonymous"@]
        } else {
            Seq::empty()
        };
        law_texts_are_joined(fs, ",\n"@);
        let w0 = Seq::<Seq<char>>::empty();
        let w1 = lemma_word(w0, "event "@);
        lemma_flat_add(w1, c);
        let w2 = w1 + c;
        let w3 = lemma_word(w2, event.id.name@);
        let w4 = lemma_word(w3, " {\n"@);
        lemma_flat_add(w4, separated(fs, ",\n"@));
        let w5 = w4 + separated(fs, ",\n"@);
        let w6 = lemma_word(w5, "\n}"@);
        lemma_flat_add(w6, tail);
        let w7 = w6 + tail;
        lemma_flat_one(" anonymous"@);
        assert(w0.flatten() + "event "@ =~= "event "@);
        let words = seq!["event "@] + c + seq![event.id.name@, " {\n"@] + separated(fs, ",\n"@)
            + seq!["\n}"@] + tail;
        assert(words =~= w7);
        assert("event "@ + contract + event.id.name@ =~= "event "@ + (contract + event.id.name@));
        let last = if event.anonymous {
            " anonymous"@
        } else {
            ""@
        };
        assert(tail.flatten() =~= last);
        lemma_code(event.tags@, words, words.flatten());
    }
}

/// A reference is shown as its target, a struct and an enum as their declarations, and every other
/// type by its name.
pub proof fn law_types_are_expanded(ns: Namespace, ty: SolidityType)
    ensures
        ty.shape matches TypeShape::Ref(target) ==> expanded(ns, ty) == expanded(ns, *target),
        ty.shape matches TypeShape::StorageRef(target) ==> expanded(ns, ty) == expanded(ns, *target),
        ty.shape matches TypeShape::Struct(st) ==> (struct_of(ns, st) matches Some(decl) ==> expanded(
            ns,
            ty,
        ) == Some(struct_text(decl))),
        ty.shape matches TypeShape::Enum(n) ==> expanded(ns, ty) == if n < ns.enums@.len() {
            Some(enum_text(ns.enums@[n as int]))
        } else {
            None
        },
        ty.shape is Array || ty.shape is Contract || ty.shape is UserType || ty.shape is DynamicBytes
            || ty.shape is Other ==> expanded(ns, ty) == Some(
            shown_as_code(Seq::empty(), seq![ty.text@]),
        ),
{
    lemma_flat_one(ty.text@);
    lemma_code(Seq::empty(), seq![ty.text@], ty.text@);
    assert(tags_above(Seq::empty()) + code_block(ty.text@) =~= code_block(ty.text@));
}

proof fn lemma_constant(constants: Seq<(Loc, ConstantValue)>, loc: Loc, i: nat, k: int)
    requires
        i <= k < constants.len(),
        constants[k].0 == loc,
        forall|j: int| i <= j < k ==> (#[trigger] constants[j]).0 != loc,
    ensures
        constant_at(constants, loc, i) == Some(constants[k].1),
    decreases k - i,
{
    if i < k {
        assert(constants[i as int].0 != loc);
        lemma_constant(constants, loc, i + 1, k);
    }
}

proof fn lemma_no_constant(constants: Seq<(Loc, ConstantValue)>, loc: Loc, i: nat)
    requires
        forall|j: int| i <= j < constants.len() ==> (#[trigger] constants[j]).0 != loc,
    ensures
        constant_at(constants, loc, i) is None,
    decreases (if i < constants.len() { constants.len() - i } else { 0 }),
{
    if i < constants.len() {
        assert(constants[i as int].0 != loc);
        lemma_no_constant(constants, loc, i + 1);
    }
}

/// Behind the name of a constant stands its value, where one is known for its location: an integer as
/// its numeral, bytes as hexadecimal digits in quotation marks. Nothing stands there otherwise.
pub proof fn law_constants_are_shown(ns: Namespace, loc: Loc, k: int)
    ensures
        ({
            let constants = ns.var_constants@;
            &&& 0 <= k < constants.len() && constants[k].0 == loc && (forall|j: int|
                0 <= j < k ==> (#[trigger] constants[j]).0 != loc) ==> {
                &&& constants[k].1 matches ConstantValue::NumberLiteral { is_integer, value } ==> (
                is_integer ==> constant_suffix(ns, loc) == seq![" = "@, value@].flatten()) && (
                !is_integer ==> constant_suffix(ns, loc).len() == 0)
                &&& constants[k].1 matches ConstantValue::BytesLiteral { ty, value } ==> (
                ty is Bytes || ty is DynamicBytes ==> constant_suffix(ns, loc) == seq![
                    " = "@,
                    "hex\""@,
                    hex_digits(value@),
                    "\""@,
                ].flatten()) && (ty is Other ==> constant_suffix(ns, loc).len() == 0)
                &&& constants[k].1 is Other ==> constant_suffix(ns, loc).len() == 0
            }
            &&& (forall|j: int| 0 <= j < constants.len() ==> (#[trigger] constants[j]).0 != loc)
                ==> constant_suffix(ns, loc).len() == 0
        }),
{
    reveal_strlit("");
    let constants = ns.var_constants@;
    if 0 <= k < constants.len() && constants[k].0 == loc && (forall|j: int|
        0 <= j < k ==> (#[trigger] constants[j]).0 != loc) {
        lemma_constant(constants, loc, 0, k);
        let w0 = Seq::<Seq<char>>::empty();
        let w1 = lemma_word(w0, " = "@);
        assert(w0.flatten() + " = "@ =~= " = "@);
        match constants[k].1 {
            ConstantValue::NumberLiteral { is_integer, value } => {
                let w2 = lemma_word(w1, value@);
                assert(w2 =~= seq![" = "@, value@]);
            },
            ConstantValue::BytesLiteral { ty, value } => {
                let w2 = lemma_word(w1, "hex\""@);
                let w3 = lemma_word(w2, hex_digits(value@));
                let w4 = lemma_word(w3, "\""@);
                assert(w4 =~= seq![" = "@, "hex\""@, hex_digits(value@), "\""@]);
                assert(" = "@ + ("hex\""@ + hex_digits(value@) + "\""@) =~= " = "@ + "hex\""@
                    + hex_digits(value@) + "\""@);
            },
            _ => {},
        }
    }
    if forall|j: int| 0 <= j < constants.len() ==> (#[trigger] constants[j]).0 != loc {
        lemma_no_constant(constants, loc, 0);
    }
}

/// An operation is shown with the type it works on, with what it does, and with the mark of those
/// that are not checked.
pub proof fn law_operations_are_shown(ty: Seq<char>, unchecked: bool)
    ensures
        ({
            let mark = if unchecked {
                seq!["unchecked "@]
            } else {
                Seq::empty()
            };
            &&& arithmetic_text(ArithmeticOp::Add { unchecked }, ty) == (mark + seq![
                " "@,
                ty,
                " addition"@,
            ]).flatten()
            &&& arithmetic_text(ArithmeticOp::Subtract { unchecked }, ty) == (mark + seq![
                " "@,
                ty,
                " subtraction"@,
            ]).flatten()
            &&& arithmetic_text(ArithmeticOp::Multiply { unchecked }, ty) == (mark + seq![
                " "@,
                ty,
                " multiply"@,
            ]).flatten()
            &&& arithmetic_text(ArithmeticOp::Power { unchecked }, ty) == (mark + seq![
                " "@,
                ty,
                "power"@,
            ]).flatten()
            &&& arithmetic_text(ArithmeticOp::Divide, ty) == seq![ty, " divide"@].flatten()
            &&& arithmetic_text(ArithmeticOp::Modulo, ty) == seq![ty, " modulo"@].flatten()
        }),
{
    reveal_strlit("");
    let mark: Seq<Seq<char>> = if unchecked {
        seq!["unchecked "@]
    } else {
        Seq::empty()
    };
    lemma_flat_one("unchecked "@);
    assert(mark.flatten() =~= unchecked_prefix(unchecked));
    lemma_operation(mark, ty, " addition"@);
    lemma_operation(mark, ty, " subtraction"@);
    lemma_operation(mark, ty, " multiply"@);
    lemma_operation(mark, ty, "power"@);
    let w0 = Seq::<Seq<char>>::empty();
    let w1 = lemma_word(w0, ty);
    assert(w0.flatten() + ty =~= ty);
    let w2 = lemma_word(w1, " divide"@);
    assert(w2 =~= seq![ty, " divide"@]);
    let w3 = lemma_word(w1, " modulo"@);
    assert(w3 =~= seq![ty, " modulo"@]);
}

proof fn lemma_operation(mark: Seq<Seq<char>>, ty: Seq<char>, name: Seq<char>)
    ensures
        (mark + seq![" "@, ty, name]).flatten() == mark.flatten() + " "@ + ty + name,
{
    let w1 = lemma_word(mark, " "@);
    let w2 = lemma_word(w1, ty);
    let w3 = lemma_word(w2, name);
    assert(w3 =~= mark + seq![" "@, ty, name]);
}

/// White space at the end of a text is cut off, all of it and nothing else. Blanks, tabs and the ends
/// of lines are white space, and the other characters of plain text are not.
pub proof fn law_texts_are_trimmed(text: Seq<char>, c: char)
    ensures
        trimmed(text).is_prefix_of(text),
        trimmed(text).len() > 0 ==> !is_white(trimmed(text).last()),
        forall|i: int| trimmed(text).len() <= i < text.len() ==> is_white(#[trigger] text[i]),
        c == ' ' || c == '\t' || c == '\n' || c == '\r' ==> is_white(c),
        '!' <= c <= '~' ==> !is_white(c),
    decreases text.len(),
{
    if text.len() > 0 && is_white(text.last()) {
        law_texts_are_trimmed(text.drop_last(), c);
        assert(trimmed(text) == trimmed(text.drop_last()));
        assert(trimmed(text) =~= text.subrange(0, trimmed(text).len() as int));
        assert forall|i: int| trimmed(text).len() <= i < text.len() implies is_white(
            #[trigger] text[i],
        ) by {
            if i < text.len() - 1 {
                assert(text.drop_last()[i] == text[i]);
            }
        }
    }
}

/// A function of the language itself is shown with its documentation, its results, its name, and its
/// parameters in brackets where it has any.
pub proof fn law_builtin_texts_tell_the_signature(p: Prototype)
    ensures
        ({
            let rets = p.ret@.map_values(|s: String| s@);
            let params = p.params@.map_values(|s: String| s@);
            let listed = separated(params, " "@);
            builtin_text(Some(p)) == p.doc@ + "\n\n"@ + shown_as_code(
                Seq::empty(),
                seq!["[built-in] "@] + separated(rets, " "@) + seq![" "@, p.name@, " "@] + (
                if listed.flatten().len() == 0 {
                    Seq::empty()
                } else {
                    seq!["("@] + listed + seq![")"@]
                }),
            )
        }),
{
    let rets = p.ret@.map_values(|s: String| s@);
    let params = p.params@.map_values(|s: String| s@);
    assert(rets =~= texts(p.ret@));
    assert(params =~= texts(p.params@));
    law_texts_are_joined(rets, " "@);
    law_texts_are_joined(params, " "@);
    let listed = separated(params, " "@);
    let tail: Seq<Seq<char>> = if listed.flatten().len() == 0 {
        Seq::empty()
    } else {
        seq!["("@] + listed + seq![")"@]
    };
    let shown = if listed.flatten().len() == 0 {
        joined(params, " "@)
    } else {
        "("@ + joined(params, " "@) + ")"@
    };
    if listed.flatten().len() > 0 {
        lemma_flat_one("("@);
        lemma_flat_add(seq!["("@], listed);
        lemma_flat_one(")"@);
        lemma_flat_add(seq!["("@] + listed, seq![")"@]);
    }
    assert(tail.flatten() =~= shown);
    let w0 = Seq::<Seq<char>>::empty();
    let w1 = lemma_word(w0, "[built-in] "@);
    lemma_flat_add(w1, separated(rets, " "@));
    let w2 = w1 + separated(rets, " "@);
    let w3 = lemma_word(w2, " "@);
    let w4 = lemma_word(w3, p.name@);
    let w5 = lemma_word(w4, " "@);
    lemma_flat_add(w5, tail);
    assert(w0.flatten() + "[built-in] "@ =~= "[built-in] "@);
    let words = seq!["[built-in] "@] + separated(rets, " "@) + seq![" "@, p.name@, " "@] + tail;
    assert(words =~= w5 + tail);
    lemma_code(Seq::empty(), words, words.flatten());
    assert(tags_above(Seq::empty()) + code_block(words.flatten()) =~= code_block(words.flatten()));
}

} // verus!
