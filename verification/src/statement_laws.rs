//! What is collected from the statements of a function.

use vstd::prelude::*;

use crate::builder::{
    defined, defined_in, expression_built, file_at, hovered, hovered_in, parameter_type_referred,
    referred, typed, variable_defined, Built, HoverModel,
};
use crate::definitions::{law_put_then_find, unplaced, value_at, Definition, DefinitionType};
use crate::expression_laws::{
    goes_on, law_parts_are_told, leads_down, lemma_expression_goes_on, lemma_expressions_go_on,
    lemma_expressions_pass, lemma_here, lemma_hovered, lemma_join, lemma_passes_on, lemma_referred,
    lemma_same, lemma_still_points, lemma_still_says, lemma_still_tells, lemma_type_referred,
    lemma_wider, passes, points, says, tells, touches, Touched,
};
use crate::hover_text::{
    code_block, constant_suffix, event_text, expanded, local_variable, readonly_suffix,
};
use crate::namespace::{
    range_of, span, type_definition, DestructureField, Expression, Loc, LocalVariable, Namespace,
    Parameter, Statement,
};
use crate::statements::{
    clauses_built, declaration_text, event_use, parts_built, some_expression_built, statement_built,
    statements_built,
};

verus! {

/// Whether a text is shown for a range of the file in which another location lies.
pub open spec fn says_in(b: Option<Built>, file_loc: Loc, loc: Loc, text: Seq<char>) -> bool {
    b is Some ==> file_loc is File && span(loc) is Some && b->Some_0.hovers.contains(
        HoverModel {
            file_no: file_loc->File_0,
            start: span(loc)->Some_0.1,
            stop: span(loc)->Some_0.2,
            val: text,
        },
    )
}

pub proof fn lemma_still_says_in(
    a: Option<Built>,
    b: Option<Built>,
    t: Touched,
    file_loc: Loc,
    loc: Loc,
    text: Seq<char>,
)
    requires
        goes_on(a, b, t),
        says_in(a, file_loc, loc, text),
    ensures
        says_in(b, file_loc, loc, text),
{
    reveal(goes_on);
    if b is Some {
        let h = HoverModel {
            file_no: file_loc->File_0,
            start: span(loc)->Some_0.1,
            stop: span(loc)->Some_0.2,
            val: text,
        };
        let k = choose|k: int| 0 <= k < a->Some_0.hovers.len() && a->Some_0.hovers[k] == h;
        assert(b->Some_0.hovers[k] == h);
    }
}

pub proof fn lemma_hovered_in(b: Option<Built>, file_loc: Loc, loc: Loc, text: Seq<char>)
    ensures
        goes_on(b, hovered_in(b, file_loc, loc, text), Touched::Nothing),
        says_in(hovered_in(b, file_loc, loc, text), file_loc, loc, text),
{
    reveal(goes_on);
    reveal(hovered_in);
    let r = hovered_in(b, file_loc, loc, text);
    if r is Some {
        let n = b->Some_0.hovers.len() as int;
        assert(r->Some_0.hovers[n] == r->Some_0.hovers.last());
    }
}

/// Whether nothing is known yet of where a code object is defined.
pub open spec fn unknown(b: Option<Built>, def: DefinitionType) -> bool {
    b is Some ==> forall|path: Seq<char>| #[trigger]
        value_at(b->Some_0.definitions, Definition { path, def }) is None
}

/// Whether a code object is known to be defined at `loc`, in the file in which `file_loc` lies, and
/// in no other file.
pub open spec fn placed_at(
    ns: Namespace,
    b: Option<Built>,
    file_loc: Loc,
    loc: Loc,
    def: DefinitionType,
) -> bool {
    b is Some ==> {
        &&& file_at(ns, file_loc) is Some
        &&& loc is File
        &&& value_at(
            b->Some_0.definitions,
            Definition { path: file_at(ns, file_loc)->Some_0.path@, def },
        ) == Some(
            range_of(file_at(ns, file_loc)->Some_0.line_starts@, loc->File_1, loc->File_2),
        )
        &&& forall|path: Seq<char>|
            path != file_at(ns, file_loc)->Some_0.path@ ==> #[trigger] value_at(
                b->Some_0.definitions,
                Definition { path, def },
            ) is None
    }
}

/// Whether a code object of the file in which `loc` lies is known to be of a type.
pub open spec fn typed_at(
    ns: Namespace,
    b: Option<Built>,
    loc: Loc,
    def: DefinitionType,
    ty: DefinitionType,
) -> bool {
    b is Some ==> {
        &&& file_at(ns, loc) is Some
        &&& value_at(
            b->Some_0.types,
            Definition { path: file_at(ns, loc)->Some_0.path@, def },
        ) == Some(unplaced(ty))
    }
}

/// Whether the same is known in both of where a code object is defined and of which type it is.
pub open spec fn keeps(a: Option<Built>, b: Option<Built>, def: DefinitionType) -> bool {
    b is Some ==> a is Some && forall|path: Seq<char>|
        #![trigger value_at(b->Some_0.definitions, Definition { path, def })]
        #![trigger value_at(b->Some_0.types, Definition { path, def })]
        value_at(b->Some_0.definitions, Definition { path, def }) == value_at(
            a->Some_0.definitions,
            Definition { path, def },
        ) && value_at(b->Some_0.types, Definition { path, def }) == value_at(
            a->Some_0.types,
            Definition { path, def },
        )
}

pub proof fn lemma_keeps(a: Option<Built>, b: Option<Built>, t: Touched, def: DefinitionType)
    requires
        goes_on(a, b, t),
        !touches(t, def),
    ensures
        keeps(a, b, def),
{
    reveal(goes_on);
    if b is Some {
        assert forall|path: Seq<char>|
            #![trigger value_at(b->Some_0.definitions, Definition { path, def })]
            #![trigger value_at(b->Some_0.types, Definition { path, def })]
            value_at(b->Some_0.definitions, Definition { path, def }) == value_at(
                a->Some_0.definitions,
                Definition { path, def },
            ) && value_at(b->Some_0.types, Definition { path, def }) == value_at(
                a->Some_0.types,
                Definition { path, def },
            ) by {
            let key = Definition { path, def };
            assert(value_at(b->Some_0.definitions, key) == value_at(a->Some_0.definitions, key));
        }
    }
}

pub proof fn lemma_defined_in(
    ns: Namespace,
    b: Option<Built>,
    file_loc: Loc,
    loc: Loc,
    def: DefinitionType,
    t: Touched,
)
    requires
        touches(t, def),
    ensures
        goes_on(b, defined_in(ns, b, file_loc, loc, def), t),
        unknown(b, def) ==> placed_at(
            ns,
            defined_in(ns, b, file_loc, loc, def),
            file_loc,
            loc,
            def,
        ),
        forall|other: DefinitionType|
            other != def ==> #[trigger] keeps(b, defined_in(ns, b, file_loc, loc, def), other),
{
    reveal(goes_on);
    reveal(defined_in);
    let r = defined_in(ns, b, file_loc, loc, def);
    if r is Some {
        let file = file_at(ns, file_loc)->Some_0;
        let own = Definition { path: file.path@, def };
        let range = range_of(file.line_starts@, loc->File_1, loc->File_2);
        assert forall|key: Definition| key != own implies #[trigger] value_at(
            r->Some_0.definitions,
            key,
        ) == value_at(b->Some_0.definitions, key) by {
            law_put_then_find(b->Some_0.definitions, own, range, key);
        }
        let other = Definition { path: file.path@ + seq!['x'], def };
        assert(other.path.len() != own.path.len());
        law_put_then_find(b->Some_0.definitions, own, range, other);
    }
}

pub proof fn lemma_typed(
    ns: Namespace,
    b: Option<Built>,
    loc: Loc,
    def: DefinitionType,
    ty: Option<DefinitionType>,
    t: Touched,
)
    requires
        touches(t, def),
    ensures
        goes_on(b, typed(ns, b, loc, def, ty), t),
        typed(ns, b, loc, def, ty) is Some ==> b is Some && typed(
            ns,
            b,
            loc,
            def,
            ty,
        )->Some_0.definitions == b->Some_0.definitions,
        ty is Some ==> typed_at(ns, typed(ns, b, loc, def, ty), loc, def, ty->Some_0),
        forall|other: DefinitionType|
            other != def ==> #[trigger] keeps(b, typed(ns, b, loc, def, ty), other),
{
    reveal(goes_on);
    reveal(typed);
    let r = typed(ns, b, loc, def, ty);
    if r is Some && ty is Some {
        let file = file_at(ns, loc)->Some_0;
        let own = Definition { path: file.path@, def };
        assert forall|key: Definition| key != own implies #[trigger] value_at(r->Some_0.types, key)
            == value_at(b->Some_0.types, key) by {
            law_put_then_find(b->Some_0.types, own, unplaced(ty->Some_0), key);
        }
        let other = Definition { path: file.path@ + seq!['x'], def };
        assert(other.path.len() != own.path.len());
        law_put_then_find(b->Some_0.types, own, unplaced(ty->Some_0), other);
        assert forall|key: Definition| !touches(t, key.def) implies #[trigger] value_at(
            r->Some_0.definitions,
            key,
        ) == value_at(b->Some_0.definitions, key) && value_at(r->Some_0.types, key) == value_at(
            b->Some_0.types,
            key,
        ) by {
            assert(value_at(r->Some_0.types, key) == value_at(b->Some_0.types, key));
        }
    }
}

/// A code object is defined where it stands, and of a type.
pub proof fn lemma_defined_typed(
    ns: Namespace,
    b: Option<Built>,
    loc: Loc,
    def: DefinitionType,
    ty: Option<DefinitionType>,
    t: Touched,
)
    requires
        touches(t, def),
    ensures
        ({
            let r = typed(ns, defined(ns, b, loc, def), loc, def, ty);
            &&& goes_on(b, r, t)
            &&& unknown(b, def) ==> placed_at(ns, r, loc, loc, def)
            &&& ty is Some ==> typed_at(ns, r, loc, def, ty->Some_0)
            &&& forall|other: DefinitionType| other != def ==> #[trigger] keeps(b, r, other)
        }),
{
    let d = defined(ns, b, loc, def);
    let r = typed(ns, d, loc, def, ty);
    lemma_defined_in(ns, b, loc, loc, def, t);
    lemma_typed(ns, d, loc, def, ty, t);
    lemma_join(b, d, r, t, t, t);
    assert forall|other: DefinitionType| other != def implies #[trigger] keeps(b, r, other) by {
        assert(keeps(b, d, other));
        assert(keeps(d, r, other));
    }
}

proof fn lemma_variable_defined(ns: Namespace, b: Option<Built>, param: Parameter, var_no: usize)
    ensures
        goes_on(b, variable_defined(ns, b, param, var_no), Touched::Locals),
{
    match param.id {
        Some(id) => lemma_defined_typed(
            ns,
            b,
            id.loc,
            DefinitionType::Variable(var_no),
            type_definition(param.ty),
            Touched::Locals,
        ),
        None => {
            lemma_same(b);
            lemma_wider(b, b, Touched::Nothing, Touched::Locals);
        },
    }
}

pub proof fn lemma_parameter_type(b: Option<Built>, param: Parameter)
    ensures
        goes_on(b, parameter_type_referred(b, param), Touched::Nothing),
        param.ty_loc is Some && type_definition(param.ty) is Some ==> points(
            parameter_type_referred(b, param),
            param.ty_loc->Some_0,
            type_definition(param.ty)->Some_0,
        ),
{
    lemma_same(b);
    if let Some(loc) = param.ty_loc {
        lemma_type_referred(b, loc, param.ty);
    }
}

/// A variable is defined where its name stands, and its type is referred to where it is written.
pub proof fn lemma_variable_and_type(ns: Namespace, b: Option<Built>, param: Parameter, var_no: usize)
    ensures
        ({
            let r = parameter_type_referred(variable_defined(ns, b, param, var_no), param);
            &&& goes_on(b, r, Touched::Locals)
            &&& param.ty_loc is Some && type_definition(param.ty) is Some ==> points(
                r,
                param.ty_loc->Some_0,
                type_definition(param.ty)->Some_0,
            )
        }),
{
    let v = variable_defined(ns, b, param, var_no);
    lemma_variable_defined(ns, b, param, var_no);
    lemma_parameter_type(v, param);
    lemma_join(
        b,
        v,
        parameter_type_referred(v, param),
        Touched::Locals,
        Touched::Nothing,
        Touched::Locals,
    );
}

pub proof fn lemma_some_goes_on(
    ns: Namespace,
    vars: Seq<(usize, LocalVariable)>,
    e: Option<Expression>,
    b: Option<Built>,
)
    ensures
        goes_on(b, some_expression_built(ns, vars, e, b), Touched::Nothing),
{
    lemma_same(b);
    if let Some(x) = e {
        lemma_expression_goes_on(ns, vars, x, b);
    }
}

/// What goes on without touching anything, and then touches variables.
proof fn lemma_plain_then(a: Option<Built>, b: Option<Built>, c: Option<Built>)
    requires
        goes_on(a, b, Touched::Nothing),
        goes_on(b, c, Touched::Locals),
    ensures
        goes_on(a, c, Touched::Locals),
{
    lemma_join(a, b, c, Touched::Nothing, Touched::Locals, Touched::Locals);
}

proof fn lemma_locals_then(a: Option<Built>, b: Option<Built>, c: Option<Built>)
    requires
        goes_on(a, b, Touched::Locals),
        goes_on(b, c, Touched::Locals),
    ensures
        goes_on(a, c, Touched::Locals),
{
    lemma_join(a, b, c, Touched::Locals, Touched::Locals, Touched::Locals);
}

proof fn lemma_locals(a: Option<Built>, b: Option<Built>)
    requires
        goes_on(a, b, Touched::Nothing),
    ensures
        goes_on(a, b, Touched::Locals),
{
    lemma_wider(a, b, Touched::Nothing, Touched::Locals);
}

proof fn lemma_parts_go_on(
    ns: Namespace,
    vars: Seq<(usize, LocalVariable)>,
    fields: Seq<DestructureField>,
    n: nat,
    b: Option<Built>,
)
    ensures
        goes_on(b, parts_built(ns, vars, fields, n, b), Touched::Locals),
    decreases n,
{
    lemma_same(b);
    lemma_locals(b, b);
    if n > 0 && n <= fields.len() {
        let before = parts_built(ns, vars, fields, (n - 1) as nat, b);
        let after = parts_built(ns, vars, fields, n, b);
        lemma_parts_go_on(ns, vars, fields, (n - 1) as nat, b);
        lemma_part_added(ns, vars, fields, n, b);
        lemma_locals_then(b, before, after);
    }
}

proof fn lemma_part_added(
    ns: Namespace,
    vars: Seq<(usize, LocalVariable)>,
    fields: Seq<DestructureField>,
    n: nat,
    b: Option<Built>,
)
    requires
        0 < n <= fields.len(),
    ensures
        goes_on(
            parts_built(ns, vars, fields, (n - 1) as nat, b),
            parts_built(ns, vars, fields, n, b),
            Touched::Locals,
        ),
        fields[n - 1] matches DestructureField::Expression(e) ==> passes(
            ns,
            vars,
            e,
            parts_built(ns, vars, fields, n, b),
            Touched::Locals,
        ),
        fields[n - 1] matches DestructureField::VariableDecl(no, param) ==> tells_part(
            ns,
            param,
            parts_built(ns, vars, fields, n, b),
        ),
{
    let before = parts_built(ns, vars, fields, (n - 1) as nat, b);
    let after = parts_built(ns, vars, fields, n, b);
    match fields[n - 1] {
        DestructureField::Expression(e) => {
            lemma_expression_goes_on(ns, vars, e, before);
            lemma_locals(before, after);
            lemma_here(ns, vars, e, before);
            lemma_same(after);
            lemma_passes_on(
                ns,
                vars,
                e,
                after,
                after,
                Touched::Nothing,
                Touched::Nothing,
                Touched::Locals,
            );
        },
        DestructureField::VariableDecl(no, param) => {
            let shown = hovered(before, param.loc, expanded(ns, param.ty));
            lemma_hovered(before, param.loc, expanded(ns, param.ty));
            lemma_variable_defined(ns, shown, param, no);
            lemma_plain_then(before, shown, after);
            if expanded(ns, param.ty) is Some {
                lemma_still_says(
                    shown,
                    after,
                    Touched::Locals,
                    param.loc,
                    expanded(ns, param.ty)->Some_0,
                );
            }
            reveal(goes_on);
        },
        DestructureField::Nothing => {
            lemma_same(before);
            lemma_locals(before, after);
        },
    }
}

/// Whether a variable of a destructuring assignment is shown with its type.
pub open spec fn tells_part(ns: Namespace, param: Parameter, b: Option<Built>) -> bool {
    &&& b is Some ==> expanded(ns, param.ty) is Some
    &&& says(b, param.loc, expanded(ns, param.ty)->Some_0)
}

/// Everything that is collected before a statement stays, and only variables are defined in it.
pub proof fn lemma_statement_goes_on(
    ns: Namespace,
    vars: Seq<(usize, LocalVariable)>,
    s: Statement,
    b: Option<Built>,
)
    ensures
        goes_on(b, statement_built(ns, vars, s, b), Touched::Locals),
    decreases s, 0nat,
{
    let r = statement_built(ns, vars, s, b);
    lemma_same(b);
    match s {
        Statement::Block { statements } => lemma_statements_go_on(
            ns,
            vars,
            statements@,
            statements@.len(),
            b,
        ),
        Statement::VariableDecl { loc, var_no, param, expr } => {
            let v = some_expression_built(ns, vars, expr, b);
            let text = declaration_text(ns, vars, loc, var_no, param);
            let shown = hovered_in(v, loc, param.loc, text);
            lemma_some_goes_on(ns, vars, expr, b);
            lemma_hovered_in(v, loc, param.loc, text);
            lemma_variable_and_type(ns, shown, param, var_no);
            lemma_plain_then(v, shown, r);
            lemma_plain_then(b, v, r);
        },
        Statement::If { cond, then_stmt, else_stmt } => {
            let c = expression_built(ns, vars, cond, b);
            let t = statements_built(ns, vars, then_stmt@, then_stmt@.len(), c);
            lemma_expression_goes_on(ns, vars, cond, b);
            lemma_statements_go_on(ns, vars, then_stmt@, then_stmt@.len(), c);
            lemma_statements_go_on(ns, vars, else_stmt@, else_stmt@.len(), t);
            lemma_locals_then(c, t, r);
            lemma_plain_then(b, c, r);
        },
        Statement::While { cond, body } => {
            let c = expression_built(ns, vars, cond, b);
            lemma_expression_goes_on(ns, vars, cond, b);
            lemma_statements_go_on(ns, vars, body@, body@.len(), c);
            lemma_plain_then(b, c, r);
        },
        Statement::For { init, cond, next, body } => {
            let c = some_expression_built(ns, vars, cond, b);
            let i = statements_built(ns, vars, init@, init@.len(), c);
            let n = some_expression_built(ns, vars, next, i);
            lemma_some_goes_on(ns, vars, cond, b);
            lemma_statements_go_on(ns, vars, init@, init@.len(), c);
            lemma_some_goes_on(ns, vars, next, i);
            lemma_statements_go_on(ns, vars, body@, body@.len(), n);
            lemma_plain_then(i, n, r);
            lemma_locals_then(c, i, r);
            lemma_plain_then(b, c, r);
        },
        Statement::DoWhile { body, cond } => {
            let c = expression_built(ns, vars, cond, b);
            lemma_expression_goes_on(ns, vars, cond, b);
            lemma_statements_go_on(ns, vars, body@, body@.len(), c);
            lemma_plain_then(b, c, r);
        },
        Statement::Expression { expr } => {
            lemma_expression_goes_on(ns, vars, expr, b);
            lemma_locals(b, r);
        },
        Statement::Delete { expr } => {
            lemma_expression_goes_on(ns, vars, expr, b);
            lemma_locals(b, r);
        },
        Statement::Destructure { fields, expr } => {
            let v = expression_built(ns, vars, expr, b);
            lemma_expression_goes_on(ns, vars, expr, b);
            lemma_parts_go_on(ns, vars, fields@, fields@.len(), v);
            lemma_plain_then(b, v, r);
        },
        Statement::Return { expr } => {
            lemma_some_goes_on(ns, vars, expr, b);
            lemma_locals(b, r);
        },
        Statement::Revert { args } => {
            lemma_expressions_go_on(ns, vars, args@, args@.len(), b);
            lemma_locals(b, r);
        },
        Statement::Emit { event_no, event_loc, args } => {
            let shown = hovered(b, event_loc, event_use(ns, event_no));
            let def = DefinitionType::Event(event_no);
            let p = referred(shown, event_loc, def);
            lemma_hovered(b, event_loc, event_use(ns, event_no));
            lemma_referred(shown, event_loc, def);
            lemma_expressions_go_on(ns, vars, args@, args@.len(), p);
            lemma_locals(p, r);
            lemma_plain_then(shown, p, r);
            lemma_plain_then(b, shown, r);
        },
        Statement::TryCatch { try_stmt } => {
            let x = expression_built(ns, vars, try_stmt.expr, b);
            let c = match try_stmt.catch_all {
                Some(clause) => statements_built(ns, vars, clause@, clause@.len(), x),
                None => x,
            };
            let ok = statements_built(ns, vars, try_stmt.ok_stmt@, try_stmt.ok_stmt@.len(), c);
            lemma_expression_goes_on(ns, vars, try_stmt.expr, b);
            lemma_same(x);
            lemma_locals(x, x);
            if let Some(clause) = try_stmt.catch_all {
                lemma_statements_go_on(ns, vars, clause@, clause@.len(), x);
            }
            lemma_statements_go_on(ns, vars, try_stmt.ok_stmt@, try_stmt.ok_stmt@.len(), c);
            lemma_clauses_go_on(ns, vars, try_stmt.errors@, try_stmt.errors@.len(), ok);
            lemma_locals_then(c, ok, r);
            lemma_locals_then(x, c, r);
            lemma_plain_then(b, x, r);
        },
        Statement::Continue | Statement::Break | Statement::Underscore | Statement::Assembly => {
            lemma_locals(b, b);
        },
    }
}

pub proof fn lemma_statements_go_on(
    ns: Namespace,
    vars: Seq<(usize, LocalVariable)>,
    statements: Seq<Statement>,
    n: nat,
    b: Option<Built>,
)
    ensures
        goes_on(b, statements_built(ns, vars, statements, n, b), Touched::Locals),
    decreases statements, n,
{
    lemma_same(b);
    lemma_locals(b, b);
    if n > 0 && n <= statements.len() {
        let before = statements_built(ns, vars, statements, (n - 1) as nat, b);
        lemma_statements_go_on(ns, vars, statements, (n - 1) as nat, b);
        lemma_statement_goes_on(ns, vars, statements[n - 1], before);
        lemma_locals_then(b, before, statement_built(ns, vars, statements[n - 1], before));
    }
}

proof fn lemma_clauses_go_on(
    ns: Namespace,
    vars: Seq<(usize, LocalVariable)>,
    clauses: Seq<Vec<Statement>>,
    n: nat,
    b: Option<Built>,
)
    ensures
        goes_on(b, clauses_built(ns, vars, clauses, n, b), Touched::Locals),
    decreases clauses, n,
{
    lemma_same(b);
    lemma_locals(b, b);
    if n > 0 && n <= clauses.len() {
        let before = clauses_built(ns, vars, clauses, (n - 1) as nat, b);
        let clause = clauses[n - 1]@;
        lemma_clauses_go_on(ns, vars, clauses, (n - 1) as nat, b);
        lemma_statements_go_on(ns, vars, clause, clause.len(), before);
        lemma_locals_then(b, before, statements_built(ns, vars, clause, clause.len(), before));
    }
}

pub open spec fn maybe(e: Option<Expression>) -> Seq<Expression> {
    match e {
        Some(x) => seq![x],
        None => Seq::empty(),
    }
}

/// The expressions of a statement itself.
pub open spec fn expressions_of(s: Statement) -> Seq<Expression> {
    match s {
        Statement::VariableDecl { loc, var_no, param, expr } => maybe(expr),
        Statement::If { cond, then_stmt, else_stmt } => seq![cond],
        Statement::While { cond, body } => seq![cond],
        Statement::For { init, cond, next, body } => maybe(cond) + maybe(next),
        Statement::DoWhile { body, cond } => seq![cond],
        Statement::Expression { expr } => seq![expr],
        Statement::Delete { expr } => seq![expr],
        Statement::Destructure { fields, expr } => seq![expr],
        Statement::Return { expr } => maybe(expr),
        Statement::Revert { args } => args@,
        Statement::Emit { event_no, event_loc, args } => args@,
        Statement::TryCatch { try_stmt } => seq![try_stmt.expr],
        _ => Seq::empty(),
    }
}

/// Whether one of the expressions of a statement is `e`: those of the statement itself, and those
/// that a destructuring assignment assigns to.
pub open spec fn has_expression(s: Statement, e: Expression) -> bool {
    ||| expressions_of(s).contains(e)
    ||| s matches Statement::Destructure { fields, expr } && fields@.contains(
        DestructureField::Expression(e),
    )
}

/// The lists of statements in a statement.
pub open spec fn blocks_of(s: Statement) -> Seq<Seq<Statement>> {
    match s {
        Statement::Block { statements } => seq![statements@],
        Statement::If { cond, then_stmt, else_stmt } => seq![then_stmt@, else_stmt@],
        Statement::While { cond, body } => seq![body@],
        Statement::For { init, cond, next, body } => seq![init@, body@],
        Statement::DoWhile { body, cond } => seq![body@],
        Statement::TryCatch { try_stmt } => (match try_stmt.catch_all {
            Some(clause) => seq![clause@],
            None => Seq::empty(),
        }).push(try_stmt.ok_stmt@) + try_stmt.errors@.map_values(|c: Vec<Statement>| c@),
        _ => Seq::empty(),
    }
}

/// Whether a statement stands in one of the blocks of another.
pub open spec fn has_statement(s: Statement, inner: Statement) -> bool {
    exists|k: int|
        0 <= k < blocks_of(s).len() && (#[trigger] blocks_of(s)[k]).contains(inner)
}

/// Whether something was collected from the statement on the way to `b`.
pub open spec fn reaches(
    ns: Namespace,
    vars: Seq<(usize, LocalVariable)>,
    s: Statement,
    b: Option<Built>,
) -> bool {
    exists|at: Option<Built>|
        goes_on(#[trigger] statement_built(ns, vars, s, at), b, Touched::Locals)
}

proof fn lemma_reaches_on(
    ns: Namespace,
    vars: Seq<(usize, LocalVariable)>,
    s: Statement,
    a: Option<Built>,
    b: Option<Built>,
)
    requires
        reaches(ns, vars, s, a),
        goes_on(a, b, Touched::Locals),
    ensures
        reaches(ns, vars, s, b),
{
    let at = choose|at: Option<Built>|
        goes_on(#[trigger] statement_built(ns, vars, s, at), a, Touched::Locals);
    lemma_locals_then(statement_built(ns, vars, s, at), a, b);
}

pub proof fn lemma_statements_reach(
    ns: Namespace,
    vars: Seq<(usize, LocalVariable)>,
    statements: Seq<Statement>,
    n: nat,
    b: Option<Built>,
    i: int,
)
    requires
        0 <= i < n <= statements.len(),
    ensures
        reaches(ns, vars, statements[i], statements_built(ns, vars, statements, n, b)),
    decreases n,
{
    let m = (n - 1) as nat;
    let before = statements_built(ns, vars, statements, m, b);
    let after = statements_built(ns, vars, statements, n, b);
    if i == m {
        lemma_same(after);
        lemma_locals(after, after);
        assert(after == statement_built(ns, vars, statements[i], before));
    } else {
        lemma_statements_reach(ns, vars, statements, m, b, i);
        lemma_statement_goes_on(ns, vars, statements[n - 1], before);
        lemma_reaches_on(ns, vars, statements[i], before, after);
    }
}

proof fn lemma_block_reaches(
    ns: Namespace,
    vars: Seq<(usize, LocalVariable)>,
    statements: Seq<Statement>,
    b: Option<Built>,
    inner: Statement,
    after: Option<Built>,
)
    requires
        statements.contains(inner),
        goes_on(
            statements_built(ns, vars, statements, statements.len(), b),
            after,
            Touched::Locals,
        ),
    ensures
        reaches(ns, vars, inner, after),
{
    let i = choose|i: int| 0 <= i < statements.len() && statements[i] == inner;
    lemma_statements_reach(ns, vars, statements, statements.len(), b, i);
    lemma_reaches_on(
        ns,
        vars,
        inner,
        statements_built(ns, vars, statements, statements.len(), b),
        after,
    );
}

proof fn lemma_clauses_reach(
    ns: Namespace,
    vars: Seq<(usize, LocalVariable)>,
    clauses: Seq<Vec<Statement>>,
    n: nat,
    b: Option<Built>,
    i: int,
    inner: Statement,
)
    requires
        0 <= i < n <= clauses.len(),
        clauses[i]@.contains(inner),
    ensures
        reaches(ns, vars, inner, clauses_built(ns, vars, clauses, n, b)),
    decreases n,
{
    let m = (n - 1) as nat;
    let before = clauses_built(ns, vars, clauses, m, b);
    let after = clauses_built(ns, vars, clauses, n, b);
    let clause = clauses[n - 1]@;
    lemma_same(after);
    lemma_locals(after, after);
    if i == m {
        lemma_block_reaches(ns, vars, clause, before, inner, after);
    } else {
        lemma_clauses_reach(ns, vars, clauses, m, b, i, inner);
        lemma_statements_go_on(ns, vars, clause, clause.len(), before);
        lemma_reaches_on(ns, vars, inner, before, after);
    }
}

/// Each statement in the blocks of a statement is reached.
proof fn lemma_inner_reached(
    ns: Namespace,
    vars: Seq<(usize, LocalVariable)>,
    s: Statement,
    b: Option<Built>,
    inner: Statement,
)
    requires
        has_statement(s, inner),
    ensures
        reaches(ns, vars, inner, statement_built(ns, vars, s, b)),
{
    let r = statement_built(ns, vars, s, b);
    let k = choose|k: int|
        0 <= k < blocks_of(s).len() && (#[trigger] blocks_of(s)[k]).contains(inner);
    lemma_same(r);
    lemma_locals(r, r);
    match s {
        Statement::Block { statements } => lemma_block_reaches(
            ns,
            vars,
            statements@,
            b,
            inner,
            r,
        ),
        Statement::If { cond, then_stmt, else_stmt } => {
            let c = expression_built(ns, vars, cond, b);
            let t = statements_built(ns, vars, then_stmt@, then_stmt@.len(), c);
            if k == 0 {
                lemma_statements_go_on(ns, vars, else_stmt@, else_stmt@.len(), t);
                lemma_block_reaches(ns, vars, then_stmt@, c, inner, r);
            } else {
                lemma_block_reaches(ns, vars, else_stmt@, t, inner, r);
            }
        },
        Statement::While { cond, body } => lemma_block_reaches(
            ns,
            vars,
            body@,
            expression_built(ns, vars, cond, b),
            inner,
            r,
        ),
        Statement::For { init, cond, next, body } => {
            let c = some_expression_built(ns, vars, cond, b);
            let i = statements_built(ns, vars, init@, init@.len(), c);
            let n = some_expression_built(ns, vars, next, i);
            if k == 0 {
                lemma_some_goes_on(ns, vars, next, i);
                lemma_statements_go_on(ns, vars, body@, body@.len(), n);
                lemma_plain_then(i, n, r);
                lemma_block_reaches(ns, vars, init@, c, inner, r);
            } else {
                lemma_block_reaches(ns, vars, body@, n, inner, r);
            }
        },
        Statement::DoWhile { body, cond } => lemma_block_reaches(
            ns,
            vars,
            body@,
            expression_built(ns, vars, cond, b),
            inner,
            r,
        ),
        Statement::TryCatch { try_stmt } => {
            let x = expression_built(ns, vars, try_stmt.expr, b);
            let c = match try_stmt.catch_all {
                Some(clause) => statements_built(ns, vars, clause@, clause@.len(), x),
                None => x,
            };
            let ok = statements_built(ns, vars, try_stmt.ok_stmt@, try_stmt.ok_stmt@.len(), c);
            let errors = try_stmt.errors@;
            let n = if try_stmt.catch_all is Some {
                1int
            } else {
                0int
            };
            lemma_clauses_go_on(ns, vars, errors, errors.len(), ok);
            if k < n {
                lemma_statements_go_on(ns, vars, try_stmt.ok_stmt@, try_stmt.ok_stmt@.len(), c);
                lemma_locals_then(c, ok, r);
                lemma_block_reaches(ns, vars, try_stmt.catch_all->Some_0@, x, inner, r);
            } else if k == n {
                lemma_block_reaches(ns, vars, try_stmt.ok_stmt@, c, inner, r);
            } else {
                lemma_clauses_reach(ns, vars, errors, errors.len(), ok, k - n - 1, inner);
            }
        },
        _ => {},
    }
}

proof fn lemma_locals_pass(
    ns: Namespace,
    vars: Seq<(usize, LocalVariable)>,
    e: Expression,
    a: Option<Built>,
    b: Option<Built>,
)
    requires
        passes(ns, vars, e, a, Touched::Nothing),
        goes_on(a, b, Touched::Locals),
    ensures
        passes(ns, vars, e, b, Touched::Locals),
{
    lemma_passes_on(ns, vars, e, a, b, Touched::Nothing, Touched::Locals, Touched::Locals);
}

proof fn lemma_parts_pass(
    ns: Namespace,
    vars: Seq<(usize, LocalVariable)>,
    fields: Seq<DestructureField>,
    n: nat,
    b: Option<Built>,
    i: int,
    e: Expression,
)
    requires
        0 <= i < n <= fields.len(),
        fields[i] == DestructureField::Expression(e),
    ensures
        passes(ns, vars, e, parts_built(ns, vars, fields, n, b), Touched::Locals),
    decreases n,
{
    lemma_part_added(ns, vars, fields, n, b);
    if i < n - 1 {
        lemma_parts_pass(ns, vars, fields, (n - 1) as nat, b, i, e);
        lemma_passes_on(
            ns,
            vars,
            e,
            parts_built(ns, vars, fields, (n - 1) as nat, b),
            parts_built(ns, vars, fields, n, b),
            Touched::Locals,
            Touched::Locals,
            Touched::Locals,
        );
    }
}

/// Each expression of a statement is passed.
proof fn lemma_expression_passed(
    ns: Namespace,
    vars: Seq<(usize, LocalVariable)>,
    s: Statement,
    b: Option<Built>,
    e: Expression,
)
    requires
        has_expression(s, e),
    ensures
        passes(ns, vars, e, statement_built(ns, vars, s, b), Touched::Locals),
{
    let r = statement_built(ns, vars, s, b);
    let es = expressions_of(s);
    lemma_same(r);
    lemma_locals(r, r);
    if !es.contains(e) {
        if let Statement::Destructure { fields, expr } = s {
            let f = DestructureField::Expression(e);
            let i = choose|i: int| 0 <= i < fields@.len() && fields@[i] == f;
            let v = expression_built(ns, vars, expr, b);
            lemma_parts_pass(ns, vars, fields@, fields@.len(), v, i, e);
        }
    } else {
        let k = choose|k: int| 0 <= k < es.len() && es[k] == e;
        match s {
            Statement::VariableDecl { loc, var_no, param, expr } => {
                let v = some_expression_built(ns, vars, expr, b);
                let text = declaration_text(ns, vars, loc, var_no, param);
                let shown = hovered_in(v, loc, param.loc, text);
                lemma_here(ns, vars, e, b);
                lemma_hovered_in(v, loc, param.loc, text);
                lemma_variable_and_type(ns, shown, param, var_no);
                lemma_plain_then(v, shown, r);
                lemma_locals_pass(ns, vars, e, v, r);
            },
            Statement::If { cond, then_stmt, else_stmt } => {
                let c = expression_built(ns, vars, cond, b);
                let t = statements_built(ns, vars, then_stmt@, then_stmt@.len(), c);
                lemma_here(ns, vars, e, b);
                lemma_statements_go_on(ns, vars, then_stmt@, then_stmt@.len(), c);
                lemma_statements_go_on(ns, vars, else_stmt@, else_stmt@.len(), t);
                lemma_locals_then(c, t, r);
                lemma_locals_pass(ns, vars, e, c, r);
            },
            Statement::While { cond, body } => {
                let c = expression_built(ns, vars, cond, b);
                lemma_here(ns, vars, e, b);
                lemma_statements_go_on(ns, vars, body@, body@.len(), c);
                lemma_locals_pass(ns, vars, e, c, r);
            },
            Statement::For { init, cond, next, body } => {
                let c = some_expression_built(ns, vars, cond, b);
                let i = statements_built(ns, vars, init@, init@.len(), c);
                let n = some_expression_built(ns, vars, next, i);
                lemma_statements_go_on(ns, vars, init@, init@.len(), c);
                lemma_some_goes_on(ns, vars, next, i);
                lemma_statements_go_on(ns, vars, body@, body@.len(), n);
                lemma_plain_then(i, n, r);
                if k < maybe(cond).len() {
                    lemma_here(ns, vars, e, b);
                    lemma_locals_then(c, i, r);
                    lemma_locals_pass(ns, vars, e, c, r);
                } else {
                    lemma_here(ns, vars, e, i);
                    lemma_locals_pass(ns, vars, e, n, r);
                }
            },
            Statement::DoWhile { body, cond } => {
                let c = expression_built(ns, vars, cond, b);
                lemma_here(ns, vars, e, b);
                lemma_statements_go_on(ns, vars, body@, body@.len(), c);
                lemma_locals_pass(ns, vars, e, c, r);
            },
            Statement::Expression { expr } => {
                lemma_here(ns, vars, e, b);
                lemma_locals_pass(ns, vars, e, r, r);
            },
            Statement::Delete { expr } => {
                lemma_here(ns, vars, e, b);
                lemma_locals_pass(ns, vars, e, r, r);
            },
            Statement::Destructure { fields, expr } => {
                let v = expression_built(ns, vars, expr, b);
                lemma_here(ns, vars, e, b);
                lemma_parts_go_on(ns, vars, fields@, fields@.len(), v);
                lemma_locals_pass(ns, vars, e, v, r);
            },
            Statement::Return { expr } => {
                lemma_here(ns, vars, e, b);
                lemma_locals_pass(ns, vars, e, r, r);
            },
            Statement::Revert { args } => {
                lemma_expressions_pass(ns, vars, args@, args@.len(), b, k);
                lemma_locals_pass(ns, vars, e, r, r);
            },
            Statement::Emit { event_no, event_loc, args } => {
                let p = referred(
                    hovered(b, event_loc, event_use(ns, event_no)),
                    event_loc,
                    DefinitionType::Event(event_no),
                );
                lemma_expressions_pass(ns, vars, args@, args@.len(), p, k);
                lemma_locals_pass(ns, vars, e, r, r);
            },
            Statement::TryCatch { try_stmt } => {
                let x = expression_built(ns, vars, try_stmt.expr, b);
                let c = match try_stmt.catch_all {
                    Some(clause) => statements_built(ns, vars, clause@, clause@.len(), x),
                    None => x,
                };
                let ok = statements_built(ns, vars, try_stmt.ok_stmt@, try_stmt.ok_stmt@.len(), c);
                lemma_here(ns, vars, e, b);
                lemma_same(x);
                lemma_locals(x, x);
                if let Some(clause) = try_stmt.catch_all {
                    lemma_statements_go_on(ns, vars, clause@, clause@.len(), x);
                }
                lemma_statements_go_on(ns, vars, try_stmt.ok_stmt@, try_stmt.ok_stmt@.len(), c);
                lemma_clauses_go_on(ns, vars, try_stmt.errors@, try_stmt.errors@.len(), ok);
                lemma_locals_then(c, ok, r);
                lemma_locals_then(x, c, r);
                lemma_locals_pass(ns, vars, e, x, r);
            },
            _ => {},
        }
    }
}

/// Whether what was collected says of a statement what it is: what is shown for it, and what it
/// refers to.
pub open spec fn tells_statement(
    ns: Namespace,
    vars: Seq<(usize, LocalVariable)>,
    s: Statement,
    b: Option<Built>,
) -> bool {
    match s {
        // the type and the name of the variable, its value and a note
        Statement::VariableDecl { loc, var_no, param, expr } => {
            &&& says_in(
                b,
                loc,
                param.loc,
                code_block(
                    param.ty.text@ + " "@ + (match param.id {
                        Some(id) => id.name@,
                        None => ""@,
                    }) + constant_suffix(ns, loc) + readonly_suffix(
                        local_variable(vars, var_no, 0),
                    ),
                ),
            )
            &&& param.ty_loc is Some && type_definition(param.ty) is Some ==> points(
                b,
                param.ty_loc->Some_0,
                type_definition(param.ty)->Some_0,
            )
        },
        Statement::Destructure { fields, expr } => forall|i: int|
            0 <= i < fields@.len() && (#[trigger] fields@[i]) is VariableDecl ==> tells_part(
                ns,
                fields@[i]->VariableDecl_1,
                b,
            ),
        // the event
        Statement::Emit { event_no, event_loc, args } => {
            &&& points(b, event_loc, DefinitionType::Event(event_no))
            &&& b is Some ==> event_no < ns.events@.len() && event_text(
                ns,
                ns.events@[event_no as int],
            ) is Some
            &&& says(b, event_loc, event_text(ns, ns.events@[event_no as int])->Some_0)
        },
        _ => true,
    }
}

proof fn lemma_parts_told(
    ns: Namespace,
    vars: Seq<(usize, LocalVariable)>,
    fields: Seq<DestructureField>,
    n: nat,
    b: Option<Built>,
    i: int,
)
    requires
        0 <= i < n <= fields.len(),
        fields[i] is VariableDecl,
    ensures
        tells_part(ns, fields[i]->VariableDecl_1, parts_built(ns, vars, fields, n, b)),
    decreases n,
{
    lemma_part_added(ns, vars, fields, n, b);
    if i < n - 1 {
        let before = parts_built(ns, vars, fields, (n - 1) as nat, b);
        let param = fields[i]->VariableDecl_1;
        lemma_parts_told(ns, vars, fields, (n - 1) as nat, b, i);
        lemma_still_says(
            before,
            parts_built(ns, vars, fields, n, b),
            Touched::Locals,
            param.loc,
            expanded(ns, param.ty)->Some_0,
        );
        reveal(goes_on);
    }
}

/// Collecting from a statement says of it what it is.
pub proof fn law_statements_are_told(
    ns: Namespace,
    vars: Seq<(usize, LocalVariable)>,
    s: Statement,
    b: Option<Built>,
)
    ensures
        tells_statement(ns, vars, s, statement_built(ns, vars, s, b)),
{
    let r = statement_built(ns, vars, s, b);
    match s {
        Statement::VariableDecl { loc, var_no, param, expr } => {
            let v = some_expression_built(ns, vars, expr, b);
            let text = declaration_text(ns, vars, loc, var_no, param);
            let shown = hovered_in(v, loc, param.loc, text);
            lemma_hovered_in(v, loc, param.loc, text);
            lemma_variable_and_type(ns, shown, param, var_no);
            lemma_still_says_in(shown, r, Touched::Locals, loc, param.loc, text);
        },
        Statement::Destructure { fields, expr } => {
            let v = expression_built(ns, vars, expr, b);
            assert forall|i: int|
                0 <= i < fields@.len() && (#[trigger] fields@[i]) is VariableDecl implies tells_part(
                ns,
                fields@[i]->VariableDecl_1,
                r,
            ) by {
                lemma_parts_told(ns, vars, fields@, fields@.len(), v, i);
            }
        },
        Statement::Emit { event_no, event_loc, args } => {
            let text = event_use(ns, event_no);
            let shown = hovered(b, event_loc, text);
            let def = DefinitionType::Event(event_no);
            let p = referred(shown, event_loc, def);
            lemma_hovered(b, event_loc, text);
            lemma_referred(shown, event_loc, def);
            lemma_expressions_go_on(ns, vars, args@, args@.len(), p);
            lemma_still_points(p, r, Touched::Nothing, event_loc, def);
            if text is Some {
                lemma_still_says(shown, p, Touched::Nothing, event_loc, text->Some_0);
                lemma_still_says(p, r, Touched::Nothing, event_loc, text->Some_0);
            }
            reveal(goes_on);
        },
        _ => {},
    }
}

pub proof fn lemma_still_tells_statement(
    ns: Namespace,
    vars: Seq<(usize, LocalVariable)>,
    s: Statement,
    a: Option<Built>,
    b: Option<Built>,
    t: Touched,
)
    requires
        goes_on(a, b, t),
        tells_statement(ns, vars, s, a),
    ensures
        tells_statement(ns, vars, s, b),
{
    assert(b is Some ==> a is Some) by {
        reveal(goes_on);
    }
    match s {
        Statement::VariableDecl { loc, var_no, param, expr } => {
            let text = code_block(
                param.ty.text@ + " "@ + (match param.id {
                    Some(id) => id.name@,
                    None => ""@,
                }) + constant_suffix(ns, loc) + readonly_suffix(local_variable(vars, var_no, 0)),
            );
            lemma_still_says_in(a, b, t, loc, param.loc, text);
            if param.ty_loc is Some && type_definition(param.ty) is Some {
                lemma_still_points(
                    a,
                    b,
                    t,
                    param.ty_loc->Some_0,
                    type_definition(param.ty)->Some_0,
                );
            }
        },
        Statement::Destructure { fields, expr } => {
            assert forall|i: int|
                0 <= i < fields@.len() && (#[trigger] fields@[i]) is VariableDecl implies tells_part(
                ns,
                fields@[i]->VariableDecl_1,
                b,
            ) by {
                let param = fields@[i]->VariableDecl_1;
                assert(tells_part(ns, param, a));
                lemma_still_says(a, b, t, param.loc, expanded(ns, param.ty)->Some_0);
            }
        },
        Statement::Emit { event_no, event_loc, args } => {
            lemma_still_points(a, b, t, event_loc, DefinitionType::Event(event_no));
            lemma_still_says(
                a,
                b,
                t,
                event_loc,
                event_text(ns, ns.events@[event_no as int])->Some_0,
            );
        },
        _ => {},
    }
}

/// Whether the next statement of the path stands in a block of the one before it.
pub open spec fn statement_follows(path: Seq<Statement>, i: int) -> bool {
    has_statement(path[i], path[i + 1])
}

/// Whether a path leads from a statement to one in its blocks, at any depth.
pub open spec fn leads_in(path: Seq<Statement>) -> bool {
    &&& path.len() > 0
    &&& forall|i: int| 0 <= i < path.len() - 1 ==> #[trigger] statement_follows(path, i)
}

/// Every statement in a statement, however deep in it, is reached.
pub proof fn lemma_deep_statement(
    ns: Namespace,
    vars: Seq<(usize, LocalVariable)>,
    path: Seq<Statement>,
    b: Option<Built>,
)
    requires
        leads_in(path),
        reaches(ns, vars, path[0], b),
    ensures
        reaches(ns, vars, path.last(), b),
    decreases path.len(),
{
    if path.len() > 1 {
        let at = choose|at: Option<Built>|
            goes_on(#[trigger] statement_built(ns, vars, path[0], at), b, Touched::Locals);
        let r = statement_built(ns, vars, path[0], at);
        let rest = path.skip(1);
        assert forall|i: int| 0 <= i < rest.len() - 1 implies #[trigger] statement_follows(
            rest,
            i,
        ) by {
            assert(statement_follows(path, i + 1));
        }
        assert(statement_follows(path, 0));
        lemma_inner_reached(ns, vars, path[0], at, path[1]);
        lemma_reaches_on(ns, vars, path[1], r, b);
        lemma_deep_statement(ns, vars, rest, b);
        assert(rest.last() == path.last());
    }
}

/// Of every statement in a list of them, however deep, and of every expression in it, it is said
/// what they are.
pub proof fn law_bodies_are_told(
    ns: Namespace,
    vars: Seq<(usize, LocalVariable)>,
    statements: Seq<Statement>,
    b: Option<Built>,
    path: Seq<Statement>,
)
    requires
        leads_in(path),
        statements.contains(path[0]),
    ensures
        ({
            let r = statements_built(ns, vars, statements, statements.len(), b);
            &&& tells_statement(ns, vars, path.last(), r)
            &&& forall|es: Seq<Expression>| #[trigger]
                leads_down(es) && has_expression(path.last(), es[0]) ==> tells(
                    ns,
                    vars,
                    es.last(),
                    r,
                )
        }),
{
    let r = statements_built(ns, vars, statements, statements.len(), b);
    let i = choose|i: int| 0 <= i < statements.len() && statements[i] == path[0];
    lemma_statements_reach(ns, vars, statements, statements.len(), b, i);
    lemma_deep_statement(ns, vars, path, r);
    let s = path.last();
    let at = choose|at: Option<Built>|
        goes_on(#[trigger] statement_built(ns, vars, s, at), r, Touched::Locals);
    let own = statement_built(ns, vars, s, at);
    law_statements_are_told(ns, vars, s, at);
    lemma_still_tells_statement(ns, vars, s, own, r, Touched::Locals);
    assert forall|es: Seq<Expression>| #[trigger]
        leads_down(es) && has_expression(path.last(), es[0]) implies tells(
        ns,
        vars,
        es.last(),
        r,
    ) by {
        lemma_expression_passed(ns, vars, s, at, es[0]);
        lemma_passes_on(
            ns,
            vars,
            es[0],
            own,
            r,
            Touched::Locals,
            Touched::Locals,
            Touched::Locals,
        );
        let start = choose|start: Option<Built>|
            goes_on(#[trigger] expression_built(ns, vars, es[0], start), r, Touched::Locals);
        law_parts_are_told(ns, vars, es, start);
        lemma_still_tells(
            ns,
            vars,
            es.last(),
            expression_built(ns, vars, es[0], start),
            r,
            Touched::Locals,
        );
    }
}

} // verus!
