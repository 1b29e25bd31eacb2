//! What is collected from statements.

use vstd::prelude::*;
use vstd::string::StringExecFns;

use crate::builder::{
    expression_built, expressions_built, hovered, hovered_in, parameter_type_referred, referred,
    variable_defined, Builder, Built,
};
use crate::definitions::DefinitionType;
use crate::hover_text::{
    code_block, constant_suffix, constant_suffix_text, event_text, expanded, expanded_ty,
    find_local, local_variable, make_code_block, parameter_name, readonly_suffix, render_event,
    render_readonly,
};
use crate::namespace::{
    DestructureField, Expression, LocalVariable, Loc, Namespace, Parameter, Statement,
};

verus! {

/// What is shown for the declaration of a variable.
pub open spec fn declaration_text(
    ns: Namespace,
    vars: Seq<(usize, LocalVariable)>,
    loc: Loc,
    var_no: usize,
    param: Parameter,
) -> Seq<char> {
    code_block(
        param.ty.text@ + " "@ + parameter_name(param) + constant_suffix(ns, loc) + readonly_suffix(
            local_variable(vars, var_no, 0),
        ),
    )
}

/// What is shown where an event is emitted.
pub open spec fn event_use(ns: Namespace, event_no: usize) -> Option<Seq<char>> {
    if event_no < ns.events@.len() {
        event_text(ns, ns.events@[event_no as int])
    } else {
        None
    }
}

/// What is collected from an expression, where there is one.
pub open spec fn some_expression_built(
    ns: Namespace,
    vars: Seq<(usize, LocalVariable)>,
    e: Option<Expression>,
    b: Option<Built>,
) -> Option<Built> {
    match e {
        Some(expr) => expression_built(ns, vars, expr, b),
        None => b,
    }
}

/// What is collected from the first `n` parts of a destructuring assignment.
pub open spec fn parts_built(
    ns: Namespace,
    vars: Seq<(usize, LocalVariable)>,
    fields: Seq<DestructureField>,
    n: nat,
    b: Option<Built>,
) -> Option<Built>
    decreases n,
{
    if n == 0 || n > fields.len() {
        b
    } else {
        let before = parts_built(ns, vars, fields, (n - 1) as nat, b);
        match fields[n - 1] {
            DestructureField::Expression(expr) => expression_built(ns, vars, expr, before),
            DestructureField::VariableDecl(var_no, param) => variable_defined(
                ns,
                hovered(before, param.loc, expanded(ns, param.ty)),
                param,
                var_no,
            ),
            DestructureField::Nothing => before,
        }
    }
}

/// What is collected from a statement.
pub open spec fn statement_built(
    ns: Namespace,
    vars: Seq<(usize, LocalVariable)>,
    s: Statement,
    b: Option<Built>,
) -> Option<Built>
    decreases s, 0nat,
{
    match s {
        Statement::Block { statements } => statements_built(
            ns,
            vars,
            statements@,
            statements@.len(),
            b,
        ),
        Statement::VariableDecl { loc, var_no, param, expr } => {
            let with_value = some_expression_built(ns, vars, expr, b);
            let shown = hovered_in(
                with_value,
                loc,
                param.loc,
                declaration_text(ns, vars, loc, var_no, param),
            );
            parameter_type_referred(variable_defined(ns, shown, param, var_no), param)
        },
        Statement::If { cond, then_stmt, else_stmt } => {
            let with_cond = expression_built(ns, vars, cond, b);
            let with_then = statements_built(
                ns,
                vars,
                then_stmt@,
                then_stmt@.len(),
                with_cond,
            );
            statements_built(ns, vars, else_stmt@, else_stmt@.len(), with_then)
        },
        Statement::While { cond, body } => statements_built(
            ns,
            vars,
            body@,
            body@.len(),
            expression_built(ns, vars, cond, b),
        ),
        Statement::For { init, cond, next, body } => {
            let with_cond = some_expression_built(ns, vars, cond, b);
            let with_init = statements_built(ns, vars, init@, init@.len(), with_cond);
            let with_next = some_expression_built(ns, vars, next, with_init);
            statements_built(ns, vars, body@, body@.len(), with_next)
        },
        Statement::DoWhile { body, cond } => statements_built(
            ns,
            vars,
            body@,
            body@.len(),
            expression_built(ns, vars, cond, b),
        ),
        Statement::Expression { expr } => expression_built(ns, vars, expr, b),
        Statement::Delete { expr } => expression_built(ns, vars, expr, b),
        Statement::Destructure { fields, expr } => parts_built(
            ns,
            vars,
            fields@,
            fields@.len(),
            expression_built(ns, vars, expr, b),
        ),
        Statement::Return { expr } => some_expression_built(ns, vars, expr, b),
        Statement::Revert { args } => expressions_built(ns, vars, args@, args@.len(), b),
        Statement::Emit { event_no, event_loc, args } => expressions_built(
            ns,
            vars,
            args@,
            args@.len(),
            referred(
                hovered(b, event_loc, event_use(ns, event_no)),
                event_loc,
                DefinitionType::Event(event_no),
            ),
        ),
        Statement::TryCatch { try_stmt } => {
            let with_expr = expression_built(ns, vars, try_stmt.expr, b);
            let with_catch = match try_stmt.catch_all {
                Some(clause) => statements_built(ns, vars, clause@, clause@.len(), with_expr),
                None => with_expr,
            };
            let with_ok = statements_built(
                ns,
                vars,
                try_stmt.ok_stmt@,
                try_stmt.ok_stmt@.len(),
                with_catch,
            );
            clauses_built(ns, vars, try_stmt.errors@, try_stmt.errors@.len(), with_ok)
        },
        Statement::Continue | Statement::Break | Statement::Underscore | Statement::Assembly => b,
    }
}

/// What is collected from the first `n` statements, one after the other.
pub open spec fn statements_built(
    ns: Namespace,
    vars: Seq<(usize, LocalVariable)>,
    statements: Seq<Statement>,
    n: nat,
    b: Option<Built>,
) -> Option<Built>
    decreases statements, n,
{
    if n == 0 || n > statements.len() {
        b
    } else {
        statement_built(
            ns,
            vars,
            statements[n - 1],
            statements_built(ns, vars, statements, (n - 1) as nat, b),
        )
    }
}

/// What is collected from the first `n` clauses, one after the other.
pub open spec fn clauses_built(
    ns: Namespace,
    vars: Seq<(usize, LocalVariable)>,
    clauses: Seq<Vec<Statement>>,
    n: nat,
    b: Option<Built>,
) -> Option<Built>
    decreases clauses, n,
{
    if n == 0 || n > clauses.len() {
        b
    } else {
        statements_built(
            ns,
            vars,
            clauses[n - 1]@,
            clauses[n - 1]@.len(),
            clauses_built(ns, vars, clauses, (n - 1) as nat, b),
        )
    }
}

impl<'a> Builder<'a> {
    fn some_expression(&mut self, expr: &Option<Expression>, vars: &Vec<(usize, LocalVariable)>)
        ensures
            final(self).built() == some_expression_built(
                old(self).namespace(),
                vars@,
                *expr,
                old(self).built(),
            ),
            final(self).namespace() == old(self).namespace(),
    {
        if let Some(e) = expr {
            self.expression(e, vars);
        }
    }

    fn parts(&mut self, fields: &Vec<DestructureField>, vars: &Vec<(usize, LocalVariable)>)
        ensures
            final(self).built() == parts_built(
                old(self).namespace(),
                vars@,
                fields@,
                fields@.len(),
                old(self).built(),
            ),
            final(self).namespace() == old(self).namespace(),
    {
        let mut i: usize = 0;
        while i < fields.len()
            invariant
                i <= fields@.len(),
                self.namespace() == old(self).namespace(),
                self.built() == parts_built(
                    old(self).namespace(),
                    vars@,
                    fields@,
                    i as nat,
                    old(self).built(),
                ),
            decreases fields@.len() - i,
        {
            match &fields[i] {
                DestructureField::Expression(expr) => self.expression(expr, vars),
                DestructureField::VariableDecl(var_no, param) => {
                    let text = expanded_ty(self.ns(), &param.ty);
                    self.hover_some(&param.loc, text);
                    self.define_variable(param, *var_no);
                },
                DestructureField::Nothing => {},
            }
            i = i + 1;
        }
    }

    fn declaration(
        &mut self,
        loc: &Loc,
        var_no: usize,
        param: &Parameter,
        vars: &Vec<(usize, LocalVariable)>,
    )
        ensures
            final(self).built() == parameter_type_referred(
                variable_defined(
                    old(self).namespace(),
                    hovered_in(
                        old(self).built(),
                        *loc,
                        param.loc,
                        declaration_text(old(self).namespace(), vars@, *loc, var_no, *param),
                    ),
                    *param,
                    var_no,
                ),
                *param,
            ),
            final(self).namespace() == old(self).namespace(),
    {
        let mut val = param.ty.text.clone();
        val.append(" ");
        val.append(param.name_as_str());
        let constant = constant_suffix_text(self.ns(), loc);
        val.append(constant.as_str());
        val.append(render_readonly(find_local(vars, var_no)));
        let block = make_code_block(val.as_str());
        self.hover_in(loc, &param.loc, block);
        self.define_variable(param, var_no);
        self.refer_parameter_type(param);
    }

    // Collects from a statement and from what it is made of.
    pub(crate) fn statement(&mut self, stmt: &Statement, vars: &Vec<(usize, LocalVariable)>)
        ensures
            final(self).built() == statement_built(
                old(self).namespace(),
                vars@,
                *stmt,
                old(self).built(),
            ),
            final(self).namespace() == old(self).namespace(),
        decreases stmt, 0nat,
    {
        match stmt {
            Statement::Block { statements } => self.statements(statements, vars),
            Statement::VariableDecl { loc, var_no, param, expr } => {
                self.some_expression(expr, vars);
                self.declaration(loc, *var_no, param, vars);
            },
            Statement::If { cond, then_stmt, else_stmt } => {
                self.expression(cond, vars);
                self.statements(then_stmt, vars);
                self.statements(else_stmt, vars);
            },
            Statement::While { cond, body } => {
                self.expression(cond, vars);
                self.statements(body, vars);
            },
            Statement::For { init, cond, next, body } => {
                self.some_expression(cond, vars);
                self.statements(init, vars);
                self.some_expression(next, vars);
                self.statements(body, vars);
            },
            Statement::DoWhile { body, cond } => {
                self.expression(cond, vars);
                self.statements(body, vars);
            },
            Statement::Expression { expr } => self.expression(expr, vars),
            Statement::Delete { expr } => self.expression(expr, vars),
            Statement::Destructure { fields, expr } => {
                self.expression(expr, vars);
                self.parts(fields, vars);
            },
            Statement::Continue => {},
            Statement::Break => {},
            Statement::Return { expr } => self.some_expression(expr, vars),
            Statement::Revert { args } => self.expressions(args, vars),
            Statement::Emit { event_no, event_loc, args } => {
                let ns: &Namespace = self.ns();
                let text = if *event_no < ns.events.len() {
                    render_event(ns, &ns.events[*event_no])
                } else {
                    None
                };
                self.hover_some(event_loc, text);
                self.refer(event_loc, DefinitionType::Event(*event_no));
                self.expressions(args, vars);
            },
            Statement::TryCatch { try_stmt } => {
                self.expression(&try_stmt.expr, vars);
                if let Some(clause) = &try_stmt.catch_all {
                    self.statements(clause, vars);
                }
                self.statements(&try_stmt.ok_stmt, vars);
                self.clauses(&try_stmt.errors, vars);
            },
            Statement::Underscore => {},
            Statement::Assembly => {},
        }
    }

    pub(crate) fn statements(
        &mut self,
        statements: &Vec<Statement>,
        vars: &Vec<(usize, LocalVariable)>,
    )
        ensures
            final(self).built() == statements_built(
                old(self).namespace(),
                vars@,
                statements@,
                statements@.len(),
                old(self).built(),
            ),
            final(self).namespace() == old(self).namespace(),
        decreases statements, 1nat,
    {
        let mut i: usize = 0;
        while i < statements.len()
            invariant
                i <= statements@.len(),
                self.namespace() == old(self).namespace(),
                self.built() == statements_built(
                    old(self).namespace(),
                    vars@,
                    statements@,
                    i as nat,
                    old(self).built(),
                ),
                decreases_to!(statements => statements@),
            decreases statements@.len() - i,
        {
            self.statement(&statements[i], vars);
            i = i + 1;
        }
    }

    fn clauses(&mut self, clauses: &Vec<Vec<Statement>>, vars: &Vec<(usize, LocalVariable)>)
        ensures
            final(self).built() == clauses_built(
                old(self).namespace(),
                vars@,
                clauses@,
                clauses@.len(),
                old(self).built(),
            ),
            final(self).namespace() == old(self).namespace(),
        decreases clauses, 2nat,
    {
        let mut i: usize = 0;
        while i < clauses.len()
            invariant
                i <= clauses@.len(),
                self.namespace() == old(self).namespace(),
                self.built() == clauses_built(
                    old(self).namespace(),
                    vars@,
                    clauses@,
                    i as nat,
                    old(self).built(),
                ),
                decreases_to!(clauses => clauses@),
            decreases clauses@.len() - i,
        {
            self.statements(&clauses[i], vars);
            i = i + 1;
        }
    }
}

} // verus!
