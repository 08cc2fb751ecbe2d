//! The trees that code can be generated for.
//!
//! A type checker leaves only such trees behind: names stand for what is declared, operators have
//! operands of the right form, and every type that is needed exists on the machine.

use vstd::prelude::*;

use crate::ast::{
    Assign, Binary, Block, Call, DefaultIndexed, Expr, ExprKind, FieldDef, Foreach, Identifier,
    Indexed, MethodView, Operator, SCopy, SemanticType, Simple, Stmt, Unary, Var, VarAssign,
};
use crate::scheme::Env;
use crate::types::{can_be_element, has_java_type, has_values};

verus! {

impl Env {
    pub open spec fn has_var(self, var: usize) -> bool {
        var < self.vars.len()
    }

    pub open spec fn knows(self, var: Var) -> bool {
        match var {
            Var::VarDef(v) => self.has_var(v),
            Var::VarAssign(v) => self.has_var(v),
        }
    }

    /// The variable is not declared outside all classes.
    pub open spec fn has_place(self, var: Var) -> bool {
        self.knows(var) && (var is VarDef ==> !(self.var(var).scope is Global))
    }

    /// The variable is a field that exists on the machine.
    pub open spec fn field_exists(self, class: usize, var: Var) -> bool {
        class < self.classes.len() && has_java_type(self.classes, self.var(var).type_)
    }

    pub open spec fn var_has_java_type(self, var: usize) -> bool {
        self.has_var(var) && has_java_type(self.classes, self.vars[var as int].type_)
    }

    /// Every parameter is declared and has a machine type.
    pub open spec fn params_exist(self, param: Seq<usize>) -> bool {
        forall|i: int| 0 <= i < param.len() ==> self.var_has_java_type(#[trigger] param[i])
    }

    /// The variable can be declared: it is a local variable, or a field that exists on the machine.
    pub open spec fn can_declare(self, var: usize) -> bool {
        &&& self.has_place(Var::VarDef(var))
        &&& self.is_field(var) ==> self.var_has_java_type(var)
    }

    /// The method can be called: its class, its parameters and its result exist on the machine,
    /// and an instance method has `this` as its first parameter.
    pub open spec fn can_call(self, method: MethodView) -> bool {
        &&& method.class < self.classes.len()
        &&& self.params_exist(method.param)
        &&& has_java_type(self.classes, method.ret_t)
        &&& method.static_ || method.param.len() >= 1
    }
}

pub open spec fn expr_ok(env: Env, e: Expr) -> bool
    decreases e, 0nat,
{
    match e.kind {
        ExprKind::Identifier(i) => identifier_ok(env, i, false),
        ExprKind::Indexed(i) => indexed_ok(env, i) && has_values(e.type_),
        ExprKind::Const(_) => true,
        ExprKind::Call(c) => call_ok(env, c),
        ExprKind::Unary(u) => unary_ok(env, u),
        ExprKind::Binary(b) => binary_ok(env, b),
        ExprKind::This => true,
        ExprKind::NewClass(_) => true,
        ExprKind::NewArray(n) => expr_ok(env, *n.len) && e.type_ is Array && can_be_element(
            env.classes,
            *e.type_->Array_0,
        ),
        ExprKind::TypeCast(t) => expr_ok(env, *t.expr),
        ExprKind::TypeTest(t) => expr_ok(env, *t.expr),
        ExprKind::Default(d) => default_ok(env, d) && has_values(e.type_),
    }
}

pub open spec fn owner_ok(env: Env, owner: Option<Box<Expr>>) -> bool
    decreases owner, 0nat,
{
    match owner {
        Some(e) => expr_ok(env, *e),
        None => true,
    }
}

/// A field needs an owner; a local variable needs a type with values.
pub open spec fn identifier_ok(env: Env, i: Identifier, for_assign: bool) -> bool
    decreases i, 0nat,
{
    if for_assign {
        owner_ok(env, i.owner)
    } else {
        env.has_place(i.symbol) && match env.field_of(i.symbol) {
            Some(class) => i.owner is Some && owner_ok(env, i.owner) && env.field_exists(
                class,
                i.symbol,
            ),
            None => has_values(env.var(i.symbol).type_),
        }
    }
}

pub open spec fn indexed_ok(env: Env, i: Indexed) -> bool
    decreases i, 0nat,
{
    expr_ok(env, *i.arr) && expr_ok(env, *i.idx)
}

pub open spec fn exprs_ok(env: Env, es: Seq<Expr>, n: nat) -> bool
    decreases es, n,
{
    if n == 0 || n > es.len() {
        true
    } else {
        exprs_ok(env, es, (n - 1) as nat) && expr_ok(env, es[n - 1])
    }
}

pub open spec fn call_ok(env: Env, c: Call) -> bool
    decreases c, 0nat,
{
    if c.is_arr_len {
        c.owner is Some && owner_ok(env, c.owner)
    } else {
        owner_ok(env, c.owner) && exprs_ok(env, c.arg@, c.arg@.len()) && c.method is Some
            && c.method->0 < env.methods.len() && env.can_call(env.methods[c.method->0 as int])
    }
}

/// The operand of an increment or a decrement is a variable or an array element.
pub open spec fn counter_ok(env: Env, e: Expr) -> bool
    decreases e, 1nat,
{
    match e.kind {
        ExprKind::Identifier(i) => env.has_place(i.symbol) && match env.field_of(i.symbol) {
            Some(class) => i.owner is Some && owner_ok(env, i.owner) && env.field_exists(
                class,
                i.symbol,
            ),
            None => true,
        },
        ExprKind::Indexed(i) => indexed_ok(env, i),
        _ => false,
    }
}

pub open spec fn unary_ok(env: Env, u: Unary) -> bool
    decreases u, 0nat,
{
    match u.op {
        Operator::Neg => expr_ok(env, *u.r),
        Operator::Not => expr_ok(env, *u.r),
        Operator::PreInc => counter_ok(env, *u.r),
        Operator::PreDec => counter_ok(env, *u.r),
        Operator::PostInc => counter_ok(env, *u.r),
        Operator::PostDec => counter_ok(env, *u.r),
        _ => false,
    }
}

/// The operator takes one operand.
pub open spec fn is_unary(op: Operator) -> bool {
    op is Neg || op is Not || op is PreInc || op is PreDec || op is PostInc || op is PostDec
}

pub open spec fn binary_ok(env: Env, b: Binary) -> bool
    decreases b, 0nat,
{
    expr_ok(env, *b.l) && expr_ok(env, *b.r) && !is_unary(b.op) && (b.op is Repeat
        ==> can_be_element(env.classes, b.l.type_))
}

pub open spec fn default_ok(env: Env, d: DefaultIndexed) -> bool
    decreases d, 0nat,
{
    expr_ok(env, *d.arr) && expr_ok(env, *d.idx) && expr_ok(env, *d.dft)
}

pub open spec fn assign_ok(env: Env, a: Assign) -> bool {
    expr_ok(env, a.src) && match a.dst.kind {
        ExprKind::Identifier(i) => identifier_ok(env, i, true) && env.has_place(i.symbol)
            && match env.field_of(i.symbol) {
            Some(class) => env.field_exists(class, i.symbol),
            None => has_values(env.var(i.symbol).type_),
        },
        ExprKind::Indexed(i) => indexed_ok(env, i) && has_values(a.dst.type_),
        _ => false,
    }
}

pub open spec fn var_assign_ok(env: Env, v: VarAssign) -> bool {
    env.has_var(v.var) && has_values(env.vars[v.var as int].type_) && match v.src {
        Some(e) => expr_ok(env, e),
        None => true,
    }
}

pub open spec fn simple_ok(env: Env, s: Simple) -> bool {
    match s {
        Simple::Assign(a) => assign_ok(env, a),
        Simple::VarAssign(v) => var_assign_ok(env, v),
        Simple::Expr(e) => expr_ok(env, e) && match e.kind {
            ExprKind::Call(c) => c.method is Some && c.method->0 < env.methods.len(),
            _ => true,
        },
        Simple::Skip => true,
    }
}

/// Every field of the class is declared and has a machine type.
pub open spec fn fields_exist(env: Env, field: Seq<FieldDef>) -> bool {
    forall|i: int|
        0 <= i < field.len() ==> match #[trigger] field[i] {
            FieldDef::VarDef(v) => env.var_has_java_type(v),
            FieldDef::MethodDef(_) => true,
        }
}

pub open spec fn s_copy_ok(env: Env, c: SCopy) -> bool {
    expr_ok(env, c.src) && env.knows(c.dst_sym) && match c.src.type_ {
        SemanticType::Object(class) => class < env.classes.len() && fields_exist(
            env,
            env.classes[class as int].field@,
        ),
        _ => false,
    }
}

/// Every value to print has a machine type.
pub open spec fn printable(env: Env, es: Seq<Expr>) -> bool {
    forall|i: int| 0 <= i < es.len() ==> has_java_type(env.classes, (#[trigger] es[i]).type_)
}

/// A `break` stands in a loop.
pub open spec fn stmt_ok(env: Env, s: Stmt, in_loop: bool) -> bool
    decreases s, 0nat,
{
    match s {
        Stmt::Simple(s) => simple_ok(env, s),
        Stmt::If(i) => expr_ok(env, i.cond) && block_ok(env, i.on_true, in_loop)
            && match i.on_false {
            Some(b) => block_ok(env, b, in_loop),
            None => true,
        },
        Stmt::While(w) => expr_ok(env, w.cond) && block_ok(env, w.body, true),
        Stmt::For(f) => simple_ok(env, f.init) && expr_ok(env, f.cond) && simple_ok(env, f.update)
            && block_ok(env, f.body, true),
        Stmt::Return(r) => match r.expr {
            Some(e) => expr_ok(env, e) && has_values(e.type_),
            None => true,
        },
        Stmt::Print(p) => exprs_ok(env, p.print@, p.print@.len()) && printable(env, p.print@),
        Stmt::Break => in_loop,
        Stmt::SCopy(c) => s_copy_ok(env, c),
        Stmt::Foreach(f) => foreach_ok(env, f),
        Stmt::Guarded(g) => guards_ok(env, g.guarded@, g.guarded@.len(), in_loop),
        Stmt::Block(b) => block_ok(env, b, in_loop),
    }
}

pub open spec fn block_ok(env: Env, b: Block, in_loop: bool) -> bool
    decreases b, 0nat,
{
    stmts_ok(env, b.stmt@, b.stmt@.len(), in_loop)
}

pub open spec fn stmts_ok(env: Env, ss: Seq<Stmt>, n: nat, in_loop: bool) -> bool
    decreases ss, n,
{
    if n == 0 || n > ss.len() {
        true
    } else {
        stmts_ok(env, ss, (n - 1) as nat, in_loop) && stmt_ok(env, ss[n - 1], in_loop)
    }
}

/// The loop variable can be declared, and has a type with values.
pub open spec fn foreach_ok(env: Env, f: Foreach) -> bool
    decreases f, 0nat,
{
    env.can_declare(f.def) && has_values(env.vars[f.def as int].type_) && expr_ok(env, f.arr)
        && match f.cond {
        Some(e) => expr_ok(env, e),
        None => true,
    } && block_ok(env, f.body, true)
}

pub open spec fn guards_ok(env: Env, gs: Seq<(Expr, Block)>, n: nat, in_loop: bool) -> bool
    decreases gs, n,
{
    if n == 0 || n > gs.len() {
        true
    } else {
        guards_ok(env, gs, (n - 1) as nat, in_loop) && expr_ok(env, gs[n - 1].0) && block_ok(
            env,
            gs[n - 1].1,
            in_loop,
        )
    }
}

} // verus!
