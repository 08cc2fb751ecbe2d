//! The compilation scheme: the code of every expression and statement, as a sequence of
//! instructions.
//!
//! Code is relative to a [`Pos`]: the number of the next label, the number of the next local
//! variable, and the local variables that hold the declared variables so far. How far an
//! expression or a statement moves that position is given by the numbers of labels and of local
//! variables that it takes.

use vstd::prelude::*;

use crate::ast::{
    Assign, BasicType, Binary, Block, Call, ClassDef, Const, DefaultIndexed, Expr, ExprKind,
    FieldDef, For, Foreach, Guarded, Identifier, If, Indexed, MethodView, Operator, Print, Return,
    SCopy, ScopeKind, SemanticType, Simple, Stmt, Unary, Var, VarAssign, VarView, While,
};
use crate::instr::{Access, InsnView, Instruction, JType, JavaType, Member, MemberView};
use crate::types::{
    array_load_insn, array_store_insn, java_type, load_insn, new_array_insn, return_insn,
    store_insn, zero_insn,
};

verus! {

/// What names stand for while a method body is generated.
pub struct Env {
    pub classes: Seq<ClassDef>,
    pub vars: Seq<VarView>,
    pub methods: Seq<MethodView>,
}

/// Where generation stands in a method body.
pub struct Pos {
    /// The next label.
    pub label: nat,
    /// The next local variable.
    pub local: nat,
    /// The local variable that holds each declared variable.
    pub slots: Seq<u8>,
}

pub open spec fn label_no(n: nat) -> u16 {
    n as u16
}

pub open spec fn slot_no(n: nat) -> u8 {
    n as u8
}

impl Pos {
    /// The position after so many labels and local variables have been taken.
    pub open spec fn step(self, labels: nat, locals: nat) -> Pos {
        Pos { label: self.label + labels, local: self.local + locals, slots: self.slots }
    }

    /// The position with a declared variable held in a local variable.
    pub open spec fn bind(self, var: usize, slot: u8) -> Pos {
        Pos { label: self.label, local: self.local, slots: self.slots.update(var as int, slot) }
    }

    /// The position after the declaration of a variable: a field takes nothing, any other variable
    /// is held in the next local variable.
    pub open spec fn declare(self, env: Env, var: usize) -> Pos {
        if env.is_field(var) {
            self
        } else {
            self.bind(var, self.slot(0)).step(0, 1)
        }
    }

    /// The position after an expression.
    pub open spec fn past(self, env: Env, e: Expr) -> Pos {
        self.step(expr_labels(env, e), expr_locals(env, e))
    }

    /// The `n`th label from here.
    pub open spec fn at(self, n: nat) -> u16 {
        label_no(self.label + n)
    }

    /// The `n`th local variable from here.
    pub open spec fn slot(self, n: nat) -> u8 {
        slot_no(self.local + n)
    }

    pub open spec fn var_slot(self, var: Var) -> u8 {
        match var {
            Var::VarDef(v) => self.slots[v as int],
            Var::VarAssign(v) => self.slots[v as int],
        }
    }
}

impl Env {
    /// The class that the variable is a field of, if it is one.
    pub open spec fn field_of(self, var: Var) -> Option<usize> {
        match var {
            Var::VarDef(v) => match self.vars[v as int].scope {
                ScopeKind::Class(class) => Some(class),
                _ => None,
            },
            Var::VarAssign(_) => None,
        }
    }

    /// A declaration of the variable is that of a field.
    pub open spec fn is_field(self, var: usize) -> bool {
        self.vars[var as int].scope is Class
    }

    /// The number of local variables that a declaration of the variable takes.
    pub open spec fn def_locals(self, var: usize) -> nat {
        if self.is_field(var) {
            0
        } else {
            1
        }
    }

    /// The field that a declaration of the variable adds to the class in hand, if it is one.
    pub open spec fn def_fields(self, var: usize) -> Seq<MemberView> {
        if self.is_field(var) {
            seq![field_member(self, var)]
        } else {
            Seq::empty()
        }
    }

    pub open spec fn var(self, var: Var) -> VarView {
        match var {
            Var::VarDef(v) => self.vars[v as int],
            Var::VarAssign(v) => self.vars[v as int],
        }
    }

    pub open spec fn class_name(self, class: usize) -> Seq<char> {
        self.classes[class as int].name@
    }

    pub open spec fn var_java_type(self, var: usize) -> JType {
        java_type(self.classes, self.vars[var as int].type_)
    }

    pub open spec fn get_field(self, class: usize, var: VarView) -> InsnView {
        Instruction::GetField {
            class: self.class_name(class),
            name: var.name,
            type_: java_type(self.classes, var.type_),
        }
    }

    pub open spec fn put_field(self, class: usize, var: VarView) -> InsnView {
        Instruction::PutField {
            class: self.class_name(class),
            name: var.name,
            type_: java_type(self.classes, var.type_),
        }
    }

    /// The machine types of the parameters.
    pub open spec fn param_types(self, param: Seq<usize>) -> Seq<JType> {
        Seq::new(param.len(), |i: int| self.var_java_type(param[i]))
    }
}

/// A field of a class.
pub open spec fn field_member(env: Env, v: usize) -> MemberView {
    Member::Field {
        access: Access { public: true, static_: false, final_: false },
        name: env.vars[v as int].name,
        type_: env.var_java_type(v),
    }
}

// ---------------------------------------------------------------------------------------------
// Labels taken
// ---------------------------------------------------------------------------------------------

pub open spec fn expr_labels(env: Env, e: Expr) -> nat
    decreases e, 0nat,
{
    match e.kind {
        ExprKind::Identifier(i) => identifier_labels(env, i, false),
        ExprKind::Indexed(i) => expr_labels(env, *i.arr) + expr_labels(env, *i.idx),
        ExprKind::Const(_) => 0,
        ExprKind::Call(c) => call_labels(env, c),
        ExprKind::Unary(u) => unary_labels(env, u),
        ExprKind::Binary(b) => binary_labels(env, b),
        ExprKind::This => 0,
        ExprKind::NewClass(_) => 0,
        ExprKind::NewArray(n) => expr_labels(env, *n.len),
        ExprKind::TypeCast(t) => expr_labels(env, *t.expr),
        ExprKind::TypeTest(t) => expr_labels(env, *t.expr),
        ExprKind::Default(d) => default_labels(env, d),
    }
}

pub open spec fn default_labels(env: Env, d: DefaultIndexed) -> nat
    decreases d, 0nat,
{
    2 + expr_labels(env, *d.arr) + expr_labels(env, *d.idx) + expr_labels(env, *d.dft)
}

pub open spec fn owner_labels(env: Env, owner: Option<Box<Expr>>) -> nat
    decreases owner, 0nat,
{
    match owner {
        Some(e) => expr_labels(env, *e),
        None => 0,
    }
}

/// A place needs its owner; a value needs the owner only where the variable is a field.
pub open spec fn identifier_labels(env: Env, i: Identifier, for_assign: bool) -> nat
    decreases i, 0nat,
{
    if for_assign || env.field_of(i.symbol) is Some {
        owner_labels(env, i.owner)
    } else {
        0
    }
}

pub open spec fn exprs_labels(env: Env, es: Seq<Expr>, n: nat) -> nat
    decreases es, n,
{
    if n == 0 || n > es.len() {
        0
    } else {
        exprs_labels(env, es, (n - 1) as nat) + expr_labels(env, es[n - 1])
    }
}

pub open spec fn call_labels(env: Env, c: Call) -> nat
    decreases c, 0nat,
{
    if c.is_arr_len {
        owner_labels(env, c.owner)
    } else {
        owner_labels(env, c.owner) + exprs_labels(env, c.arg@, c.arg@.len())
    }
}

/// The labels taken by the operand of an increment or a decrement.
pub open spec fn counter_labels(env: Env, e: Expr) -> nat
    decreases e, 1nat,
{
    match e.kind {
        ExprKind::Identifier(i) => identifier_labels(env, i, false),
        ExprKind::Indexed(i) => expr_labels(env, *i.arr) + expr_labels(env, *i.idx),
        _ => 0,
    }
}

pub open spec fn unary_labels(env: Env, u: Unary) -> nat
    decreases u, 0nat,
{
    match u.op {
        Operator::Neg => expr_labels(env, *u.r),
        Operator::Not => 2 + expr_labels(env, *u.r),
        _ => counter_labels(env, *u.r),
    }
}

pub open spec fn is_comparison(op: Operator) -> bool {
    op is Le || op is Lt || op is Ge || op is Gt || op is Eq || op is Ne
}

pub open spec fn binary_labels(env: Env, b: Binary) -> nat
    decreases b, 0nat,
{
    expr_labels(env, *b.l) + expr_labels(env, *b.r) + if b.op is Repeat || b.op is And || b.op is Or
        || is_comparison(b.op) {
        2nat
    } else {
        0nat
    }
}

/// The labels taken by the target of an assignment.
pub open spec fn place_labels(env: Env, e: Expr) -> nat {
    match e.kind {
        ExprKind::Identifier(i) => identifier_labels(env, i, true),
        ExprKind::Indexed(i) => expr_labels(env, *i.arr) + expr_labels(env, *i.idx),
        _ => 0,
    }
}

pub open spec fn simple_labels(env: Env, s: Simple) -> nat {
    match s {
        Simple::Assign(a) => place_labels(env, a.dst) + expr_labels(env, a.src),
        Simple::VarAssign(v) => match v.src {
            Some(e) => expr_labels(env, e),
            None => 0,
        },
        Simple::Expr(e) => expr_labels(env, e),
        Simple::Skip => 0,
    }
}

pub open spec fn stmt_labels(env: Env, s: Stmt) -> nat
    decreases s, 0nat,
{
    match s {
        Stmt::Simple(s) => simple_labels(env, s),
        Stmt::If(i) => 2 + expr_labels(env, i.cond) + block_labels(env, i.on_true)
            + match i.on_false {
            Some(b) => block_labels(env, b),
            None => 0,
        },
        Stmt::While(w) => 2 + expr_labels(env, w.cond) + block_labels(env, w.body),
        Stmt::For(f) => 2 + simple_labels(env, f.init) + expr_labels(env, f.cond) + block_labels(
            env,
            f.body,
        ) + simple_labels(env, f.update),
        Stmt::Return(r) => match r.expr {
            Some(e) => expr_labels(env, e),
            None => 0,
        },
        Stmt::Print(p) => exprs_labels(env, p.print@, p.print@.len()),
        Stmt::Break => 0,
        Stmt::SCopy(c) => expr_labels(env, c.src),
        Stmt::Foreach(f) => foreach_labels(env, f),
        Stmt::Guarded(g) => guards_labels(env, g.guarded@, g.guarded@.len()),
        Stmt::Block(b) => block_labels(env, b),
    }
}

pub open spec fn foreach_labels(env: Env, f: Foreach) -> nat
    decreases f, 0nat,
{
    expr_labels(env, f.arr) + 2 + match f.cond {
        Some(e) => expr_labels(env, e),
        None => 0,
    } + block_labels(env, f.body)
}

pub open spec fn block_labels(env: Env, b: Block) -> nat
    decreases b, 0nat,
{
    stmts_labels(env, b.stmt@, b.stmt@.len())
}

pub open spec fn stmts_labels(env: Env, ss: Seq<Stmt>, n: nat) -> nat
    decreases ss, n,
{
    if n == 0 || n > ss.len() {
        0
    } else {
        stmts_labels(env, ss, (n - 1) as nat) + stmt_labels(env, ss[n - 1])
    }
}

pub open spec fn guards_labels(env: Env, gs: Seq<(Expr, Block)>, n: nat) -> nat
    decreases gs, n,
{
    if n == 0 || n > gs.len() {
        0
    } else {
        guards_labels(env, gs, (n - 1) as nat) + 1 + expr_labels(env, gs[n - 1].0) + block_labels(
            env,
            gs[n - 1].1,
        )
    }
}

// ---------------------------------------------------------------------------------------------
// Local variables taken
// ---------------------------------------------------------------------------------------------

pub open spec fn expr_locals(env: Env, e: Expr) -> nat
    decreases e, 0nat,
{
    match e.kind {
        ExprKind::Identifier(i) => identifier_locals(env, i, false),
        ExprKind::Indexed(i) => expr_locals(env, *i.arr) + expr_locals(env, *i.idx),
        ExprKind::Const(_) => 0,
        ExprKind::Call(c) => call_locals(env, c),
        ExprKind::Unary(u) => unary_locals(env, u),
        ExprKind::Binary(b) => binary_locals(env, b),
        ExprKind::This => 0,
        ExprKind::NewClass(_) => 0,
        ExprKind::NewArray(n) => expr_locals(env, *n.len),
        ExprKind::TypeCast(t) => expr_locals(env, *t.expr),
        ExprKind::TypeTest(t) => expr_locals(env, *t.expr),
        ExprKind::Default(d) => default_locals(env, d),
    }
}

pub open spec fn default_locals(env: Env, d: DefaultIndexed) -> nat
    decreases d, 0nat,
{
    1 + expr_locals(env, *d.arr) + expr_locals(env, *d.idx) + expr_locals(env, *d.dft)
}

pub open spec fn owner_locals(env: Env, owner: Option<Box<Expr>>) -> nat
    decreases owner, 0nat,
{
    match owner {
        Some(e) => expr_locals(env, *e),
        None => 0,
    }
}

pub open spec fn identifier_locals(env: Env, i: Identifier, for_assign: bool) -> nat
    decreases i, 0nat,
{
    if for_assign || env.field_of(i.symbol) is Some {
        owner_locals(env, i.owner)
    } else {
        0
    }
}

pub open spec fn exprs_locals(env: Env, es: Seq<Expr>, n: nat) -> nat
    decreases es, n,
{
    if n == 0 || n > es.len() {
        0
    } else {
        exprs_locals(env, es, (n - 1) as nat) + expr_locals(env, es[n - 1])
    }
}

pub open spec fn call_locals(env: Env, c: Call) -> nat
    decreases c, 0nat,
{
    if c.is_arr_len {
        owner_locals(env, c.owner)
    } else {
        owner_locals(env, c.owner) + exprs_locals(env, c.arg@, c.arg@.len())
    }
}

pub open spec fn counter_locals(env: Env, e: Expr) -> nat
    decreases e, 1nat,
{
    match e.kind {
        ExprKind::Identifier(i) => identifier_locals(env, i, false),
        ExprKind::Indexed(i) => expr_locals(env, *i.arr) + expr_locals(env, *i.idx),
        _ => 0,
    }
}

pub open spec fn unary_locals(env: Env, u: Unary) -> nat
    decreases u, 0nat,
{
    if u.op is Neg || u.op is Not {
        expr_locals(env, *u.r)
    } else {
        counter_locals(env, *u.r)
    }
}

pub open spec fn binary_locals(env: Env, b: Binary) -> nat
    decreases b, 0nat,
{
    expr_locals(env, *b.l) + expr_locals(env, *b.r) + if b.op is Repeat {
        3nat
    } else {
        0nat
    }
}

pub open spec fn place_locals(env: Env, e: Expr) -> nat {
    match e.kind {
        ExprKind::Identifier(i) => identifier_locals(env, i, true),
        ExprKind::Indexed(i) => expr_locals(env, *i.arr) + expr_locals(env, *i.idx),
        _ => 0,
    }
}

pub open spec fn simple_locals(env: Env, s: Simple) -> nat {
    match s {
        Simple::Assign(a) => place_locals(env, a.dst) + expr_locals(env, a.src),
        Simple::VarAssign(v) => 1 + match v.src {
            Some(e) => expr_locals(env, e),
            None => 0,
        },
        Simple::Expr(e) => expr_locals(env, e),
        Simple::Skip => 0,
    }
}

pub open spec fn stmt_locals(env: Env, s: Stmt) -> nat
    decreases s, 0nat,
{
    match s {
        Stmt::Simple(s) => simple_locals(env, s),
        Stmt::If(i) => expr_locals(env, i.cond) + block_locals(env, i.on_true) + match i.on_false {
            Some(b) => block_locals(env, b),
            None => 0,
        },
        Stmt::While(w) => expr_locals(env, w.cond) + block_locals(env, w.body),
        Stmt::For(f) => simple_locals(env, f.init) + expr_locals(env, f.cond) + block_locals(
            env,
            f.body,
        ) + simple_locals(env, f.update),
        Stmt::Return(r) => match r.expr {
            Some(e) => expr_locals(env, e),
            None => 0,
        },
        Stmt::Print(p) => exprs_locals(env, p.print@, p.print@.len()),
        Stmt::Break => 0,
        Stmt::SCopy(c) => 2 + expr_locals(env, c.src),
        Stmt::Foreach(f) => foreach_locals(env, f),
        Stmt::Guarded(g) => guards_locals(env, g.guarded@, g.guarded@.len()),
        Stmt::Block(b) => block_locals(env, b),
    }
}

pub open spec fn foreach_locals(env: Env, f: Foreach) -> nat
    decreases f, 0nat,
{
    env.def_locals(f.def) + 2 + expr_locals(env, f.arr) + match f.cond {
        Some(e) => expr_locals(env, e),
        None => 0,
    } + block_locals(env, f.body)
}

pub open spec fn block_locals(env: Env, b: Block) -> nat
    decreases b, 0nat,
{
    stmts_locals(env, b.stmt@, b.stmt@.len())
}

pub open spec fn stmts_locals(env: Env, ss: Seq<Stmt>, n: nat) -> nat
    decreases ss, n,
{
    if n == 0 || n > ss.len() {
        0
    } else {
        stmts_locals(env, ss, (n - 1) as nat) + stmt_locals(env, ss[n - 1])
    }
}

pub open spec fn guards_locals(env: Env, gs: Seq<(Expr, Block)>, n: nat) -> nat
    decreases gs, n,
{
    if n == 0 || n > gs.len() {
        0
    } else {
        guards_locals(env, gs, (n - 1) as nat) + expr_locals(env, gs[n - 1].0) + block_locals(
            env,
            gs[n - 1].1,
        )
    }
}

// ---------------------------------------------------------------------------------------------
// Where declared variables are held
// ---------------------------------------------------------------------------------------------

pub open spec fn simple_slots(s: Simple, p: Pos) -> Seq<u8> {
    match s {
        Simple::VarAssign(v) => p.bind(v.var, p.slot(0)).slots,
        _ => p.slots,
    }
}

pub open spec fn simple_end(env: Env, s: Simple, p: Pos) -> Pos {
    Pos {
        label: p.label + simple_labels(env, s),
        local: p.local + simple_locals(env, s),
        slots: simple_slots(s, p),
    }
}

pub open spec fn stmt_slots(env: Env, s: Stmt, p: Pos) -> Seq<u8>
    decreases s, 0nat,
{
    match s {
        Stmt::Simple(s) => simple_slots(s, p),
        Stmt::If(i) => {
            let q = p.step(2, 0).past(env, i.cond);
            let r = Pos {
                label: q.label + block_labels(env, i.on_true),
                local: q.local + block_locals(env, i.on_true),
                slots: block_slots(env, i.on_true, q),
            };
            match i.on_false {
                Some(b) => block_slots(env, b, r),
                None => r.slots,
            }
        },
        Stmt::While(w) => block_slots(env, w.body, p.step(2, 0).past(env, w.cond)),
        Stmt::For(f) => {
            let q = simple_end(env, f.init, p.step(2, 0)).past(env, f.cond);
            let r = Pos {
                label: q.label + block_labels(env, f.body),
                local: q.local + block_locals(env, f.body),
                slots: block_slots(env, f.body, q),
            };
            simple_slots(f.update, r)
        },
        Stmt::Foreach(f) => block_slots(env, f.body, foreach_body(env, f, p)),
        Stmt::Guarded(g) => guards_slots(env, g.guarded@, g.guarded@.len(), p),
        Stmt::Block(b) => block_slots(env, b, p),
        _ => p.slots,
    }
}

pub open spec fn block_slots(env: Env, b: Block, p: Pos) -> Seq<u8>
    decreases b, 0nat,
{
    stmts_slots(env, b.stmt@, b.stmt@.len(), p)
}

pub open spec fn stmts_slots(env: Env, ss: Seq<Stmt>, n: nat, p: Pos) -> Seq<u8>
    decreases ss, n,
{
    if n == 0 || n > ss.len() {
        p.slots
    } else {
        let m = (n - 1) as nat;
        let q = Pos {
            label: p.label + stmts_labels(env, ss, m),
            local: p.local + stmts_locals(env, ss, m),
            slots: stmts_slots(env, ss, m, p),
        };
        stmt_slots(env, ss[n - 1], q)
    }
}

pub open spec fn guards_slots(env: Env, gs: Seq<(Expr, Block)>, n: nat, p: Pos) -> Seq<u8>
    decreases gs, n,
{
    if n == 0 || n > gs.len() {
        p.slots
    } else {
        let m = (n - 1) as nat;
        let q = Pos {
            label: p.label + guards_labels(env, gs, m),
            local: p.local + guards_locals(env, gs, m),
            slots: guards_slots(env, gs, m, p),
        };
        block_slots(env, gs[n - 1].1, q.step(1, 0).past(env, gs[n - 1].0))
    }
}

/// Where the array of a `foreach` is generated: after the loop variable is declared, and the
/// counter and the array have their local variables.
pub open spec fn foreach_array(env: Env, f: Foreach, p: Pos) -> Pos {
    p.declare(env, f.def).step(0, 2)
}

/// The local variables of a `foreach`: that of the loop variable, the counter and the array.
pub open spec fn foreach_slots(env: Env, f: Foreach, p: Pos) -> (u8, u8, u8) {
    let q = p.declare(env, f.def);
    (q.slots[f.def as int], q.slot(0), q.slot(1))
}

/// Where the condition of a `foreach` is generated.
pub open spec fn foreach_cond(env: Env, f: Foreach, p: Pos) -> Pos {
    foreach_array(env, f, p).past(env, f.arr).step(2, 0)
}

/// Where the body of a `foreach` is generated.
pub open spec fn foreach_body(env: Env, f: Foreach, p: Pos) -> Pos {
    match f.cond {
        Some(e) => foreach_cond(env, f, p).past(env, e),
        None => foreach_cond(env, f, p),
    }
}

/// The position after a statement.
pub open spec fn stmt_end(env: Env, s: Stmt, p: Pos) -> Pos {
    Pos {
        label: p.label + stmt_labels(env, s),
        local: p.local + stmt_locals(env, s),
        slots: stmt_slots(env, s, p),
    }
}

/// The position after a block.
pub open spec fn block_end(env: Env, b: Block, p: Pos) -> Pos {
    Pos {
        label: p.label + block_labels(env, b),
        local: p.local + block_locals(env, b),
        slots: block_slots(env, b, p),
    }
}

/// The position after the first `n` statements.
pub open spec fn stmts_end(env: Env, ss: Seq<Stmt>, n: nat, p: Pos) -> Pos {
    Pos {
        label: p.label + stmts_labels(env, ss, n),
        local: p.local + stmts_locals(env, ss, n),
        slots: stmts_slots(env, ss, n, p),
    }
}

/// The position after the first `n` guarded blocks.
pub open spec fn guards_end(env: Env, gs: Seq<(Expr, Block)>, n: nat, p: Pos) -> Pos {
    Pos {
        label: p.label + guards_labels(env, gs, n),
        local: p.local + guards_locals(env, gs, n),
        slots: guards_slots(env, gs, n, p),
    }
}

// ---------------------------------------------------------------------------------------------
// Fields declared in methods
// ---------------------------------------------------------------------------------------------

/// The fields that a statement adds to the class in hand: those that its loops over arrays declare.
pub open spec fn stmt_fields(env: Env, s: Stmt) -> Seq<MemberView>
    decreases s, 0nat,
{
    match s {
        Stmt::If(i) => block_fields(env, i.on_true) + match i.on_false {
            Some(b) => block_fields(env, b),
            None => Seq::empty(),
        },
        Stmt::While(w) => block_fields(env, w.body),
        Stmt::For(f) => block_fields(env, f.body),
        Stmt::Foreach(f) => foreach_fields(env, f),
        Stmt::Guarded(g) => guards_fields(env, g.guarded@, g.guarded@.len()),
        Stmt::Block(b) => block_fields(env, b),
        _ => Seq::empty(),
    }
}

pub open spec fn foreach_fields(env: Env, f: Foreach) -> Seq<MemberView>
    decreases f, 0nat,
{
    env.def_fields(f.def) + block_fields(env, f.body)
}

pub open spec fn block_fields(env: Env, b: Block) -> Seq<MemberView>
    decreases b, 0nat,
{
    stmts_fields(env, b.stmt@, b.stmt@.len())
}

pub open spec fn stmts_fields(env: Env, ss: Seq<Stmt>, n: nat) -> Seq<MemberView>
    decreases ss, n,
{
    if n == 0 || n > ss.len() {
        Seq::empty()
    } else {
        stmts_fields(env, ss, (n - 1) as nat) + stmt_fields(env, ss[n - 1])
    }
}

pub open spec fn guards_fields(env: Env, gs: Seq<(Expr, Block)>, n: nat) -> Seq<MemberView>
    decreases gs, n,
{
    if n == 0 || n > gs.len() {
        Seq::empty()
    } else {
        guards_fields(env, gs, (n - 1) as nat) + block_fields(env, gs[n - 1].1)
    }
}

// ---------------------------------------------------------------------------------------------
// Code of expressions
// ---------------------------------------------------------------------------------------------

pub open spec fn expr_code(env: Env, e: Expr, p: Pos) -> Seq<InsnView>
    decreases e, 0nat,
{
    match e.kind {
        ExprKind::Identifier(i) => identifier_code(env, i, false, p),
        ExprKind::Indexed(i) => indexed_code(env, i, e.type_, false, p),
        ExprKind::Const(c) => seq![const_insn(c)],
        ExprKind::Call(c) => call_code(env, c, p),
        ExprKind::Unary(u) => unary_code(env, u, p),
        ExprKind::Binary(b) => binary_code(env, b, p),
        ExprKind::This => seq![Instruction::ALoad(0)],
        ExprKind::NewClass(n) => new_object_code(n.name@),
        ExprKind::NewArray(n) => expr_code(env, *n.len, p).push(
            new_array_insn(env.classes, *e.type_->Array_0),
        ),
        ExprKind::TypeCast(t) => expr_code(env, *t.expr, p).push(Instruction::CheckCast(t.name@)),
        ExprKind::TypeTest(t) => expr_code(env, *t.expr, p).push(Instruction::InstanceOf(t.name@)),
        ExprKind::Default(d) => default_code(env, d, e.type_, p),
    }
}

pub open spec fn const_insn(c: Const) -> InsnView {
    match c {
        Const::IntConst(v) => Instruction::IntConst(v),
        Const::BoolConst(v) => Instruction::BoolConst(v),
        Const::StringConst(v) => Instruction::StringConst(v@),
        Const::Null => Instruction::AConstNull,
    }
}

/// A new object, made by the constructor without arguments.
pub open spec fn new_object_code(class: Seq<char>) -> Seq<InsnView> {
    seq![
        Instruction::New(class),
        Instruction::Dup,
        Instruction::InvokeSpecial {
            class,
            name: "<init>"@,
            args: Seq::empty(),
            ret: JavaType::Void,
        },
    ]
}

pub open spec fn owner_code(env: Env, owner: Option<Box<Expr>>, p: Pos) -> Seq<InsnView>
    decreases owner, 0nat,
{
    match owner {
        Some(e) => expr_code(env, *e, p),
        None => Seq::empty(),
    }
}

/// The code of a variable. As a place it is only the owner, if there is one; as a value it is a
/// field of the owner, or a local variable.
pub open spec fn identifier_code(env: Env, i: Identifier, for_assign: bool, p: Pos) -> Seq<InsnView>
    decreases i, 0nat,
{
    if for_assign {
        owner_code(env, i.owner, p)
    } else {
        match env.field_of(i.symbol) {
            Some(class) => owner_code(env, i.owner, p).push(
                env.get_field(class, env.var(i.symbol)),
            ),
            None => seq![load_insn(env.var(i.symbol).type_, p.var_slot(i.symbol))],
        }
    }
}

/// The code of an array element. As a place it is the array and the index.
pub open spec fn indexed_code(
    env: Env,
    i: Indexed,
    type_: SemanticType,
    for_assign: bool,
    p: Pos,
) -> Seq<InsnView>
    decreases i, 0nat,
{
    let place = expr_code(env, *i.arr, p) + expr_code(env, *i.idx, p.past(env, *i.arr));
    if for_assign {
        place
    } else {
        place.push(array_load_insn(type_))
    }
}

pub open spec fn exprs_code(env: Env, es: Seq<Expr>, n: nat, p: Pos) -> Seq<InsnView>
    decreases es, n,
{
    if n == 0 || n > es.len() {
        Seq::empty()
    } else {
        let m = (n - 1) as nat;
        exprs_code(env, es, m, p) + expr_code(env, es[n - 1], exprs_end(env, es, m, p))
    }
}

/// The position after the first `n` expressions.
pub open spec fn exprs_end(env: Env, es: Seq<Expr>, n: nat, p: Pos) -> Pos {
    p.step(exprs_labels(env, es, n), exprs_locals(env, es, n))
}

pub open spec fn owner_end(env: Env, owner: Option<Box<Expr>>, p: Pos) -> Pos {
    p.step(owner_labels(env, owner), owner_locals(env, owner))
}

/// The call of a method. The machine passes `this` on its own, so an instance method is called
/// with the types of the parameters after the first.
pub open spec fn invoke_insn(env: Env, method: MethodView) -> InsnView {
    let args = env.param_types(method.param);
    let ret = java_type(env.classes, method.ret_t);
    if method.static_ {
        Instruction::InvokeStatic {
            class: env.class_name(method.class),
            name: method.name,
            args,
            ret,
        }
    } else {
        Instruction::InvokeVirtual {
            class: env.class_name(method.class),
            name: method.name,
            args: args.skip(1),
            ret,
        }
    }
}

pub open spec fn call_code(env: Env, c: Call, p: Pos) -> Seq<InsnView>
    decreases c, 0nat,
{
    if c.is_arr_len {
        owner_code(env, c.owner, p).push(Instruction::ArrayLength)
    } else {
        (owner_code(env, c.owner, p) + exprs_code(
            env,
            c.arg@,
            c.arg@.len(),
            owner_end(env, c.owner, p),
        )).push(invoke_insn(env, env.methods[c.method->0 as int]))
    }
}

/// The second operand of the instruction that adds `val` to a local variable.
pub open spec fn inc_operand(val: i32) -> u8 {
    val as u8
}

/// Adds `val` to a variable or an array element, and leaves the new value.
pub open spec fn pre_inc_code(env: Env, e: Expr, val: i32, p: Pos) -> Seq<InsnView>
    decreases e, 1nat,
{
    match e.kind {
        ExprKind::Identifier(i) => match env.field_of(i.symbol) {
            Some(class) => owner_code(env, i.owner, p) + seq![
                Instruction::Dup,
                env.get_field(class, env.var(i.symbol)),
                Instruction::IntConst(val),
                Instruction::IAdd,
                Instruction::DupX1,
                env.put_field(class, env.var(i.symbol)),
            ],
            None => seq![
                Instruction::IInc(p.var_slot(i.symbol), inc_operand(val)),
                Instruction::ILoad(p.var_slot(i.symbol)),
            ],
        },
        ExprKind::Indexed(i) => indexed_code(env, i, e.type_, true, p) + seq![
            Instruction::Dup2,
            Instruction::IALoad,
            Instruction::IntConst(val),
            Instruction::IAdd,
            Instruction::DupX2,
            Instruction::IAStore,
        ],
        _ => Seq::empty(),
    }
}

/// Adds `val` to a variable or an array element, and leaves the old value.
pub open spec fn post_inc_code(env: Env, e: Expr, val: i32, p: Pos) -> Seq<InsnView>
    decreases e, 1nat,
{
    match e.kind {
        ExprKind::Identifier(i) => match env.field_of(i.symbol) {
            Some(class) => owner_code(env, i.owner, p) + seq![
                Instruction::Dup,
                env.get_field(class, env.var(i.symbol)),
                Instruction::DupX1,
                Instruction::IntConst(val),
                Instruction::IAdd,
                env.put_field(class, env.var(i.symbol)),
            ],
            None => seq![
                Instruction::ILoad(p.var_slot(i.symbol)),
                Instruction::IInc(p.var_slot(i.symbol), inc_operand(val)),
            ],
        },
        ExprKind::Indexed(i) => indexed_code(env, i, e.type_, true, p) + seq![
            Instruction::Dup2,
            Instruction::IALoad,
            Instruction::DupX2,
            Instruction::IntConst(val),
            Instruction::IAdd,
            Instruction::IAStore,
        ],
        _ => Seq::empty(),
    }
}

pub open spec fn unary_code(env: Env, u: Unary, p: Pos) -> Seq<InsnView>
    decreases u, 0nat,
{
    match u.op {
        Operator::Neg => expr_code(env, *u.r, p).push(Instruction::INeg),
        Operator::Not => expr_code(env, *u.r, p.step(2, 0)) + choice_code(
            Instruction::IfEq(p.at(0)),
            p.at(0),
            p.at(1),
        ),
        Operator::PreInc => pre_inc_code(env, *u.r, 1, p),
        Operator::PreDec => pre_inc_code(env, *u.r, (-1) as i32, p),
        Operator::PostInc => post_inc_code(env, *u.r, 1, p),
        Operator::PostDec => post_inc_code(env, *u.r, (-1) as i32, p),
        _ => Seq::empty(),
    }
}

/// Pushes true where the branch to `yes` is taken, and false where it is not.
pub open spec fn choice_code(branch: InsnView, yes: u16, out: u16) -> Seq<InsnView> {
    seq![
        branch,
        Instruction::BoolConst(false),
        Instruction::Goto(out),
        Instruction::Label(yes),
        Instruction::BoolConst(true),
        Instruction::Label(out),
    ]
}

/// Values of the type are compared for equality as references.
pub open spec fn equal_as_references(t: SemanticType) -> bool {
    match t {
        SemanticType::Null => true,
        SemanticType::Object(_) => true,
        SemanticType::Basic(b) => b is Text,
        SemanticType::Array(_) => false,
    }
}

/// The branch to `yes` where the comparison of two values of type `t` holds.
pub open spec fn comparison_insn(op: Operator, t: SemanticType, yes: u16) -> InsnView {
    match op {
        Operator::Le => Instruction::IfICmpLe(yes),
        Operator::Lt => Instruction::IfICmpLt(yes),
        Operator::Ge => Instruction::IfICmpGe(yes),
        Operator::Gt => Instruction::IfICmpGt(yes),
        Operator::Eq => if equal_as_references(t) {
            Instruction::IfACmpEq(yes)
        } else {
            Instruction::IfICmpEq(yes)
        },
        _ => if equal_as_references(t) {
            Instruction::IfACmpNe(yes)
        } else {
            Instruction::IfICmpNe(yes)
        },
    }
}

/// The instruction of an operator on two numbers.
pub open spec fn arithmetic_insn(op: Operator) -> InsnView {
    match op {
        Operator::Add => Instruction::IAdd,
        Operator::Sub => Instruction::ISub,
        Operator::Mul => Instruction::IMul,
        Operator::Div => Instruction::IDiv,
        Operator::Mod => Instruction::IRem,
        Operator::BAnd => Instruction::IAnd,
        Operator::BOr => Instruction::IOr,
        Operator::BXor => Instruction::IXor,
        Operator::Shl => Instruction::IShl,
        _ => Instruction::IUShr,
    }
}

pub open spec fn binary_code(env: Env, b: Binary, p: Pos) -> Seq<InsnView>
    decreases b, 0nat,
{
    match b.op {
        Operator::Repeat => {
            // the value, the counter and the array have local variables of their own
            let q = p.step(2, 3);
            expr_code(env, *b.l, q).push(store_insn(b.l.type_, p.slot(0))) + expr_code(
                env,
                *b.r,
                q.past(env, *b.l),
            ) + fill_code(
                env.classes,
                b.l.type_,
                (p.at(0), p.at(1)),
                (p.slot(0), p.slot(1), p.slot(2)),
            )
        },
        Operator::And => {
            let q = p.step(2, 0);
            expr_code(env, *b.l, q).push(Instruction::IfEq(p.at(1))) + expr_code(
                env,
                *b.r,
                q.past(env, *b.l),
            ) + seq![
                Instruction::IfEq(p.at(1)),
                Instruction::BoolConst(true),
                Instruction::Goto(p.at(0)),
                Instruction::Label(p.at(1)),
                Instruction::BoolConst(false),
                Instruction::Label(p.at(0)),
            ]
        },
        Operator::Or => {
            let q = p.step(2, 0);
            expr_code(env, *b.l, q).push(Instruction::IfNe(p.at(1))) + expr_code(
                env,
                *b.r,
                q.past(env, *b.l),
            ) + seq![
                Instruction::IfNe(p.at(1)),
                Instruction::BoolConst(false),
                Instruction::Goto(p.at(0)),
                Instruction::Label(p.at(1)),
                Instruction::BoolConst(true),
                Instruction::Label(p.at(0)),
            ]
        },
        op => {
            let operands = expr_code(env, *b.l, p) + expr_code(env, *b.r, p.past(env, *b.l));
            let q = p.past(env, *b.l).past(env, *b.r);
            if is_comparison(op) {
                operands + choice_code(
                    comparison_insn(op, b.l.type_, q.at(0)),
                    q.at(0),
                    q.at(1),
                )
            } else {
                operands.push(arithmetic_insn(op))
            }
        },
    }
}

/// Replaces a length by a new array that holds the value in local variable `val` in every place.
/// Local variable `it` counts, and local variable `arr` holds the array.
pub open spec fn fill_code(
    classes: Seq<ClassDef>,
    elem: SemanticType,
    labels: (u16, u16),
    locals: (u8, u8, u8),
) -> Seq<InsnView> {
    let (before, after) = labels;
    let (val, it, arr) = locals;
    seq![
        new_array_insn(classes, elem),
        Instruction::AStore(arr),
        Instruction::IntConst(0),
        Instruction::IStore(it),
        Instruction::Label(before),
        Instruction::ILoad(it),
        Instruction::ALoad(arr),
        Instruction::ArrayLength,
        Instruction::IfICmpGe(after),
        Instruction::ALoad(arr),
        Instruction::ILoad(it),
        load_insn(elem, val),
        array_store_insn(elem),
        Instruction::IInc(it, 1),
        Instruction::Goto(before),
        Instruction::Label(after),
        Instruction::ALoad(arr),
    ]
}

/// The element at an index, or the default where the index is negative or not below the length.
/// The index stays on the stack below the result.
pub open spec fn default_code(env: Env, d: DefaultIndexed, t: SemanticType, p: Pos) -> Seq<InsnView>
    decreases d, 0nat,
{
    let q = p.step(2, 1);
    let r = q.past(env, *d.arr);
    expr_code(env, *d.arr, q).push(Instruction::AStore(p.slot(0))) + expr_code(env, *d.idx, r)
        + seq![
        Instruction::Dup,
        Instruction::IfLt(p.at(0)),
        Instruction::Dup,
        Instruction::ALoad(p.slot(0)),
        Instruction::ArrayLength,
        Instruction::IfICmpGe(p.at(0)),
        Instruction::Dup,
        Instruction::ALoad(p.slot(0)),
        Instruction::Swap,
        array_load_insn(t),
        Instruction::Goto(p.at(1)),
        Instruction::Label(p.at(0)),
    ] + expr_code(env, *d.dft, r.past(env, *d.idx)).push(Instruction::Label(p.at(1)))
}

// ---------------------------------------------------------------------------------------------
// Code of statements
// ---------------------------------------------------------------------------------------------

/// The code of the target of an assignment.
pub open spec fn place_code(env: Env, e: Expr, p: Pos) -> Seq<InsnView> {
    match e.kind {
        ExprKind::Identifier(i) => identifier_code(env, i, true, p),
        ExprKind::Indexed(i) => indexed_code(env, i, e.type_, true, p),
        _ => Seq::empty(),
    }
}

/// Stores into the target of an assignment.
pub open spec fn place_store(env: Env, e: Expr, slots: Seq<u8>) -> InsnView {
    match e.kind {
        ExprKind::Identifier(i) => match env.field_of(i.symbol) {
            Some(class) => env.put_field(class, env.var(i.symbol)),
            None => store_insn(
                env.var(i.symbol).type_,
                (Pos { label: 0, local: 0, slots }).var_slot(i.symbol),
            ),
        },
        _ => array_store_insn(e.type_),
    }
}

pub open spec fn assign_code(env: Env, a: Assign, p: Pos) -> Seq<InsnView> {
    (place_code(env, a.dst, p) + expr_code(
        env,
        a.src,
        p.step(place_labels(env, a.dst), place_locals(env, a.dst)),
    )).push(place_store(env, a.dst, p.slots))
}

/// A declared variable gets a local variable, and its value or the initial value of its type.
pub open spec fn var_assign_code(env: Env, v: VarAssign, p: Pos) -> Seq<InsnView> {
    let t = env.vars[v.var as int].type_;
    match v.src {
        Some(e) => expr_code(env, e, p.bind(v.var, p.slot(0)).step(0, 1)),
        None => seq![zero_insn(t)],
    }.push(store_insn(t, p.slot(0)))
}

/// The expression is a call of a method without a result.
pub open spec fn is_void_call(env: Env, e: Expr) -> bool {
    match e.kind {
        ExprKind::Call(c) => env.methods[c.method->0 as int].ret_t == SemanticType::Basic(
            BasicType::Void,
        ),
        _ => false,
    }
}

/// The value of an expression used as a statement is dropped.
pub open spec fn simple_code(env: Env, s: Simple, p: Pos) -> Seq<InsnView> {
    match s {
        Simple::Assign(a) => assign_code(env, a, p),
        Simple::VarAssign(v) => var_assign_code(env, v, p),
        Simple::Expr(e) => if is_void_call(env, e) {
            expr_code(env, e, p)
        } else {
            expr_code(env, e, p).push(Instruction::Pop)
        },
        Simple::Skip => Seq::empty(),
    }
}

/// The code of a statement. `brk` is the label behind the innermost loop.
pub open spec fn stmt_code(env: Env, s: Stmt, brk: u16, p: Pos) -> Seq<InsnView>
    decreases s, 0nat,
{
    match s {
        Stmt::Simple(s) => simple_code(env, s, p),
        Stmt::If(i) => if_code(env, i, brk, p),
        Stmt::While(w) => while_code(env, w, p),
        Stmt::For(f) => for_code(env, f, p),
        Stmt::Return(r) => return_code(env, r, p),
        Stmt::Print(r) => print_code(env, r.print@, r.print@.len(), p),
        Stmt::Break => seq![Instruction::Goto(brk)],
        Stmt::SCopy(c) => s_copy_code(env, c, p),
        Stmt::Foreach(f) => foreach_code(env, f, p),
        Stmt::Guarded(g) => guards_code(env, g.guarded@, g.guarded@.len(), brk, p),
        Stmt::Block(b) => block_code(env, b, brk, p),
    }
}

pub open spec fn block_code(env: Env, b: Block, brk: u16, p: Pos) -> Seq<InsnView>
    decreases b, 0nat,
{
    stmts_code(env, b.stmt@, b.stmt@.len(), brk, p)
}

pub open spec fn stmts_code(env: Env, ss: Seq<Stmt>, n: nat, brk: u16, p: Pos) -> Seq<InsnView>
    decreases ss, n,
{
    if n == 0 || n > ss.len() {
        Seq::empty()
    } else {
        let m = (n - 1) as nat;
        stmts_code(env, ss, m, brk, p) + stmt_code(env, ss[n - 1], brk, stmts_end(env, ss, m, p))
    }
}

pub open spec fn if_code(env: Env, i: If, brk: u16, p: Pos) -> Seq<InsnView>
    decreases i, 0nat,
{
    let q = p.step(2, 0);
    let r = q.past(env, i.cond);
    expr_code(env, i.cond, q).push(Instruction::IfEq(p.at(0))) + block_code(env, i.on_true, brk, r)
        + seq![Instruction::Goto(p.at(1)), Instruction::Label(p.at(0))] + match i.on_false {
        Some(b) => block_code(env, b, brk, block_end(env, i.on_true, r)),
        None => Seq::empty(),
    }.push(Instruction::Label(p.at(1)))
}

pub open spec fn while_code(env: Env, w: While, p: Pos) -> Seq<InsnView>
    decreases w, 0nat,
{
    let q = p.step(2, 0);
    seq![Instruction::Label(p.at(0))] + expr_code(env, w.cond, q).push(Instruction::IfEq(p.at(1)))
        + block_code(env, w.body, p.at(1), q.past(env, w.cond)) + seq![
        Instruction::Goto(p.at(0)),
        Instruction::Label(p.at(1)),
    ]
}

pub open spec fn for_code(env: Env, f: For, p: Pos) -> Seq<InsnView>
    decreases f, 0nat,
{
    let q = p.step(2, 0);
    let r = simple_end(env, f.init, q);
    let t = r.past(env, f.cond);
    simple_code(env, f.init, q).push(Instruction::Label(p.at(0))) + expr_code(env, f.cond, r).push(
        Instruction::IfEq(p.at(1)),
    ) + block_code(env, f.body, p.at(1), t) + simple_code(
        env,
        f.update,
        block_end(env, f.body, t),
    ) + seq![Instruction::Goto(p.at(0)), Instruction::Label(p.at(1))]
}

pub open spec fn return_code(env: Env, r: Return, p: Pos) -> Seq<InsnView> {
    match r.expr {
        Some(e) => expr_code(env, e, p).push(return_insn(e.type_)),
        None => seq![Instruction::Return],
    }
}

/// Pushes the stream that values are printed to.
pub open spec fn print_stream() -> InsnView {
    Instruction::GetStatic {
        class: "java/lang/System"@,
        name: "out"@,
        type_: JavaType::Class("java/io/PrintStream"@),
    }
}

/// Prints a value of the given type.
pub open spec fn print_insn(t: JType) -> InsnView {
    Instruction::InvokeVirtual {
        class: "java/io/PrintStream"@,
        name: "print"@,
        args: seq![t],
        ret: JavaType::Void,
    }
}

pub open spec fn print_code(env: Env, es: Seq<Expr>, n: nat, p: Pos) -> Seq<InsnView>
    decreases es, n,
{
    if n == 0 || n > es.len() {
        Seq::empty()
    } else {
        let m = (n - 1) as nat;
        print_code(env, es, m, p).push(print_stream()) + expr_code(
            env,
            es[n - 1],
            exprs_end(env, es, m, p),
        ).push(print_insn(java_type(env.classes, es[n - 1].type_)))
    }
}

/// Copies the first `n` members of a class, as far as they are fields, from the object in `src` to
/// the object in `dst`.
pub open spec fn copy_code(
    env: Env,
    class: Seq<char>,
    field: Seq<FieldDef>,
    n: nat,
    src: u8,
    dst: u8,
) -> Seq<InsnView>
    decreases n,
{
    if n == 0 || n > field.len() {
        Seq::empty()
    } else {
        let before = copy_code(env, class, field, (n - 1) as nat, src, dst);
        match field[n - 1] {
            FieldDef::VarDef(v) => before + seq![
                Instruction::ALoad(dst),
                Instruction::ALoad(src),
                Instruction::GetField {
                    class,
                    name: env.vars[v as int].name,
                    type_: env.var_java_type(v),
                },
                Instruction::PutField {
                    class,
                    name: env.vars[v as int].name,
                    type_: env.var_java_type(v),
                },
            ],
            FieldDef::MethodDef(_) => before,
        }
    }
}

/// A new object of the class of the source gets every field of the source, and then goes to the
/// target.
pub open spec fn s_copy_code(env: Env, c: SCopy, p: Pos) -> Seq<InsnView> {
    let class = env.classes[c.src.type_->Object_0 as int];
    expr_code(env, c.src, p.step(0, 2)).push(Instruction::AStore(p.slot(0))) + new_object_code(
        class.name@,
    ).push(Instruction::AStore(p.slot(1))) + copy_code(
        env,
        class.name@,
        class.field@,
        class.field@.len(),
        p.slot(0),
        p.slot(1),
    ) + seq![Instruction::ALoad(p.slot(1)), Instruction::AStore(p.var_slot(c.dst_sym))]
}

/// ```text
/// for (it = 0, arr = foreach.arr; it < arr.length; ++it)
///   x = arr[it]
///   if (!cond) break
///   <body>
/// ```
pub open spec fn foreach_code(env: Env, f: Foreach, p: Pos) -> Seq<InsnView>
    decreases f, 0nat,
{
    let q = foreach_array(env, f, p);
    let r = q.past(env, f.arr);
    let t = env.vars[f.def as int].type_;
    let (x, it, arr) = foreach_slots(env, f, p);
    seq![Instruction::IntConst(0), Instruction::IStore(it)] + expr_code(env, f.arr, q) + seq![
        Instruction::AStore(arr),
        Instruction::Label(r.at(0)),
        Instruction::ILoad(it),
        Instruction::ALoad(arr),
        Instruction::ArrayLength,
        Instruction::IfICmpGe(r.at(1)),
        Instruction::ALoad(arr),
        Instruction::ILoad(it),
        array_load_insn(t),
        store_insn(t, x),
    ] + match f.cond {
        Some(e) => expr_code(env, e, foreach_cond(env, f, p)).push(Instruction::IfEq(r.at(1))),
        None => Seq::empty(),
    } + block_code(env, f.body, r.at(1), foreach_body(env, f, p)) + seq![
        Instruction::IInc(it, 1),
        Instruction::Goto(r.at(0)),
        Instruction::Label(r.at(1)),
    ]
}

pub open spec fn guards_code(
    env: Env,
    gs: Seq<(Expr, Block)>,
    n: nat,
    brk: u16,
    p: Pos,
) -> Seq<InsnView>
    decreases gs, n,
{
    if n == 0 || n > gs.len() {
        Seq::empty()
    } else {
        let m = (n - 1) as nat;
        let q = guards_end(env, gs, m, p);
        let r = q.step(1, 0);
        guards_code(env, gs, m, brk, p) + expr_code(env, gs[n - 1].0, r).push(
            Instruction::IfEq(q.at(0)),
        ) + block_code(env, gs[n - 1].1, brk, r.past(env, gs[n - 1].0)).push(
            Instruction::Label(q.at(0)),
        )
    }
}

} // verus!
