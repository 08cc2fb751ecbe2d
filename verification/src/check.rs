//! Telling whether code can be generated for a tree, and how many labels and local variables that
//! takes.

use vstd::prelude::*;

use crate::ast::{
    Assign, BasicType, Binary, Block, Call, ClassDef, DefaultIndexed, Expr, ExprKind, FieldDef,
    Foreach, Identifier, Indexed, Operator, Program, SCopy, ScopeKind, SemanticType, Simple, Stmt,
    Unary, Var, VarAssign,
};
use crate::expr::lemma_exprs_grow;
use crate::instr::{classes_view, members_view, JClass};
use crate::jvm_code_gen::JvmCodeGen;
use crate::program::{
    body_ok, class_view, classes_hand, classes_next, classes_ok, constructor, field_hand,
    field_next, field_ok, field_view, fields_hand, fields_next, fields_ok, fields_view,
    lemma_classes_ok_prefix, lemma_fields_ok_prefix, param_locals, parent_name, program_ok,
    program_view,
};
use crate::scheme::{
    binary_labels, binary_locals, block_labels, block_locals, call_labels, call_locals,
    counter_labels, counter_locals, default_labels, default_locals, expr_labels, expr_locals,
    exprs_labels, exprs_locals, foreach_labels, foreach_locals, guards_labels, guards_locals,
    identifier_labels, identifier_locals, owner_labels, owner_locals, place_labels, place_locals,
    simple_labels, simple_locals, stmt_labels, stmt_locals, stmts_labels, stmts_locals,
    unary_labels, unary_locals,
};
use crate::stmt::{lemma_guards_grow, lemma_stmts_grow};
use crate::types::{has_java_type, has_values};
use crate::valid::{
    assign_ok, binary_ok, block_ok, call_ok, counter_ok, default_ok, expr_ok, exprs_ok,
    fields_exist, foreach_ok, guards_ok, identifier_ok, indexed_ok, owner_ok, printable, s_copy_ok,
    simple_ok, stmt_ok, stmts_ok, unary_ok, var_assign_ok,
};

verus! {

/// More labels or local variables than any method can have.
pub const LIMIT: u32 = 65536;

/// A number as far as it matters: what is at the limit or above it counts as the limit.
pub open spec fn capped(n: nat) -> nat {
    if n < LIMIT {
        n
    } else {
        LIMIT as nat
    }
}

/// How many labels and local variables code takes, up to the limit.
#[derive(Clone, Copy, Debug, PartialEq, Eq, Structural)]
pub struct Cost {
    pub labels: u32,
    pub locals: u32,
}

impl Cost {
    pub open spec fn counts(self, labels: nat, locals: nat) -> bool {
        self.labels == capped(labels) && self.locals == capped(locals)
    }

    /// The cost of both.
    pub fn plus(self, other: Cost) -> (c: Cost)
        requires
            self.labels <= LIMIT,
            self.locals <= LIMIT,
            other.labels <= LIMIT,
            other.locals <= LIMIT,
        ensures
            c.counts((self.labels + other.labels) as nat, (self.locals + other.locals) as nat),
    {
        let labels: u32 = self.labels + other.labels;
        let locals: u32 = self.locals + other.locals;
        Cost {
            labels: if labels < LIMIT {
                labels
            } else {
                LIMIT
            },
            locals: if locals < LIMIT {
                locals
            } else {
                LIMIT
            },
        }
    }

    /// The cost with a few more labels and local variables.
    pub fn and(self, labels: u32, locals: u32) -> (c: Cost)
        requires
            self.labels <= LIMIT,
            self.locals <= LIMIT,
            labels <= LIMIT,
            locals <= LIMIT,
        ensures
            c.counts((self.labels + labels) as nat, (self.locals + locals) as nat),
    {
        self.plus(Cost { labels, locals })
    }
}

/// There is a cost if and only if the tree is right, and then it is the one given.
pub open spec fn tells(c: Option<Cost>, ok: bool, labels: nat, locals: nat) -> bool {
    match c {
        Some(c) => ok && c.counts(labels, locals),
        None => !ok,
    }
}

impl SemanticType {
    /// Tells whether the type has a counterpart on the machine.
    pub fn has_java_type(&self, classes: &Vec<ClassDef>) -> (b: bool)
        ensures
            b == has_java_type(classes@, *self),
        decreases self,
    {
        match self {
            SemanticType::Basic(_) => true,
            SemanticType::Object(class) => *class < classes.len(),
            SemanticType::Array(elem) => elem.has_java_type(classes),
            SemanticType::Null => false,
        }
    }

    /// Tells whether the type has values.
    pub fn has_values(&self) -> (b: bool)
        ensures
            b == has_values(*self),
    {
        match self {
            SemanticType::Basic(b) => !matches!(b, BasicType::Void),
            _ => true,
        }
    }
}

impl JvmCodeGen {
    /// Tells whether the variable is declared, and not outside all classes.
    pub fn has_place(&self, var: Var) -> (b: bool)
        ensures
            b == self.env(Seq::empty()).has_place(var),
    {
        match var {
            Var::VarDef(v) => v < self.symbols.var.len() && !matches!(
                self.symbols.var[v].scope,
                ScopeKind::Global,
            ),
            Var::VarAssign(v) => v < self.symbols.var.len(),
        }
    }

    /// Tells whether the class exists, and the variable has a machine type.
    pub fn field_exists(&self, classes: &Vec<ClassDef>, class: usize, var: Var) -> (b: bool)
        requires
            self.env(classes@).knows(var),
        ensures
            b == self.env(classes@).field_exists(class, var),
    {
        class < classes.len() && self.symbols.var[var.position()].type_.has_java_type(classes)
    }

    /// Tells whether the variable is declared and has a machine type.
    pub fn var_exists(&self, classes: &Vec<ClassDef>, v: usize) -> (b: bool)
        ensures
            b == self.env(classes@).var_has_java_type(v),
    {
        v < self.symbols.var.len() && self.symbols.var[v].type_.has_java_type(classes)
    }

    /// Tells whether every parameter of a method is declared and has a machine type.
    pub fn params_exist(&self, classes: &Vec<ClassDef>, k: usize) -> (b: bool)
        requires
            k < self.symbols.method@.len(),
        ensures
            b == self.env(classes@).params_exist(self.symbols.method@[k as int].param@),
    {
        let ghost env = self.env(classes@);
        let param = &self.symbols.method[k].param;
        let mut i: usize = 0;
        while i < param.len()
            invariant
                i <= param@.len(),
                env == self.env(classes@),
                k < self.symbols.method@.len(),
                *param == self.symbols.method@[k as int].param,
                forall|j: int| 0 <= j < i ==> env.var_has_java_type(#[trigger] param@[j]),
            decreases param@.len() - i,
        {
            if !self.var_exists(classes, param[i]) {
                assert(!env.var_has_java_type(param@[i as int]));
                return false;
            }
            i += 1;
        }
        true
    }

    /// Tells whether a method can be called.
    pub fn can_call(&self, classes: &Vec<ClassDef>, k: usize) -> (b: bool)
        requires
            k < self.symbols.method@.len(),
        ensures
            b == self.env(classes@).can_call(self.env(classes@).methods[k as int]),
    {
        let ghost m = self.env(classes@).methods[k as int];
        assert(m == self.symbols.method@[k as int]@);
        let method = &self.symbols.method[k];
        method.class < classes.len() && self.params_exist(classes, k) && method.ret_t.has_java_type(
            classes,
        ) && (method.static_ || method.param.len() >= 1)
    }

    /// Tells whether every field of a class is declared and has a machine type.
    pub fn fields_exist(&self, classes: &Vec<ClassDef>, class: usize) -> (b: bool)
        requires
            class < classes@.len(),
        ensures
            b == fields_exist(self.env(classes@), classes@[class as int].field@),
    {
        let ghost env = self.env(classes@);
        let field = &classes[class].field;
        let mut i: usize = 0;
        while i < field.len()
            invariant
                i <= field@.len(),
                env == self.env(classes@),
                class < classes@.len(),
                *field == classes@[class as int].field,
                forall|j: int|
                    0 <= j < i ==> match #[trigger] field@[j] {
                        FieldDef::VarDef(v) => env.var_has_java_type(v),
                        FieldDef::MethodDef(_) => true,
                    },
            decreases field@.len() - i,
        {
            if let FieldDef::VarDef(v) = &field[i] {
                if !self.var_exists(classes, *v) {
                    assert(field@[i as int] == FieldDef::VarDef(*v));
                    return false;
                }
            }
            i += 1;
        }
        true
    }

    /// What an expression costs, if code can be generated for it.
    pub fn check_expr(&self, classes: &Vec<ClassDef>, e: &Expr) -> (c: Option<Cost>)
        ensures
            tells(
                c,
                expr_ok(self.env(classes@), *e),
                expr_labels(self.env(classes@), *e),
                expr_locals(self.env(classes@), *e),
            ),
        decreases e, 0nat,
    {
        let none: Cost = Cost { labels: 0, locals: 0 };
        match &e.kind {
            ExprKind::Identifier(i) => self.check_identifier(classes, i, false),
            ExprKind::Indexed(i) => if e.type_.has_values() {
                self.check_indexed(classes, i)
            } else {
                None
            },
            ExprKind::Const(_) => Some(none),
            ExprKind::Call(c) => self.check_call(classes, c),
            ExprKind::Unary(u) => self.check_unary(classes, u),
            ExprKind::Binary(b) => self.check_binary(classes, b),
            ExprKind::This => Some(none),
            ExprKind::NewClass(_) => Some(none),
            ExprKind::NewArray(n) => match &e.type_ {
                SemanticType::Array(elem) => if elem.has_values() && elem.has_java_type(classes) {
                    self.check_expr(classes, &n.len)
                } else {
                    None
                },
                _ => None,
            },
            ExprKind::TypeCast(t) => self.check_expr(classes, &t.expr),
            ExprKind::TypeTest(t) => self.check_expr(classes, &t.expr),
            ExprKind::Default(d) => if e.type_.has_values() {
                self.check_default(classes, d)
            } else {
                None
            },
        }
    }

    /// What the owner of a field or a method costs.
    pub fn check_owner(&self, classes: &Vec<ClassDef>, owner: &Option<Box<Expr>>) -> (c: Option<
        Cost,
    >)
        ensures
            tells(
                c,
                owner_ok(self.env(classes@), *owner),
                owner_labels(self.env(classes@), *owner),
                owner_locals(self.env(classes@), *owner),
            ),
        decreases owner, 0nat,
    {
        match owner {
            Some(e) => self.check_expr(classes, e),
            None => Some(Cost { labels: 0, locals: 0 }),
        }
    }

    /// What a variable costs, as a value or as a place.
    pub fn check_identifier(
        &self,
        classes: &Vec<ClassDef>,
        i: &Identifier,
        for_assign: bool,
    ) -> (c: Option<Cost>)
        ensures
            tells(
                c,
                identifier_ok(self.env(classes@), *i, for_assign),
                identifier_labels(self.env(classes@), *i, for_assign),
                identifier_locals(self.env(classes@), *i, for_assign),
            ),
        decreases i, 0nat,
    {
        if for_assign {
            return self.check_owner(classes, &i.owner);
        }
        if !self.has_place(i.symbol) {
            return None;
        }
        match self.field_of(i.symbol) {
            Some(class) => if i.owner.is_some() && self.field_exists(classes, class, i.symbol) {
                self.check_owner(classes, &i.owner)
            } else {
                None
            },
            None => if self.symbols.var[i.symbol.position()].type_.has_values() {
                Some(Cost { labels: 0, locals: 0 })
            } else {
                None
            },
        }
    }

    /// What an array element costs.
    pub fn check_indexed(&self, classes: &Vec<ClassDef>, i: &Indexed) -> (c: Option<Cost>)
        ensures
            tells(
                c,
                indexed_ok(self.env(classes@), *i),
                expr_labels(self.env(classes@), *i.arr) + expr_labels(
                    self.env(classes@),
                    *i.idx,
                ),
                expr_locals(self.env(classes@), *i.arr) + expr_locals(
                    self.env(classes@),
                    *i.idx,
                ),
            ),
        decreases i, 0nat,
    {
        let a = self.check_expr(classes, &i.arr)?;
        let b = self.check_expr(classes, &i.idx)?;
        Some(a.plus(b))
    }

    /// What expressions cost one after another.
    pub fn check_exprs(&self, classes: &Vec<ClassDef>, es: &Vec<Expr>) -> (c: Option<Cost>)
        ensures
            tells(
                c,
                exprs_ok(self.env(classes@), es@, es@.len()),
                exprs_labels(self.env(classes@), es@, es@.len()),
                exprs_locals(self.env(classes@), es@, es@.len()),
            ),
        decreases es, 0nat,
    {
        let ghost env = self.env(classes@);
        let mut sum: Cost = Cost { labels: 0, locals: 0 };
        let mut i: usize = 0;
        while i < es.len()
            invariant
                i <= es@.len(),
                env == self.env(classes@),
                exprs_ok(env, es@, i as nat),
                sum.counts(exprs_labels(env, es@, i as nat), exprs_locals(env, es@, i as nat)),
            decreases es@.len() - i,
        {
            proof {
                assert(decreases_to!(es => es@));
                assert(decreases_to!(es@ => es@[i as int]));
            }
            match self.check_expr(classes, &es[i]) {
                Some(c) => {
                    sum = sum.plus(c);
                },
                None => {
                    proof {
                        if exprs_ok(env, es@, es@.len()) {
                            lemma_exprs_grow(env, es@, (i + 1) as nat, es@.len());
                        }
                    }
                    return None;
                },
            }
            i += 1;
        }
        Some(sum)
    }

    /// What a call costs.
    pub fn check_call(&self, classes: &Vec<ClassDef>, c: &Call) -> (r: Option<Cost>)
        ensures
            tells(
                r,
                call_ok(self.env(classes@), *c),
                call_labels(self.env(classes@), *c),
                call_locals(self.env(classes@), *c),
            ),
        decreases c, 0nat,
    {
        let owner = self.check_owner(classes, &c.owner)?;
        if c.is_arr_len {
            if c.owner.is_some() {
                Some(owner)
            } else {
                None
            }
        } else {
            let args = self.check_exprs(classes, &c.arg)?;
            match c.method {
                Some(k) => if k < self.symbols.method.len() && self.can_call(classes, k) {
                    Some(owner.plus(args))
                } else {
                    None
                },
                None => None,
            }
        }
    }

    /// What the operand of an increment or a decrement costs.
    pub fn check_counter(&self, classes: &Vec<ClassDef>, e: &Expr) -> (c: Option<Cost>)
        ensures
            tells(
                c,
                counter_ok(self.env(classes@), *e),
                counter_labels(self.env(classes@), *e),
                counter_locals(self.env(classes@), *e),
            ),
        decreases e, 1nat,
    {
        let ghost env = self.env(classes@);
        match &e.kind {
            ExprKind::Identifier(i) => {
                if !self.has_place(i.symbol) {
                    return None;
                }
                assert(identifier_labels(env, *i, false) == if env.field_of(i.symbol) is Some {
                    owner_labels(env, i.owner)
                } else {
                    0
                });
                assert(identifier_locals(env, *i, false) == if env.field_of(i.symbol) is Some {
                    owner_locals(env, i.owner)
                } else {
                    0
                });
                match self.field_of(i.symbol) {
                    Some(class) => if i.owner.is_some() && self.field_exists(
                        classes,
                        class,
                        i.symbol,
                    ) {
                        self.check_owner(classes, &i.owner)
                    } else {
                        None
                    },
                    None => Some(Cost { labels: 0, locals: 0 }),
                }
            },
            ExprKind::Indexed(i) => self.check_indexed(classes, i),
            _ => None,
        }
    }

    /// What an operator with one operand costs.
    pub fn check_unary(&self, classes: &Vec<ClassDef>, u: &Unary) -> (c: Option<Cost>)
        ensures
            tells(
                c,
                unary_ok(self.env(classes@), *u),
                unary_labels(self.env(classes@), *u),
                unary_locals(self.env(classes@), *u),
            ),
        decreases u, 0nat,
    {
        match u.op {
            Operator::Neg => self.check_expr(classes, &u.r),
            Operator::Not => {
                let c = self.check_expr(classes, &u.r)?;
                Some(c.and(2, 0))
            },
            Operator::PreInc | Operator::PreDec | Operator::PostInc | Operator::PostDec =>
            self.check_counter(classes, &u.r),
            _ => None,
        }
    }

    /// What an operator with two operands costs.
    pub fn check_binary(&self, classes: &Vec<ClassDef>, b: &Binary) -> (c: Option<Cost>)
        ensures
            tells(
                c,
                binary_ok(self.env(classes@), *b),
                binary_labels(self.env(classes@), *b),
                binary_locals(self.env(classes@), *b),
            ),
        decreases b, 0nat,
    {
        let l = self.check_expr(classes, &b.l)?;
        let r = self.check_expr(classes, &b.r)?;
        let both = l.plus(r);
        match b.op {
            Operator::Neg
            | Operator::Not
            | Operator::PreInc
            | Operator::PreDec
            | Operator::PostInc
            | Operator::PostDec => None,
            Operator::Repeat => if b.l.type_.has_values() && b.l.type_.has_java_type(classes) {
                Some(both.and(2, 3))
            } else {
                None
            },
            Operator::And
            | Operator::Or
            | Operator::Le
            | Operator::Lt
            | Operator::Ge
            | Operator::Gt
            | Operator::Eq
            | Operator::Ne => Some(both.and(2, 0)),
            _ => Some(both),
        }
    }

    /// What an element with a default costs.
    pub fn check_default(&self, classes: &Vec<ClassDef>, d: &DefaultIndexed) -> (c: Option<Cost>)
        ensures
            tells(
                c,
                default_ok(self.env(classes@), *d),
                default_labels(self.env(classes@), *d),
                default_locals(self.env(classes@), *d),
            ),
        decreases d, 0nat,
    {
        let arr = self.check_expr(classes, &d.arr)?;
        let idx = self.check_expr(classes, &d.idx)?;
        let dft = self.check_expr(classes, &d.dft)?;
        Some(arr.plus(idx).plus(dft).and(2, 1))
    }

    /// What an assignment costs.
    pub fn check_assign(&self, classes: &Vec<ClassDef>, a: &Assign) -> (c: Option<Cost>)
        ensures
            tells(
                c,
                assign_ok(self.env(classes@), *a),
                place_labels(self.env(classes@), a.dst) + expr_labels(self.env(classes@), a.src),
                place_locals(self.env(classes@), a.dst) + expr_locals(self.env(classes@), a.src),
            ),
    {
        let src = self.check_expr(classes, &a.src)?;
        let dst = match &a.dst.kind {
            ExprKind::Identifier(i) => {
                if !self.has_place(i.symbol) {
                    return None;
                }
                let ok: bool = match self.field_of(i.symbol) {
                    Some(class) => self.field_exists(classes, class, i.symbol),
                    None => self.symbols.var[i.symbol.position()].type_.has_values(),
                };
                if !ok {
                    return None;
                }
                self.check_identifier(classes, i, true)?
            },
            ExprKind::Indexed(i) => {
                if !a.dst.type_.has_values() {
                    return None;
                }
                self.check_indexed(classes, i)?
            },
            _ => {
                return None;
            },
        };
        Some(dst.plus(src))
    }

    /// What the declaration of a variable costs.
    pub fn check_var_assign(&self, classes: &Vec<ClassDef>, v: &VarAssign) -> (c: Option<Cost>)
        ensures
            tells(
                c,
                var_assign_ok(self.env(classes@), *v),
                simple_labels(self.env(classes@), Simple::VarAssign(*v)),
                simple_locals(self.env(classes@), Simple::VarAssign(*v)),
            ),
    {
        if v.var >= self.symbols.var.len() || !self.symbols.var[v.var].type_.has_values() {
            return None;
        }
        match &v.src {
            Some(e) => {
                let c = self.check_expr(classes, e)?;
                Some(c.and(0, 1))
            },
            None => Some(Cost { labels: 0, locals: 1 }),
        }
    }

    /// What a simple statement costs.
    pub fn check_simple(&self, classes: &Vec<ClassDef>, s: &Simple) -> (c: Option<Cost>)
        ensures
            tells(
                c,
                simple_ok(self.env(classes@), *s),
                simple_labels(self.env(classes@), *s),
                simple_locals(self.env(classes@), *s),
            ),
    {
        match s {
            Simple::Assign(a) => self.check_assign(classes, a),
            Simple::VarAssign(v) => self.check_var_assign(classes, v),
            Simple::Expr(e) => {
                if let ExprKind::Call(c) = &e.kind {
                    match c.method {
                        Some(k) => {
                            if k >= self.symbols.method.len() {
                                return None;
                            }
                        },
                        None => {
                            return None;
                        },
                    }
                }
                self.check_expr(classes, e)
            },
            Simple::Skip => Some(Cost { labels: 0, locals: 0 }),
        }
    }

    /// What a shallow copy costs.
    pub fn check_s_copy(&self, classes: &Vec<ClassDef>, s: &SCopy) -> (c: Option<Cost>)
        ensures
            tells(
                c,
                s_copy_ok(self.env(classes@), *s),
                expr_labels(self.env(classes@), s.src),
                2 + expr_locals(self.env(classes@), s.src),
            ),
    {
        let c = self.check_expr(classes, &s.src)?;
        if s.dst_sym.position() >= self.symbols.var.len() {
            return None;
        }
        match &s.src.type_ {
            SemanticType::Object(class) => if *class < classes.len() && self.fields_exist(
                classes,
                *class,
            ) {
                Some(c.and(0, 2))
            } else {
                None
            },
            _ => None,
        }
    }

    /// Tells whether values can be printed.
    pub fn printable(&self, classes: &Vec<ClassDef>, es: &Vec<Expr>) -> (b: bool)
        ensures
            b == printable(self.env(classes@), es@),
    {
        let mut i: usize = 0;
        while i < es.len()
            invariant
                i <= es@.len(),
                forall|j: int|
                    0 <= j < i ==> has_java_type(classes@, (#[trigger] es@[j]).type_),
            decreases es@.len() - i,
        {
            if !es[i].get_type().has_java_type(classes) {
                assert(!has_java_type(classes@, es@[i as int].type_));
                return false;
            }
            i += 1;
        }
        true
    }

    /// What a statement costs.
    pub fn check_stmt(&self, classes: &Vec<ClassDef>, s: &Stmt, in_loop: bool) -> (c: Option<Cost>)
        ensures
            tells(
                c,
                stmt_ok(self.env(classes@), *s, in_loop),
                stmt_labels(self.env(classes@), *s),
                stmt_locals(self.env(classes@), *s),
            ),
        decreases s, 0nat,
    {
        match s {
            Stmt::Simple(s) => self.check_simple(classes, s),
            Stmt::If(i) => {
                let c = self.check_expr(classes, &i.cond)?;
                let t = self.check_block(classes, &i.on_true, in_loop)?;
                match &i.on_false {
                    Some(b) => {
                        let f = self.check_block(classes, b, in_loop)?;
                        Some(c.plus(t).plus(f).and(2, 0))
                    },
                    None => Some(c.plus(t).and(2, 0)),
                }
            },
            Stmt::While(w) => {
                let c = self.check_expr(classes, &w.cond)?;
                let b = self.check_block(classes, &w.body, true)?;
                Some(c.plus(b).and(2, 0))
            },
            Stmt::For(f) => {
                let i = self.check_simple(classes, &f.init)?;
                let c = self.check_expr(classes, &f.cond)?;
                let u = self.check_simple(classes, &f.update)?;
                let b = self.check_block(classes, &f.body, true)?;
                Some(i.plus(c).plus(b).plus(u).and(2, 0))
            },
            Stmt::Return(r) => match &r.expr {
                Some(e) => if e.get_type().has_values() {
                    self.check_expr(classes, e)
                } else {
                    None
                },
                None => Some(Cost { labels: 0, locals: 0 }),
            },
            Stmt::Print(p) => if self.printable(classes, &p.print) {
                self.check_exprs(classes, &p.print)
            } else {
                None
            },
            Stmt::Break => if in_loop {
                Some(Cost { labels: 0, locals: 0 })
            } else {
                None
            },
            Stmt::SCopy(c) => self.check_s_copy(classes, c),
            Stmt::Foreach(f) => self.check_foreach(classes, f),
            Stmt::Guarded(g) => self.check_guards(classes, &g.guarded, in_loop),
            Stmt::Block(b) => self.check_block(classes, b, in_loop),
        }
    }

    /// What a loop over an array costs.
    pub fn check_foreach(&self, classes: &Vec<ClassDef>, f: &Foreach) -> (c: Option<Cost>)
        ensures
            tells(
                c,
                foreach_ok(self.env(classes@), *f),
                foreach_labels(self.env(classes@), *f),
                foreach_locals(self.env(classes@), *f),
            ),
        decreases f, 0nat,
    {
        if !self.can_declare(classes, f.def) || !self.symbols.var[f.def].type_.has_values() {
            return None;
        }
        let a = self.check_expr(classes, &f.arr)?;
        let c = match &f.cond {
            Some(e) => self.check_expr(classes, e)?,
            None => Cost { labels: 0, locals: 0 },
        };
        let b = self.check_block(classes, &f.body, true)?;
        Some(a.plus(c).plus(b).and(2, 2 + self.def_locals(f.def)))
    }

    /// Tells whether the variable can be declared.
    pub fn can_declare(&self, classes: &Vec<ClassDef>, v: usize) -> (b: bool)
        ensures
            b == self.env(classes@).can_declare(v),
    {
        self.has_place(Var::VarDef(v)) && (!matches!(
            self.symbols.var[v].scope,
            ScopeKind::Class(_),
        ) || self.symbols.var[v].type_.has_java_type(classes))
    }

    /// The number of local variables that a declaration of the variable takes.
    pub fn def_locals(&self, v: usize) -> (n: u32)
        requires
            v < self.symbols.var@.len(),
        ensures
            n == self.env(Seq::empty()).def_locals(v),
    {
        if matches!(self.symbols.var[v].scope, ScopeKind::Class(_)) {
            0
        } else {
            1
        }
    }

    /// What a block costs.
    pub fn check_block(&self, classes: &Vec<ClassDef>, b: &Block, in_loop: bool) -> (c: Option<
        Cost,
    >)
        ensures
            tells(
                c,
                block_ok(self.env(classes@), *b, in_loop),
                block_labels(self.env(classes@), *b),
                block_locals(self.env(classes@), *b),
            ),
        decreases b, 0nat,
    {
        let ghost env = self.env(classes@);
        let ghost ss = b.stmt@;
        let mut sum: Cost = Cost { labels: 0, locals: 0 };
        let mut i: usize = 0;
        while i < b.stmt.len()
            invariant
                i <= b.stmt@.len(),
                ss == b.stmt@,
                env == self.env(classes@),
                stmts_ok(env, ss, i as nat, in_loop),
                sum.counts(stmts_labels(env, ss, i as nat), stmts_locals(env, ss, i as nat)),
            decreases b.stmt@.len() - i,
        {
            proof {
                assert(decreases_to!(b => b.stmt));
                assert(decreases_to!(b.stmt => b.stmt@));
                assert(decreases_to!(b.stmt@ => b.stmt@[i as int]));
            }
            match self.check_stmt(classes, &b.stmt[i], in_loop) {
                Some(c) => {
                    sum = sum.plus(c);
                },
                None => {
                    proof {
                        if stmts_ok(env, ss, ss.len(), in_loop) {
                            lemma_stmts_grow(
                                env,
                                ss,
                                (i + 1) as nat,
                                ss.len(),
                                in_loop,
                            );
                        }
                    }
                    return None;
                },
            }
            i += 1;
        }
        Some(sum)
    }

    /// What guarded blocks cost.
    pub fn check_guards(
        &self,
        classes: &Vec<ClassDef>,
        gs: &Vec<(Expr, Block)>,
        in_loop: bool,
    ) -> (c: Option<Cost>)
        ensures
            tells(
                c,
                guards_ok(self.env(classes@), gs@, gs@.len(), in_loop),
                guards_labels(self.env(classes@), gs@, gs@.len()),
                guards_locals(self.env(classes@), gs@, gs@.len()),
            ),
        decreases gs, 0nat,
    {
        let ghost env = self.env(classes@);
        let mut sum: Cost = Cost { labels: 0, locals: 0 };
        let mut i: usize = 0;
        while i < gs.len()
            invariant
                i <= gs@.len(),
                env == self.env(classes@),
                guards_ok(env, gs@, i as nat, in_loop),
                sum.counts(guards_labels(env, gs@, i as nat), guards_locals(env, gs@, i as nat)),
            decreases gs@.len() - i,
        {
            proof {
                assert(decreases_to!(gs => gs@));
                assert(decreases_to!(gs@ => gs@[i as int]));
                if guards_ok(env, gs@, gs@.len(), in_loop) {
                    lemma_guards_grow(env, gs@, (i + 1) as nat, gs@.len(), in_loop);
                }
            }
            let guard = &gs[i];
            let c = self.check_expr(classes, &guard.0)?;
            let b = self.check_block(classes, &guard.1, in_loop)?;
            sum = sum.plus(c).plus(b).and(1, 0);
            i += 1;
        }
        Some(sum)
    }
}

impl JvmCodeGen {
    /// What the parameters of a method cost, if each can be declared.
    pub fn check_params(&self, classes: &Vec<ClassDef>, k: usize) -> (c: Option<Cost>)
        requires
            k < self.symbols.method@.len(),
        ensures
            tells(
                c,
                forall|i: int|
                    0 <= i < self.symbols.method@[k as int].param@.len() ==> self.env(
                        classes@,
                    ).can_declare(#[trigger] self.symbols.method@[k as int].param@[i]),
                0,
                param_locals(
                    self.env(classes@),
                    self.symbols.method@[k as int].param@,
                    self.symbols.method@[k as int].param@.len(),
                ),
            ),
    {
        let ghost env = self.env(classes@);
        let param = &self.symbols.method[k].param;
        let mut sum: Cost = Cost { labels: 0, locals: 0 };
        let mut i: usize = 0;
        while i < param.len()
            invariant
                i <= param@.len(),
                env == self.env(classes@),
                k < self.symbols.method@.len(),
                *param == self.symbols.method@[k as int].param,
                forall|j: int| 0 <= j < i ==> env.can_declare(#[trigger] param@[j]),
                sum.counts(0, param_locals(env, param@, i as nat)),
            decreases param@.len() - i,
        {
            if !self.can_declare(classes, param[i]) {
                assert(!env.can_declare(param@[i as int]));
                return None;
            }
            sum = sum.and(0, self.def_locals(param[i]));
            i += 1;
        }
        Some(sum)
    }

    /// Tells whether a method with all its parameters can be generated.
    pub fn check_body(&self, classes: &Vec<ClassDef>, k: usize, body: &Block) -> (b: bool)
        requires
            k < self.symbols.method@.len(),
        ensures
            b == body_ok(self.env(classes@), self.env(classes@).methods[k as int], *body),
    {
        let ghost m = self.env(classes@).methods[k as int];
        assert(m == self.symbols.method@[k as int]@);
        let ok: bool = self.params_exist(classes, k) && self.symbols.method[k].ret_t.has_java_type(
            classes,
        ) && (self.symbols.method[k].static_ || self.symbols.method[k].param.len() >= 1);
        if !ok {
            return false;
        }
        match (self.check_params(classes, k), self.check_block(classes, body, false)) {
            (Some(p), Some(c)) => c.labels <= 65535 && p.plus(c).locals <= 255,
            _ => false,
        }
    }

    /// Generates a member of the class in hand, if it can be generated.
    pub fn try_field_def(&mut self, classes: &Vec<ClassDef>, f: &FieldDef) -> (b: bool)
        requires
            old(self).idle(),
        ensures
            b == field_ok(classes@, old(self).main, *f, old(self).world()),
            b ==> old(self).adds(
                *final(self),
                field_view(classes@, old(self).main, *f, old(self).world()),
                field_next(classes@, old(self).main, *f, old(self).world()),
                field_hand(classes@, old(self).main, *f, old(self).world(), old(self).hand()),
            ),
    {
        match f {
            FieldDef::VarDef(v) => {
                if self.can_declare(classes, *v) && self.stack_index as u32 + self.def_locals(*v)
                    <= 255 {
                    self.field_def(classes, f);
                    true
                } else {
                    false
                }
            },
            FieldDef::MethodDef(d) => {
                if d.symbol >= self.symbols.method.len() {
                    return false;
                }
                self.add_args(d.symbol);
                assert(self.symbols.method@.len() == self.world().methods.len());
                if self.check_body(classes, d.symbol, &d.body) {
                    self.method_body(classes, d);
                    true
                } else {
                    false
                }
            },
        }
    }

    /// Generates a class, if it can be generated.
    pub fn try_class_def(&mut self, classes: &Vec<ClassDef>, c: &ClassDef) -> (class: Option<
        JClass,
    >)
        requires
            old(self).idle(),
        ensures
            class is Some <==> fields_ok(
                classes@,
                old(self).main,
                c.field@,
                c.field@.len(),
                old(self).world(),
            ),
            class matches Some(class) ==> {
                &&& class@ == class_view(classes@, old(self).main, *c, old(self).world())
                &&& final(self).idle()
                &&& final(self).main == old(self).main
                &&& final(self).world() == fields_next(
                    classes@,
                    old(self).main,
                    c.field@,
                    c.field@.len(),
                    old(self).world(),
                )
                &&& final(self).hand() == fields_hand(
                    classes@,
                    old(self).main,
                    c.field@,
                    c.field@.len(),
                    old(self).world(),
                    old(self).hand(),
                )
                &&& final(self).members@.len() == 0
            },
    {
        self.open_class(c);
        let ghost start = *self;
        let ghost main = self.main;
        let ghost w = self.world();
        let ghost h = self.hand();
        let mut i: usize = 0;
        while i < c.field.len()
            invariant
                i <= c.field@.len(),
                old(self).main == main,
                old(self).world() == w,
                old(self).hand() == h,
                start.main == main,
                start.world() == w,
                start.hand() == h,
                members_view(start.members@) == seq![constructor(parent_name(*c))],
                fields_ok(classes@, main, c.field@, i as nat, w),
                start.adds(
                    *self,
                    fields_view(classes@, main, c.field@, i as nat, w),
                    fields_next(classes@, main, c.field@, i as nat, w),
                    fields_hand(classes@, main, c.field@, i as nat, w, h),
                ),
            decreases c.field@.len() - i,
        {
            if !self.try_field_def(classes, &c.field[i]) {
                proof {
                    let n = c.field@.len();
                    if fields_ok(classes@, main, c.field@, n, w) {
                        lemma_fields_ok_prefix(classes@, main, c.field@, n, w, (i + 1) as nat);
                    }
                }
                return None;
            }
            i += 1;
            assert(members_view(self.members@) =~= members_view(start.members@) + fields_view(
                classes@,
                main,
                c.field@,
                i as nat,
                w,
            ));
        }
        Some(self.close_class(c))
    }

    /// Generates the classes of a program, if all can be generated.
    pub fn try_program(&mut self, classes: &Vec<ClassDef>) -> (files: Option<Vec<JClass>>)
        requires
            old(self).idle(),
        ensures
            files is Some <==> classes_ok(
                classes@,
                old(self).main,
                classes@.len(),
                old(self).world(),
            ),
            files matches Some(files) ==> files@.len() == classes@.len() && forall|i: int|
                0 <= i < files@.len() ==> (#[trigger] files@[i])@ == class_view(
                    classes@,
                    old(self).main,
                    classes@[i],
                    classes_next(classes@, old(self).main, i as nat, old(self).world()),
                ),
            files is Some ==> {
                let n = classes@.len();
                &&& final(self).idle()
                &&& final(self).main == old(self).main
                &&& final(self).world() == classes_next(
                    classes@,
                    old(self).main,
                    n,
                    old(self).world(),
                )
                &&& final(self).hand() == classes_hand(
                    classes@,
                    old(self).main,
                    n,
                    old(self).world(),
                    old(self).hand(),
                )
                &&& n == 0 ==> final(self).members == old(self).members
                &&& n > 0 ==> final(self).members@.len() == 0
            },
    {
        let ghost main = self.main;
        let ghost w = self.world();
        let ghost h = self.hand();
        let mut files: Vec<JClass> = Vec::new();
        let mut i: usize = 0;
        while i < classes.len()
            invariant
                i <= classes@.len(),
                files@.len() == i,
                old(self).main == main,
                old(self).world() == w,
                old(self).hand() == h,
                self.idle(),
                self.main == main,
                self.world() == classes_next(classes@, main, i as nat, w),
                self.hand() == classes_hand(classes@, main, i as nat, w, h),
                i == 0 ==> self.members == old(self).members,
                i > 0 ==> self.members@.len() == 0,
                classes_ok(classes@, main, i as nat, w),
                forall|j: int|
                    0 <= j < i ==> (#[trigger] files@[j])@ == class_view(
                        classes@,
                        main,
                        classes@[j],
                        classes_next(classes@, main, j as nat, w),
                    ),
            decreases classes@.len() - i,
        {
            match self.try_class_def(classes, &classes[i]) {
                Some(class) => {
                    files.push(class);
                },
                None => {
                    proof {
                        let n = classes@.len();
                        if classes_ok(classes@, main, n, w) {
                            lemma_classes_ok_prefix(classes@, main, n, w, (i + 1) as nat);
                        }
                    }
                    return None;
                },
            }
            i += 1;
        }
        Some(files)
    }

    /// Generates the classes of a program, if code can be generated for it.
    pub fn try_gen(self, program: Program) -> (files: Option<Vec<JClass>>)
        requires
            self.break_stack@.len() == 0,
        ensures
            files is Some <==> program_ok(program),
            files matches Some(files) ==> classes_view(files@) == program_view(program),
    {
        let ghost p = program;
        let mut gen = self;
        gen.stack_index = 0;
        gen.enter(program.symbols, program.main);
        let files = gen.try_program(&program.class);
        proof {
            if files is Some {
                assert(classes_view(files->0@) =~= program_view(p));
            }
        }
        files
    }
}

} // verus!
