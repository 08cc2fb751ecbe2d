//! Which trees are taken, said of each tree by what it names and by its parts.
//!
//! Nothing is refused but for a reason: a name that stands for nothing, a type without values or
//! without a counterpart on the machine, an operator with the wrong operand, a `break` outside all
//! loops, or more labels or local variables than the machine can number.

use vstd::prelude::*;

use crate::ast::{
    BasicType, Block, Call, ClassDef, Expr, ExprKind, FieldDef, Foreach, Identifier, MethodDef,
    MethodSymbol, MethodView, Operator, Program, ScopeKind, SemanticType, Simple, Stmt, Var,
    VarSymbol,
};
use crate::forms::number;

use crate::program::{
    body_ok, classes_next, classes_ok, enter_method, field_ok, fields_ok, initial_world,
    lemma_class_ok, lemma_fields_ok_prefix, program_ok, world_before, World,
};
use crate::scheme::{block_labels, block_locals, Env};
use crate::types::has_java_type;
use crate::valid::{
    binary_ok, block_ok, call_ok, counter_ok, default_ok, expr_ok, exprs_ok, foreach_ok, guards_ok,
    identifier_ok, indexed_ok, owner_ok, simple_ok, stmt_ok, stmts_ok, unary_ok,
};

verus! {

/// The type of no value.
pub open spec fn void(t: SemanticType) -> bool {
    t == SemanticType::Basic(BasicType::Void)
}

/// The variable is declared, and not outside all classes.
pub open spec fn declared(env: Env, var: Var) -> bool {
    &&& number(var) < env.vars.len()
    &&& var is VarDef ==> env.vars[number(var)].scope != ScopeKind::Global
}

/// The class of the variable, where it was declared in one.
pub open spec fn home(env: Env, var: Var) -> Option<usize> {
    if var is VarDef && env.vars[number(var)].scope is Class {
        Some(env.vars[number(var)].scope->Class_0)
    } else {
        None
    }
}

/// Where the variable is a field, the machine knows its class and its type.
pub open spec fn known_field(env: Env, var: Var) -> bool {
    home(env, var) matches Some(class) ==> class < env.classes.len() && has_java_type(
        env.classes,
        env.vars[number(var)].type_,
    )
}

/// The method can be called: the machine knows its class, its parameters and its result, and an
/// instance method has an object.
pub open spec fn callable(env: Env, m: MethodView) -> bool {
    &&& m.class < env.classes.len()
    &&& has_java_type(env.classes, m.ret_t)
    &&& m.static_ || m.param.len() > 0
    &&& forall|i: int|
        0 <= i < m.param.len() ==> (#[trigger] m.param[i]) < env.vars.len() && has_java_type(
            env.classes,
            env.vars[m.param[i] as int].type_,
        )
}

/// The operator counts up or down.
pub open spec fn counts(op: Operator) -> bool {
    op is PreInc || op is PreDec || op is PostInc || op is PostDec
}

/// What the expression itself names is there, whatever its parts are.
pub open spec fn sound(env: Env, e: Expr) -> bool {
    match e.kind {
        ExprKind::Identifier(i) => {
            &&& declared(env, i.symbol)
            &&& known_field(env, i.symbol)
            &&& home(env, i.symbol) is Some ==> i.owner is Some
            &&& home(env, i.symbol) is None ==> !void(env.vars[number(i.symbol)].type_)
        },
        ExprKind::Indexed(_) => !void(e.type_),
        ExprKind::Default(_) => !void(e.type_),
        ExprKind::Call(c) => if c.is_arr_len {
            c.owner is Some
        } else {
            c.method is Some && c.method->0 < env.methods.len() && callable(
                env,
                env.methods[c.method->0 as int],
            )
        },
        ExprKind::Unary(u) => if counts(u.op) {
            match u.r.kind {
                ExprKind::Identifier(i) => {
                    &&& declared(env, i.symbol)
                    &&& known_field(env, i.symbol)
                    &&& home(env, i.symbol) is Some ==> i.owner is Some
                },
                ExprKind::Indexed(_) => true,
                _ => false,
            }
        } else {
            u.op is Neg || u.op is Not
        },
        ExprKind::Binary(b) => {
            &&& !counts(b.op) && !(b.op is Neg) && !(b.op is Not)
            &&& b.op is Repeat ==> !void(b.l.type_) && has_java_type(env.classes, b.l.type_)
        },
        ExprKind::NewArray(_) => e.type_ is Array && !void(*e.type_->Array_0) && has_java_type(
            env.classes,
            *e.type_->Array_0,
        ),
        _ => true,
    }
}

/// The object that stands before a variable, where the variable needs one.
pub open spec fn owner_of(env: Env, i: Identifier) -> Seq<Expr> {
    if home(env, i.symbol) is Some && i.owner is Some {
        seq![*i.owner->0]
    } else {
        Seq::empty()
    }
}

/// The expressions that an expression is made of, in the order of their code. An operator that
/// counts is made of what its operand is made of.
pub open spec fn parts(env: Env, e: Expr) -> Seq<Expr> {
    match e.kind {
        ExprKind::Identifier(i) => owner_of(env, i),
        ExprKind::Indexed(i) => seq![*i.arr, *i.idx],
        ExprKind::Call(c) => {
            let owner = match c.owner {
                Some(o) => seq![*o],
                None => Seq::empty(),
            };
            if c.is_arr_len {
                owner
            } else {
                owner + c.arg@
            }
        },
        ExprKind::Unary(u) => if counts(u.op) {
            match u.r.kind {
                ExprKind::Identifier(i) => owner_of(env, i),
                ExprKind::Indexed(i) => seq![*i.arr, *i.idx],
                _ => Seq::empty(),
            }
        } else {
            seq![*u.r]
        },
        ExprKind::Binary(b) => seq![*b.l, *b.r],
        ExprKind::NewArray(n) => seq![*n.len],
        ExprKind::TypeCast(t) => seq![*t.expr],
        ExprKind::TypeTest(t) => seq![*t.expr],
        ExprKind::Default(d) => seq![*d.arr, *d.idx, *d.dft],
        _ => Seq::empty(),
    }
}

proof fn lemma_exprs(env: Env, es: Seq<Expr>, n: nat)
    requires
        n <= es.len(),
    ensures
        exprs_ok(env, es, n) <==> forall|k: int| 0 <= k < n ==> expr_ok(env, #[trigger] es[k]),
    decreases n,
{
    if n > 0 {
        lemma_exprs(env, es, (n - 1) as nat);
    }
}

proof fn lemma_call(env: Env, e: Expr, c: Call)
    requires
        e.kind == ExprKind::Call(c),
    ensures
        expr_ok(env, e) <==> sound(env, e) && forall|k: int|
            0 <= k < parts(env, e).len() ==> expr_ok(env, #[trigger] parts(env, e)[k]),
{
    let ps = parts(env, e);
    let args = c.arg@;
    lemma_exprs(env, args, args.len());
    assert(expr_ok(env, e) == call_ok(env, c));
    let n = if c.owner is Some {
        1int
    } else {
        0int
    };
    assert(c.owner is Some ==> (owner_ok(env, c.owner) <==> expr_ok(env, *c.owner->0)));
    if !c.is_arr_len {
        assert forall|k: int| 0 <= k < args.len() implies args[k] == #[trigger] ps[n + k] by {}
        if forall|k: int| 0 <= k < ps.len() ==> expr_ok(env, #[trigger] ps[k]) {
            assert forall|k: int| 0 <= k < args.len() implies expr_ok(
                env,
                #[trigger] args[k],
            ) by {
                assert(expr_ok(env, ps[n + k]));
            }
            assert(c.owner is Some ==> expr_ok(env, ps[0]));
        }
        if exprs_ok(env, args, args.len()) && owner_ok(env, c.owner) {
            assert forall|k: int| 0 <= k < ps.len() implies expr_ok(env, #[trigger] ps[k]) by {
                if k >= n {
                    assert(ps[k] == args[k - n]);
                }
            }
        }
        let m = env.methods[c.method->0 as int];
        assert(env.params_exist(m.param) <==> forall|i: int|
            0 <= i < m.param.len() ==> (#[trigger] m.param[i]) < env.vars.len() && has_java_type(
                env.classes,
                env.vars[m.param[i] as int].type_,
            ));
    } else if c.owner is Some {
        assert(ps.len() == 1);
        assert(ps[0] == *c.owner->0);
    }
}

/// An expression is taken exactly where what it names is there and all its parts are taken.
pub proof fn law_expr_taken(env: Env, e: Expr)
    ensures
        expr_ok(env, e) <==> sound(env, e) && forall|k: int|
            0 <= k < parts(env, e).len() ==> expr_ok(env, #[trigger] parts(env, e)[k]),
{
    let ps = parts(env, e);
    match e.kind {
        ExprKind::Identifier(i) => {
            assert(expr_ok(env, e) == identifier_ok(env, i, false));
            if home(env, i.symbol) is Some && i.owner is Some {
                assert(owner_ok(env, i.owner) == expr_ok(env, *i.owner->0));
                assert(ps[0] == *i.owner->0);
            }
        },
        ExprKind::Indexed(i) => {
            assert(expr_ok(env, e) == (indexed_ok(env, i) && !void(e.type_)));
            assert(ps[0] == *i.arr && ps[1] == *i.idx);
        },
        ExprKind::Call(c) => {
            lemma_call(env, e, c);
        },
        ExprKind::Unary(u) => {
            assert(expr_ok(env, e) == unary_ok(env, u));
            if counts(u.op) {
                assert(unary_ok(env, u) == counter_ok(env, *u.r));
                match u.r.kind {
                    ExprKind::Identifier(i) => {
                        if home(env, i.symbol) is Some && i.owner is Some {
                            assert(owner_ok(env, i.owner) == expr_ok(env, *i.owner->0));
                            assert(ps[0] == *i.owner->0);
                        }
                    },
                    ExprKind::Indexed(i) => {
                        assert(counter_ok(env, *u.r) == indexed_ok(env, i));
                        assert(ps[0] == *i.arr && ps[1] == *i.idx);
                    },
                    _ => {},
                }
            } else {
                assert(ps[0] == *u.r);
            }
        },
        ExprKind::Binary(b) => {
            assert(expr_ok(env, e) == binary_ok(env, b));
            assert(ps[0] == *b.l && ps[1] == *b.r);
        },
        ExprKind::NewArray(n) => {
            assert(ps[0] == *n.len);
        },
        ExprKind::TypeCast(t) => {
            assert(ps[0] == *t.expr);
        },
        ExprKind::TypeTest(t) => {
            assert(ps[0] == *t.expr);
        },
        ExprKind::Default(d) => {
            assert(expr_ok(env, e) == (default_ok(env, d) && !void(e.type_)));
            assert(ps[0] == *d.arr && ps[1] == *d.idx && ps[2] == *d.dft);
        },
        _ => {},
    }
}

/// An assignment is taken exactly where its source is taken and its target is a declared variable
/// or an array element that can hold a value; the object or the array and the index of the target
/// must be taken too. A declaration needs a declared variable with values.
pub proof fn law_simple_taken(env: Env, s: Simple)
    ensures
        simple_ok(env, s) <==> match s {
            Simple::Skip => true,
            Simple::Expr(e) => expr_ok(env, e) && (e.kind is Call ==> e.kind->Call_0.method is Some
                && e.kind->Call_0.method->0 < env.methods.len()),
            Simple::VarAssign(v) => {
                &&& v.var < env.vars.len()
                &&& !void(env.vars[v.var as int].type_)
                &&& v.src is Some ==> expr_ok(env, v.src->0)
            },
            Simple::Assign(a) => {
                &&& expr_ok(env, a.src)
                &&& match a.dst.kind {
                    ExprKind::Identifier(i) => {
                        &&& declared(env, i.symbol)
                        &&& known_field(env, i.symbol)
                        &&& home(env, i.symbol) is None ==> !void(
                            env.vars[number(i.symbol)].type_,
                        )
                        &&& i.owner is Some ==> expr_ok(env, *i.owner->0)
                    },
                    ExprKind::Indexed(i) => !void(a.dst.type_) && expr_ok(env, *i.arr) && expr_ok(
                        env,
                        *i.idx,
                    ),
                    _ => false,
                }
            },
        },
{
}

/// Every statement of the block is taken.
pub open spec fn all_taken(env: Env, b: Block, in_loop: bool) -> bool {
    forall|k: int| 0 <= k < b.stmt@.len() ==> stmt_ok(env, #[trigger] b.stmt@[k], in_loop)
}

proof fn lemma_stmts(env: Env, ss: Seq<Stmt>, n: nat, in_loop: bool)
    requires
        n <= ss.len(),
    ensures
        stmts_ok(env, ss, n, in_loop) <==> forall|k: int|
            0 <= k < n ==> stmt_ok(env, #[trigger] ss[k], in_loop),
    decreases n,
{
    if n > 0 {
        lemma_stmts(env, ss, (n - 1) as nat, in_loop);
    }
}

proof fn lemma_block(env: Env, b: Block, in_loop: bool)
    ensures
        block_ok(env, b, in_loop) <==> all_taken(env, b, in_loop),
{
    lemma_stmts(env, b.stmt@, b.stmt@.len(), in_loop);
}

/// The condition and the block of the guard are taken.
pub open spec fn guard_taken(env: Env, g: (Expr, Block), in_loop: bool) -> bool {
    expr_ok(env, g.0) && all_taken(env, g.1, in_loop)
}

proof fn lemma_guards(env: Env, gs: Seq<(Expr, Block)>, n: nat, in_loop: bool)
    requires
        n <= gs.len(),
    ensures
        guards_ok(env, gs, n, in_loop) <==> forall|k: int|
            0 <= k < n ==> guard_taken(env, #[trigger] gs[k], in_loop),
    decreases n,
{
    if n > 0 {
        lemma_guards(env, gs, (n - 1) as nat, in_loop);
        lemma_block(env, gs[n - 1].1, in_loop);
    }
}

/// The loop variable can be declared, as a local variable or as a field, and holds values.
pub open spec fn loop_variable(env: Env, v: usize) -> bool {
    &&& declared(env, Var::VarDef(v))
    &&& !void(env.vars[v as int].type_)
    &&& env.vars[v as int].scope is Class ==> has_java_type(env.classes, env.vars[v as int].type_)
}

/// A statement is taken exactly where its expressions and its blocks are, each in a loop or not. A
/// `break` needs a loop around it, a `return` a type with values, each printed value a machine
/// type, and a shallow copy an object of a class whose fields the machine knows.
pub proof fn law_stmt_taken(env: Env, s: Stmt, in_loop: bool)
    ensures
        stmt_ok(env, s, in_loop) <==> match s {
            Stmt::Simple(s) => simple_ok(env, s),
            Stmt::If(i) => {
                &&& expr_ok(env, i.cond)
                &&& all_taken(env, i.on_true, in_loop)
                &&& i.on_false is Some ==> all_taken(env, i.on_false->0, in_loop)
            },
            Stmt::While(w) => expr_ok(env, w.cond) && all_taken(env, w.body, true),
            Stmt::For(f) => {
                &&& simple_ok(env, f.init)
                &&& expr_ok(env, f.cond)
                &&& simple_ok(env, f.update)
                &&& all_taken(env, f.body, true)
            },
            Stmt::Return(r) => r.expr is Some ==> expr_ok(env, r.expr->0) && !void(
                r.expr->0.type_,
            ),
            Stmt::Print(p) => forall|k: int|
                0 <= k < p.print@.len() ==> expr_ok(env, #[trigger] p.print@[k]) && has_java_type(
                    env.classes,
                    p.print@[k].type_,
                ),
            Stmt::Break => in_loop,
            Stmt::SCopy(c) => {
                &&& expr_ok(env, c.src)
                &&& number(c.dst_sym) < env.vars.len()
                &&& c.src.type_ is Object
                &&& c.src.type_->Object_0 < env.classes.len()
                &&& forall|k: int|
                    0 <= k < env.classes[c.src.type_->Object_0 as int].field@.len() ==> (
                    #[trigger] env.classes[c.src.type_->Object_0 as int].field@[k] matches
                        FieldDef::VarDef(v) ==> v < env.vars.len() && has_java_type(
                        env.classes,
                        env.vars[v as int].type_,
                    ))
            },
            Stmt::Foreach(f) => {
                &&& loop_variable(env, f.def)
                &&& expr_ok(env, f.arr)
                &&& f.cond is Some ==> expr_ok(env, f.cond->0)
                &&& all_taken(env, f.body, true)
            },
            Stmt::Guarded(g) => forall|k: int|
                0 <= k < g.guarded@.len() ==> guard_taken(env, #[trigger] g.guarded@[k], in_loop),
            Stmt::Block(b) => all_taken(env, b, in_loop),
        },
{
    match s {
        Stmt::If(i) => {
            lemma_block(env, i.on_true, in_loop);
            if let Some(b) = i.on_false {
                lemma_block(env, b, in_loop);
            }
        },
        Stmt::While(w) => {
            lemma_block(env, w.body, true);
        },
        Stmt::For(f) => {
            lemma_block(env, f.body, true);
        },
        Stmt::Print(p) => {
            lemma_exprs(env, p.print@, p.print@.len());
        },
        Stmt::Foreach(f) => {
            assert(stmt_ok(env, s, in_loop) == foreach_ok(env, f));
            lemma_block(env, f.body, true);
        },
        Stmt::Guarded(g) => {
            lemma_guards(env, g.guarded@, g.guarded@.len(), in_loop);
        },
        Stmt::Block(b) => {
            lemma_block(env, b, in_loop);
        },
        _ => {},
    }
}

/// What is known while a method is generated that starts the program: it has one more variable, an
/// array of strings, which is its first parameter.
pub open spec fn started(classes: Seq<ClassDef>, w: World, k: usize) -> Env {
    Env {
        classes,
        vars: w.vars.push(
            VarSymbol {
                name: "args"@,
                type_: SemanticType::Array(Box::new(SemanticType::Basic(BasicType::Text))),
                scope: ScopeKind::Parameter,
            },
        ),
        methods: w.methods.update(
            k as int,
            MethodSymbol {
                param: seq![w.vars.len() as usize] + w.methods[k as int].param,
                ..w.methods[k as int]
            },
        ),
    }
}

/// What is known while a method is generated: what was known before, and for the method that starts
/// the program its parameter.
pub open spec fn inside(classes: Seq<ClassDef>, main: Option<usize>, w: World, k: usize) -> Env {
    if main == Some(w.methods[k as int].class) && w.methods[k as int].name == "main"@ {
        started(classes, w, k)
    } else {
        Env { classes, vars: w.vars, methods: w.methods }
    }
}

/// The parameters that are held in local variables.
pub open spec fn held(env: Env, param: Seq<usize>) -> Seq<usize> {
    param.filter(|v: usize| !(env.vars[v as int].scope is Class))
}

/// A member of a class is taken exactly where its turn finds what it needs. A variable needs a
/// declaration, and a machine type where it is a field or a local variable where it is not. A
/// method needs declared parameters and a result that the machine knows, an object unless it is
/// static, a body that is taken outside all loops, at most 65535 labels and at most 255 local
/// variables.
pub proof fn law_member_taken(classes: Seq<ClassDef>, main: Option<usize>, f: FieldDef, w: World)
    ensures
        field_ok(classes, main, f, w) <==> match f {
            FieldDef::VarDef(v) => {
                &&& v < w.vars.len()
                &&& w.vars[v as int].scope != ScopeKind::Global
                &&& w.vars[v as int].scope is Class ==> has_java_type(
                    classes,
                    w.vars[v as int].type_,
                ) && w.local <= 255
                &&& !(w.vars[v as int].scope is Class) ==> w.local < 255
            },
            FieldDef::MethodDef(d) => {
                let env = inside(classes, main, w, d.symbol);
                let m = env.methods[d.symbol as int];
                &&& d.symbol < w.methods.len()
                &&& forall|i: int|
                    0 <= i < m.param.len() ==> declared(
                        env,
                        Var::VarDef(#[trigger] m.param[i]),
                    ) && has_java_type(classes, env.vars[m.param[i] as int].type_)
                &&& has_java_type(classes, m.ret_t)
                &&& m.static_ || m.param.len() > 0
                &&& all_taken(env, d.body, false)
                &&& block_labels(env, d.body) <= 65535
                &&& held(env, m.param).len() + block_locals(env, d.body) <= 255
            },
        },
{
    if let FieldDef::MethodDef(d) = f {
        if d.symbol < w.methods.len() {
            let env = inside(classes, main, w, d.symbol);
            let e = enter_method(main, w, d.symbol);
            let m = env.methods[d.symbol as int];
            assert(w.methods[d.symbol as int].param.insert(0, w.vars.len() as usize) =~= seq![
                w.vars.len() as usize,
            ] + w.methods[d.symbol as int].param);
            assert(e.env(classes) == env);
            assert(e.methods[d.symbol as int] == m);
            lemma_block(env, d.body, false);
            crate::taken::lemma_held(env, m.param, m.param.len());
            assert(m.param.take(m.param.len() as int) =~= m.param);
            assert(block_ok(env, d.body, false) == all_taken(env, d.body, false));
            if body_ok(env, m, d.body) {
                assert forall|i: int| 0 <= i < m.param.len() implies declared(
                    env,
                    Var::VarDef(#[trigger] m.param[i]),
                ) && has_java_type(classes, env.vars[m.param[i] as int].type_) by {
                    assert(env.can_declare(m.param[i]));
                    assert(env.var_has_java_type(m.param[i]));
                }
            }
            if forall|i: int|
                0 <= i < m.param.len() ==> declared(env, Var::VarDef(#[trigger] m.param[i]))
                    && has_java_type(classes, env.vars[m.param[i] as int].type_) {
                assert forall|i: int| 0 <= i < m.param.len() implies env.can_declare(
                    #[trigger] m.param[i],
                ) && env.var_has_java_type(m.param[i]) by {
                    assert(declared(env, Var::VarDef(m.param[i])));
                }
            }
        }
    }
}

proof fn lemma_fields(p: Program, i: int, n: nat)
    requires
        0 <= i < p.class@.len(),
        n <= p.class@[i].field@.len(),
        forall|j: int|
            0 <= j < n ==> field_ok(
                p.class@,
                p.main,
                #[trigger] p.class@[i].field@[j],
                world_before(p, i, j),
            ),
    ensures
        fields_ok(
            p.class@,
            p.main,
            p.class@[i].field@,
            n,
            classes_next(p.class@, p.main, i as nat, initial_world(p)),
        ),
    decreases n,
{
    if n > 0 {
        lemma_fields(p, i, (n - 1) as nat);
        assert(field_ok(p.class@, p.main, p.class@[i].field@[n - 1], world_before(p, i, n - 1)));
    }
}

proof fn lemma_classes(p: Program, n: nat)
    requires
        n <= p.class@.len(),
        forall|i: int, j: int|
            0 <= i < n && 0 <= j < p.class@[i].field@.len() ==> field_ok(
                p.class@,
                p.main,
                #[trigger] p.class@[i].field@[j],
                world_before(p, i, j),
            ),
    ensures
        classes_ok(p.class@, p.main, n, initial_world(p)),
    decreases n,
{
    if n > 0 {
        lemma_classes(p, (n - 1) as nat);
        lemma_fields(p, n - 1, p.class@[n - 1].field@.len());
    }
}

/// A program is taken exactly where each member of each class is taken when its turn comes.
pub proof fn law_program_taken(p: Program)
    ensures
        program_ok(p) <==> forall|i: int, j: int|
            0 <= i < p.class@.len() && 0 <= j < p.class@[i].field@.len() ==> field_ok(
                p.class@,
                p.main,
                #[trigger] p.class@[i].field@[j],
                world_before(p, i, j),
            ),
{
    if program_ok(p) {
        assert forall|i: int, j: int|
            0 <= i < p.class@.len() && 0 <= j < p.class@[i].field@.len() implies field_ok(
            p.class@,
            p.main,
            #[trigger] p.class@[i].field@[j],
            world_before(p, i, j),
        ) by {
            let fs = p.class@[i].field@;
            let w = classes_next(p.class@, p.main, i as nat, initial_world(p));
            lemma_class_ok(p.class@, p.main, p.class@.len(), initial_world(p), i);
            lemma_fields_ok_prefix(p.class@, p.main, fs, fs.len(), w, (j + 1) as nat);
        }
    }
    if forall|i: int, j: int|
        0 <= i < p.class@.len() && 0 <= j < p.class@[i].field@.len() ==> field_ok(
            p.class@,
            p.main,
            #[trigger] p.class@[i].field@[j],
            world_before(p, i, j),
        ) {
        lemma_classes(p, p.class@.len());
    }
}

} // verus!
