//! Local variables: every one that is taken is stored into, so that none is taken in vain.

use vstd::prelude::*;

use crate::ast::{
    Assign, Binary, Block, Call, DefaultIndexed, Expr, ExprKind, For, Foreach, Identifier, If,
    Indexed, MethodView, SCopy, SemanticType, Simple, Stmt, Unary, While,
};
use crate::count::{count, group_count};
use crate::instr::{InsnView, Instruction};
use crate::locals::{lemma_block_len, lemma_guards_len, lemma_params_len, lemma_stmts_len};
use crate::program::{body_ok, body_start, lemma_params_end, method_member, param_locals};
use crate::scheme::{
    binary_code, binary_locals, block_code, block_end, block_locals, call_code, call_locals,
    counter_locals, default_code, default_locals, expr_code, expr_locals, exprs_code, exprs_end,
    exprs_locals, for_code, foreach_array, foreach_body, foreach_code, foreach_cond, foreach_locals,
    guards_code, guards_end, guards_locals, identifier_code, identifier_locals, if_code,
    indexed_code, owner_code, owner_end, owner_locals, place_code, place_labels, place_locals,
    post_inc_code, pre_inc_code, print_code, s_copy_code, simple_code, simple_end, simple_locals,
    stmt_code, stmt_locals, stmts_code, stmts_end, stmts_locals, unary_code, unary_locals,
    while_code, Env, Pos,
};
use crate::valid::{
    assign_ok, binary_ok, block_ok, call_ok, counter_ok, default_ok, expr_ok, exprs_ok, foreach_ok,
    guards_ok, identifier_ok, indexed_ok, owner_ok, s_copy_ok, simple_ok, stmt_ok, stmts_ok,
    unary_ok,
};

verus! {

/// The instruction stores into the local variable.
pub open spec fn stores_into(z: u8) -> spec_fn(InsnView) -> bool {
    |i: InsnView|
        match i {
            Instruction::IStore(k) => k == z,
            Instruction::AStore(k) => k == z,
            _ => false,
        }
}

/// How many instructions in the code store into the local variable.
pub open spec fn stores(code: Seq<InsnView>, z: u8) -> nat {
    count(code, stores_into(z))
}

/// The code stores into the local variable if it is one of `n` from `first` on.
pub open spec fn fills(code: Seq<InsnView>, first: nat, n: nat, z: u8) -> bool {
    first <= z < first + n ==> stores(code, z) > 0
}

/// An expression stores into every local variable that it takes.
pub proof fn law_expr_locals_stored(env: Env, e: Expr, p: Pos, z: u8)
    requires
        expr_ok(env, e),
        p.local + expr_locals(env, e) <= u8::MAX,
    ensures
        fills(expr_code(env, e, p), p.local, expr_locals(env, e), z),
    decreases e, 0nat,
{
    broadcast use group_count;

    match e.kind {
        ExprKind::Identifier(i) => {
            lemma_identifier(env, i, false, p, z);
        },
        ExprKind::Indexed(i) => {
            lemma_indexed(env, i, e.type_, false, p, z);
        },
        ExprKind::Const(_) => {},
        ExprKind::Call(c) => {
            lemma_call(env, c, p, z);
        },
        ExprKind::Unary(u) => {
            lemma_unary(env, u, p, z);
        },
        ExprKind::Binary(b) => {
            lemma_binary(env, b, p, z);
        },
        ExprKind::This => {},
        ExprKind::NewClass(_) => {},
        ExprKind::NewArray(n) => {
            law_expr_locals_stored(env, *n.len, p, z);
        },
        ExprKind::TypeCast(t) => {
            law_expr_locals_stored(env, *t.expr, p, z);
        },
        ExprKind::TypeTest(t) => {
            law_expr_locals_stored(env, *t.expr, p, z);
        },
        ExprKind::Default(d) => {
            lemma_default(env, d, e.type_, p, z);
        },
    }
}

proof fn lemma_indexed(env: Env, i: Indexed, t: SemanticType, for_assign: bool, p: Pos, z: u8)
    requires
        indexed_ok(env, i),
        p.local + expr_locals(env, *i.arr) + expr_locals(env, *i.idx) <= u8::MAX,
    ensures
        fills(
            indexed_code(env, i, t, for_assign, p),
            p.local,
            expr_locals(env, *i.arr) + expr_locals(env, *i.idx),
            z,
        ),
    decreases i, 0nat,
{
    broadcast use group_count;

    law_expr_locals_stored(env, *i.arr, p, z);
    law_expr_locals_stored(env, *i.idx, p.past(env, *i.arr), z);
}

proof fn lemma_call(env: Env, c: Call, p: Pos, z: u8)
    requires
        call_ok(env, c),
        p.local + call_locals(env, c) <= u8::MAX,
    ensures
        fills(call_code(env, c, p), p.local, call_locals(env, c), z),
    decreases c, 0nat,
{
    broadcast use group_count;

    lemma_owner(env, c.owner, p, z);
    if !c.is_arr_len {
        lemma_exprs(env, c.arg@, c.arg@.len(), owner_end(env, c.owner, p), z);
    }
}

proof fn lemma_unary(env: Env, u: Unary, p: Pos, z: u8)
    requires
        unary_ok(env, u),
        p.local + unary_locals(env, u) <= u8::MAX,
    ensures
        fills(unary_code(env, u, p), p.local, unary_locals(env, u), z),
    decreases u, 0nat,
{
    broadcast use group_count;

    if u.op is Neg {
        law_expr_locals_stored(env, *u.r, p, z);
    } else if u.op is Not {
        law_expr_locals_stored(env, *u.r, p.step(2, 0), z);
    } else {
        lemma_counter(env, *u.r, 1, p, z);
        lemma_counter(env, *u.r, (-1) as i32, p, z);
    }
}

proof fn lemma_binary(env: Env, b: Binary, p: Pos, z: u8)
    requires
        binary_ok(env, b),
        p.local + binary_locals(env, b) <= u8::MAX,
    ensures
        fills(binary_code(env, b, p), p.local, binary_locals(env, b), z),
    decreases b, 0nat,
{
    broadcast use group_count;

    let q = if b.op is Repeat {
        p.step(2, 3)
    } else if b.op is And || b.op is Or {
        p.step(2, 0)
    } else {
        p
    };
    law_expr_locals_stored(env, *b.l, q, z);
    law_expr_locals_stored(env, *b.r, q.past(env, *b.l), z);
}

proof fn lemma_default(env: Env, d: DefaultIndexed, t: SemanticType, p: Pos, z: u8)
    requires
        default_ok(env, d),
        p.local + default_locals(env, d) <= u8::MAX,
    ensures
        fills(default_code(env, d, t, p), p.local, default_locals(env, d), z),
    decreases d, 0nat,
{
    broadcast use group_count;

    let q = p.step(2, 1);
    let r = q.past(env, *d.arr);
    law_expr_locals_stored(env, *d.arr, q, z);
    law_expr_locals_stored(env, *d.idx, r, z);
    law_expr_locals_stored(env, *d.dft, r.past(env, *d.idx), z);
}

proof fn lemma_owner(env: Env, owner: Option<Box<Expr>>, p: Pos, z: u8)
    requires
        owner_ok(env, owner),
        p.local + owner_locals(env, owner) <= u8::MAX,
    ensures
        fills(owner_code(env, owner, p), p.local, owner_locals(env, owner), z),
    decreases owner, 0nat,
{
    broadcast use group_count;

    if let Some(e) = owner {
        law_expr_locals_stored(env, *e, p, z);
    }
}

proof fn lemma_identifier(env: Env, i: Identifier, for_assign: bool, p: Pos, z: u8)
    requires
        identifier_ok(env, i, for_assign),
        p.local + identifier_locals(env, i, for_assign) <= u8::MAX,
    ensures
        fills(
            identifier_code(env, i, for_assign, p),
            p.local,
            identifier_locals(env, i, for_assign),
            z,
        ),
    decreases i, 0nat,
{
    broadcast use group_count;

    if for_assign || env.field_of(i.symbol) is Some {
        lemma_owner(env, i.owner, p, z);
    }
}

proof fn lemma_exprs(env: Env, es: Seq<Expr>, n: nat, p: Pos, z: u8)
    requires
        n <= es.len(),
        exprs_ok(env, es, n),
        p.local + exprs_locals(env, es, n) <= u8::MAX,
    ensures
        fills(exprs_code(env, es, n, p), p.local, exprs_locals(env, es, n), z),
    decreases es, n,
{
    broadcast use group_count;

    if n > 0 {
        let m = (n - 1) as nat;
        lemma_exprs(env, es, m, p, z);
        law_expr_locals_stored(env, es[n - 1], exprs_end(env, es, m, p), z);
    }
}

proof fn lemma_counter(env: Env, e: Expr, val: i32, p: Pos, z: u8)
    requires
        counter_ok(env, e),
        p.local + counter_locals(env, e) <= u8::MAX,
    ensures
        fills(pre_inc_code(env, e, val, p), p.local, counter_locals(env, e), z),
        fills(post_inc_code(env, e, val, p), p.local, counter_locals(env, e), z),
    decreases e, 1nat,
{
    broadcast use group_count;

    match e.kind {
        ExprKind::Identifier(i) => {
            if env.field_of(i.symbol) is Some {
                assert(identifier_locals(env, i, false) == owner_locals(env, i.owner));
                lemma_owner(env, i.owner, p, z);
            } else {
                assert(identifier_locals(env, i, false) == 0);
            }
        },
        ExprKind::Indexed(i) => {
            lemma_indexed(env, i, e.type_, true, p, z);
        },
        _ => {},
    }
}

proof fn lemma_place(env: Env, a: Assign, p: Pos, z: u8)
    requires
        assign_ok(env, a),
        p.local + place_locals(env, a.dst) <= u8::MAX,
    ensures
        fills(place_code(env, a.dst, p), p.local, place_locals(env, a.dst), z),
{
    match a.dst.kind {
        ExprKind::Identifier(i) => {
            lemma_identifier(env, i, true, p, z);
        },
        ExprKind::Indexed(i) => {
            lemma_indexed(env, i, a.dst.type_, true, p, z);
        },
        _ => {},
    }
}

proof fn lemma_simple(env: Env, s: Simple, p: Pos, z: u8)
    requires
        simple_ok(env, s),
        p.local + simple_locals(env, s) <= u8::MAX,
    ensures
        fills(simple_code(env, s, p), p.local, simple_locals(env, s), z),
{
    broadcast use group_count;

    match s {
        Simple::Assign(a) => {
            lemma_place(env, a, p, z);
            law_expr_locals_stored(
                env,
                a.src,
                p.step(place_labels(env, a.dst), place_locals(env, a.dst)),
                z,
            );
        },
        Simple::VarAssign(v) => {
            if let Some(e) = v.src {
                law_expr_locals_stored(env, e, p.bind(v.var, p.slot(0)).step(0, 1), z);
            }
        },
        Simple::Expr(e) => {
            law_expr_locals_stored(env, e, p, z);
        },
        Simple::Skip => {},
    }
}

/// A statement stores into every local variable that it takes.
pub proof fn law_stmt_locals_stored(env: Env, s: Stmt, in_loop: bool, brk: u16, p: Pos, z: u8)
    requires
        stmt_ok(env, s, in_loop),
        p.slots.len() == env.vars.len(),
        p.local + stmt_locals(env, s) <= u8::MAX,
    ensures
        fills(stmt_code(env, s, brk, p), p.local, stmt_locals(env, s), z),
    decreases s, 0nat,
{
    broadcast use group_count;

    match s {
        Stmt::Simple(s) => {
            lemma_simple(env, s, p, z);
        },
        Stmt::If(x) => {
            lemma_if(env, x, in_loop, brk, p, z);
        },
        Stmt::While(x) => {
            lemma_while(env, x, p, z);
        },
        Stmt::For(x) => {
            lemma_for(env, x, p, z);
        },
        Stmt::Return(r) => {
            if let Some(e) = r.expr {
                law_expr_locals_stored(env, e, p, z);
            }
        },
        Stmt::Print(r) => {
            lemma_print(env, r.print@, r.print@.len(), p, z);
        },
        Stmt::Break => {},
        Stmt::SCopy(c) => {
            lemma_s_copy(env, c, p, z);
        },
        Stmt::Foreach(f) => {
            lemma_foreach(env, f, p, z);
        },
        Stmt::Guarded(g) => {
            lemma_guards(env, g.guarded@, g.guarded@.len(), in_loop, brk, p, z);
        },
        Stmt::Block(b) => {
            lemma_block(env, b, in_loop, brk, p, z);
        },
    }
}

proof fn lemma_if(env: Env, x: If, in_loop: bool, brk: u16, p: Pos, z: u8)
    requires
        stmt_ok(env, Stmt::If(x), in_loop),
        p.slots.len() == env.vars.len(),
        p.local + stmt_locals(env, Stmt::If(x)) <= u8::MAX,
    ensures
        fills(if_code(env, x, brk, p), p.local, stmt_locals(env, Stmt::If(x)), z),
    decreases x, 0nat,
{
    broadcast use group_count;

    let q = p.step(2, 0);
    let r = q.past(env, x.cond);
    law_expr_locals_stored(env, x.cond, q, z);
    lemma_block(env, x.on_true, in_loop, brk, r, z);
    if let Some(b) = x.on_false {
        lemma_block_len(env, x.on_true, in_loop, r);
        lemma_block(env, b, in_loop, brk, block_end(env, x.on_true, r), z);
    }
}

proof fn lemma_while(env: Env, x: While, p: Pos, z: u8)
    requires
        stmt_ok(env, Stmt::While(x), false),
        p.slots.len() == env.vars.len(),
        p.local + stmt_locals(env, Stmt::While(x)) <= u8::MAX,
    ensures
        fills(while_code(env, x, p), p.local, stmt_locals(env, Stmt::While(x)), z),
    decreases x, 0nat,
{
    broadcast use group_count;

    let q = p.step(2, 0);
    law_expr_locals_stored(env, x.cond, q, z);
    lemma_block(env, x.body, true, p.at(1), q.past(env, x.cond), z);
}

proof fn lemma_for(env: Env, x: For, p: Pos, z: u8)
    requires
        stmt_ok(env, Stmt::For(x), false),
        p.slots.len() == env.vars.len(),
        p.local + stmt_locals(env, Stmt::For(x)) <= u8::MAX,
    ensures
        fills(for_code(env, x, p), p.local, stmt_locals(env, Stmt::For(x)), z),
    decreases x, 0nat,
{
    broadcast use group_count;

    let q = p.step(2, 0);
    let r = simple_end(env, x.init, q);
    let t = r.past(env, x.cond);
    lemma_simple(env, x.init, q, z);
    law_expr_locals_stored(env, x.cond, r, z);
    lemma_block(env, x.body, true, p.at(1), t, z);
    lemma_block_len(env, x.body, true, t);
    lemma_simple(env, x.update, block_end(env, x.body, t), z);
}

proof fn lemma_s_copy(env: Env, c: SCopy, p: Pos, z: u8)
    requires
        s_copy_ok(env, c),
        p.local + 2 + expr_locals(env, c.src) <= u8::MAX,
    ensures
        fills(s_copy_code(env, c, p), p.local, 2 + expr_locals(env, c.src), z),
{
    broadcast use group_count;

    law_expr_locals_stored(env, c.src, p.step(0, 2), z);
}

proof fn lemma_block(env: Env, b: Block, in_loop: bool, brk: u16, p: Pos, z: u8)
    requires
        block_ok(env, b, in_loop),
        p.slots.len() == env.vars.len(),
        p.local + block_locals(env, b) <= u8::MAX,
    ensures
        fills(block_code(env, b, brk, p), p.local, block_locals(env, b), z),
    decreases b, 0nat,
{
    lemma_stmts(env, b.stmt@, b.stmt@.len(), in_loop, brk, p, z);
}

proof fn lemma_stmts(
    env: Env,
    ss: Seq<Stmt>,
    n: nat,
    in_loop: bool,
    brk: u16,
    p: Pos,
    z: u8,
)
    requires
        n <= ss.len(),
        stmts_ok(env, ss, n, in_loop),
        p.slots.len() == env.vars.len(),
        p.local + stmts_locals(env, ss, n) <= u8::MAX,
    ensures
        fills(stmts_code(env, ss, n, brk, p), p.local, stmts_locals(env, ss, n), z),
    decreases ss, n,
{
    broadcast use group_count;

    if n > 0 {
        let m = (n - 1) as nat;
        lemma_stmts(env, ss, m, in_loop, brk, p, z);
        lemma_stmts_len(env, ss, m, in_loop, p);
        law_stmt_locals_stored(env, ss[n - 1], in_loop, brk, stmts_end(env, ss, m, p), z);
    }
}

proof fn lemma_print(env: Env, es: Seq<Expr>, n: nat, p: Pos, z: u8)
    requires
        n <= es.len(),
        exprs_ok(env, es, n),
        p.local + exprs_locals(env, es, n) <= u8::MAX,
    ensures
        fills(print_code(env, es, n, p), p.local, exprs_locals(env, es, n), z),
    decreases n,
{
    broadcast use group_count;

    if n > 0 {
        let m = (n - 1) as nat;
        lemma_print(env, es, m, p, z);
        law_expr_locals_stored(env, es[n - 1], exprs_end(env, es, m, p), z);
    }
}

proof fn lemma_foreach(env: Env, f: Foreach, p: Pos, z: u8)
    requires
        foreach_ok(env, f),
        p.slots.len() == env.vars.len(),
        p.local + foreach_locals(env, f) <= u8::MAX,
    ensures
        fills(foreach_code(env, f, p), p.local, foreach_locals(env, f), z),
    decreases f, 0nat,
{
    broadcast use group_count;

    let q = foreach_array(env, f, p);
    let r = q.past(env, f.arr);
    law_expr_locals_stored(env, f.arr, q, z);
    if let Some(e) = f.cond {
        law_expr_locals_stored(env, e, foreach_cond(env, f, p), z);
    }
    lemma_block(env, f.body, true, r.at(1), foreach_body(env, f, p), z);
}

proof fn lemma_guards(
    env: Env,
    gs: Seq<(Expr, Block)>,
    n: nat,
    in_loop: bool,
    brk: u16,
    p: Pos,
    z: u8,
)
    requires
        n <= gs.len(),
        guards_ok(env, gs, n, in_loop),
        p.slots.len() == env.vars.len(),
        p.local + guards_locals(env, gs, n) <= u8::MAX,
    ensures
        fills(guards_code(env, gs, n, brk, p), p.local, guards_locals(env, gs, n), z),
    decreases gs, n,
{
    broadcast use group_count;

    if n > 0 {
        let m = (n - 1) as nat;
        let r = guards_end(env, gs, m, p).step(1, 0);
        lemma_guards(env, gs, m, in_loop, brk, p, z);
        lemma_guards_len(env, gs, m, in_loop, p);
        law_expr_locals_stored(env, gs[n - 1].0, r, z);
        lemma_block(env, gs[n - 1].1, in_loop, brk, r.past(env, gs[n - 1].0), z);
    }
}

/// A method asks for the local variables of its parameters and those that its code stores into, and
/// for no others. Parameters that are declared in a class have none.
pub proof fn law_method_locals_stored(env: Env, m: MethodView, body: Block, slots: Seq<u8>, z: u8)
    requires
        body_ok(env, m, body),
        slots.len() == env.vars.len(),
    ensures
        ({
            let g = method_member(env, m, body, slots);
            let n = m.param.filter(|v: usize| !(env.vars[v as int].scope is Class)).len();
            &&& g->max_locals == n + block_locals(env, body)
            &&& n <= z < g->max_locals ==> stores(g->code, z) > 0
        }),
{
    broadcast use group_count;

    lemma_params_end(env, m.param, m.param.len(), Pos { label: 0, local: 0, slots });
    lemma_params_len(env, m.param, m.param.len(), Pos { label: 0, local: 0, slots });
    lemma_block(env, body, false, 0, body_start(env, m.param, slots), z);
    lemma_held(env, m.param, m.param.len());
    assert(m.param.take(m.param.len() as int) =~= m.param);
}

/// Parameters take one local variable each, unless they are declared in a class.
pub proof fn lemma_held(env: Env, param: Seq<usize>, n: nat)
    requires
        n <= param.len(),
    ensures
        param_locals(env, param, n) == param.take(n as int).filter(
            |v: usize| !(env.vars[v as int].scope is Class),
        ).len(),
    decreases n,
{
    reveal(Seq::filter);
    if n > 0 {
        lemma_held(env, param, (n - 1) as nat);
        assert(param.take(n as int).drop_last() =~= param.take(n - 1));
    }
}

} // verus!
