//! Labels: every label that is taken is placed exactly once, and jumps go nowhere else.

use vstd::prelude::*;

use crate::ast::{
    Assign, Binary, Block, Call, DefaultIndexed, Expr, ExprKind, FieldDef, For, Foreach, Identifier,
    If, Indexed, MethodView, Program, SCopy, SemanticType, Simple, Stmt, Unary, While,
};
use crate::count::{count, group_count};
use crate::instr::{InsnView, Instruction};
use crate::program::{
    body_ok, body_start, enter_method, lemma_params_end, lemma_program_method, method_code,
    program_class, program_ok, world_before,
};
use crate::scheme::{
    binary_code, binary_labels, block_code, block_end, block_labels, call_code, call_labels,
    copy_code, counter_labels, default_code, default_labels, expr_code, expr_labels, exprs_code,
    exprs_end, exprs_labels, for_code, foreach_array, foreach_body, foreach_code, foreach_cond,
    foreach_labels, guards_code, guards_end, guards_labels, identifier_code, identifier_labels,
    if_code, indexed_code, owner_code, owner_end, owner_labels, place_code, place_labels,
    place_locals, post_inc_code, pre_inc_code, print_code, s_copy_code, simple_code, simple_end,
    simple_labels, stmt_code, stmt_labels, stmts_code, stmts_end, stmts_labels, unary_code,
    unary_labels, while_code, Env, Pos,
};
use crate::valid::{
    assign_ok, binary_ok, block_ok, call_ok, counter_ok, default_ok, expr_ok, exprs_ok, foreach_ok,
    guards_ok, identifier_ok, indexed_ok, owner_ok, s_copy_ok, simple_ok, stmt_ok, stmts_ok,
    unary_ok,
};

verus! {

/// The label that an instruction may jump to.
pub open spec fn target(i: InsnView) -> Option<u16> {
    match i {
        Instruction::Goto(l) => Some(l),
        Instruction::IfEq(l) => Some(l),
        Instruction::IfNe(l) => Some(l),
        Instruction::IfLt(l) => Some(l),
        Instruction::IfICmpEq(l) => Some(l),
        Instruction::IfICmpNe(l) => Some(l),
        Instruction::IfICmpLt(l) => Some(l),
        Instruction::IfICmpGe(l) => Some(l),
        Instruction::IfICmpGt(l) => Some(l),
        Instruction::IfICmpLe(l) => Some(l),
        Instruction::IfACmpEq(l) => Some(l),
        Instruction::IfACmpNe(l) => Some(l),
        _ => None,
    }
}

/// The instruction is the place of the label.
pub open spec fn places(l: u16) -> spec_fn(InsnView) -> bool {
    |i: InsnView|
        match i {
            Instruction::Label(k) => k == l,
            _ => false,
        }
}

/// The instruction may jump to the label.
pub open spec fn jumps_to(l: u16) -> spec_fn(InsnView) -> bool {
    |i: InsnView| target(i) == Some(l)
}

/// How often the label is placed in the code.
pub open spec fn placed(code: Seq<InsnView>, l: u16) -> nat {
    count(code, places(l))
}

/// How many instructions in the code may jump to the label.
pub open spec fn jumps(code: Seq<InsnView>, l: u16) -> nat {
    count(code, jumps_to(l))
}

/// The code places exactly the labels from `first`, as many as `n`, and jumps only to them, or to
/// `out` where there is one.
pub open spec fn keeps(code: Seq<InsnView>, first: nat, n: nat, out: Option<u16>, l: u16) -> bool {
    &&& placed(code, l) == if first <= l < first + n {
        1nat
    } else {
        0nat
    }
    &&& jumps(code, l) > 0 ==> first <= l < first + n || out == Some(l)
}

/// An expression places each label that it takes exactly once, and jumps only to those.
pub proof fn law_expr_labels(env: Env, e: Expr, p: Pos, l: u16)
    requires
        expr_ok(env, e),
        p.label + expr_labels(env, e) <= u16::MAX,
    ensures
        keeps(expr_code(env, e, p), p.label, expr_labels(env, e), None, l),
    decreases e, 0nat,
{
    broadcast use group_count;

    match e.kind {
        ExprKind::Identifier(i) => {
            lemma_identifier(env, i, false, p, l);
        },
        ExprKind::Indexed(i) => {
            lemma_indexed(env, i, e.type_, false, p, l);
        },
        ExprKind::Const(_) => {},
        ExprKind::Call(c) => {
            lemma_call(env, c, p, l);
        },
        ExprKind::Unary(u) => {
            lemma_unary(env, u, p, l);
        },
        ExprKind::Binary(b) => {
            lemma_binary(env, b, p, l);
        },
        ExprKind::This => {},
        ExprKind::NewClass(_) => {},
        ExprKind::NewArray(n) => {
            law_expr_labels(env, *n.len, p, l);
        },
        ExprKind::TypeCast(t) => {
            law_expr_labels(env, *t.expr, p, l);
        },
        ExprKind::TypeTest(t) => {
            law_expr_labels(env, *t.expr, p, l);
        },
        ExprKind::Default(d) => {
            lemma_default(env, d, e.type_, p, l);
        },
    }
}

proof fn lemma_indexed(env: Env, i: Indexed, t: SemanticType, for_assign: bool, p: Pos, l: u16)
    requires
        indexed_ok(env, i),
        p.label + expr_labels(env, *i.arr) + expr_labels(env, *i.idx) <= u16::MAX,
    ensures
        keeps(
            indexed_code(env, i, t, for_assign, p),
            p.label,
            expr_labels(env, *i.arr) + expr_labels(env, *i.idx),
            None,
            l,
        ),
    decreases i, 0nat,
{
    broadcast use group_count;

    law_expr_labels(env, *i.arr, p, l);
    law_expr_labels(env, *i.idx, p.past(env, *i.arr), l);
}

proof fn lemma_call(env: Env, c: Call, p: Pos, l: u16)
    requires
        call_ok(env, c),
        p.label + call_labels(env, c) <= u16::MAX,
    ensures
        keeps(call_code(env, c, p), p.label, call_labels(env, c), None, l),
    decreases c, 0nat,
{
    broadcast use group_count;

    lemma_owner(env, c.owner, p, l);
    if !c.is_arr_len {
        lemma_exprs(env, c.arg@, c.arg@.len(), owner_end(env, c.owner, p), l);
    }
}

proof fn lemma_unary(env: Env, u: Unary, p: Pos, l: u16)
    requires
        unary_ok(env, u),
        p.label + unary_labels(env, u) <= u16::MAX,
    ensures
        keeps(unary_code(env, u, p), p.label, unary_labels(env, u), None, l),
    decreases u, 0nat,
{
    broadcast use group_count;

    if u.op is Neg {
        law_expr_labels(env, *u.r, p, l);
    } else if u.op is Not {
        law_expr_labels(env, *u.r, p.step(2, 0), l);
    } else {
        lemma_counter(env, *u.r, 1, p, l);
        lemma_counter(env, *u.r, (-1) as i32, p, l);
    }
}

proof fn lemma_binary(env: Env, b: Binary, p: Pos, l: u16)
    requires
        binary_ok(env, b),
        p.label + binary_labels(env, b) <= u16::MAX,
    ensures
        keeps(binary_code(env, b, p), p.label, binary_labels(env, b), None, l),
    decreases b, 0nat,
{
    broadcast use group_count;

    let q = if b.op is Repeat {
        p.step(2, 3)
    } else if b.op is And || b.op is Or {
        p.step(2, 0)
    } else {
        p
    };
    law_expr_labels(env, *b.l, q, l);
    law_expr_labels(env, *b.r, q.past(env, *b.l), l);
}

proof fn lemma_default(env: Env, d: DefaultIndexed, t: SemanticType, p: Pos, l: u16)
    requires
        default_ok(env, d),
        p.label + default_labels(env, d) <= u16::MAX,
    ensures
        keeps(default_code(env, d, t, p), p.label, default_labels(env, d), None, l),
    decreases d, 0nat,
{
    broadcast use group_count;

    let q = p.step(2, 1);
    let r = q.past(env, *d.arr);
    law_expr_labels(env, *d.arr, q, l);
    law_expr_labels(env, *d.idx, r, l);
    law_expr_labels(env, *d.dft, r.past(env, *d.idx), l);
}

proof fn lemma_owner(env: Env, owner: Option<Box<Expr>>, p: Pos, l: u16)
    requires
        owner_ok(env, owner),
        p.label + owner_labels(env, owner) <= u16::MAX,
    ensures
        keeps(owner_code(env, owner, p), p.label, owner_labels(env, owner), None, l),
    decreases owner, 0nat,
{
    broadcast use group_count;

    if let Some(e) = owner {
        law_expr_labels(env, *e, p, l);
    }
}

proof fn lemma_identifier(env: Env, i: Identifier, for_assign: bool, p: Pos, l: u16)
    requires
        identifier_ok(env, i, for_assign),
        p.label + identifier_labels(env, i, for_assign) <= u16::MAX,
    ensures
        keeps(
            identifier_code(env, i, for_assign, p),
            p.label,
            identifier_labels(env, i, for_assign),
            None,
            l,
        ),
    decreases i, 0nat,
{
    broadcast use group_count;

    if for_assign || env.field_of(i.symbol) is Some {
        lemma_owner(env, i.owner, p, l);
    }
}

proof fn lemma_exprs(env: Env, es: Seq<Expr>, n: nat, p: Pos, l: u16)
    requires
        n <= es.len(),
        exprs_ok(env, es, n),
        p.label + exprs_labels(env, es, n) <= u16::MAX,
    ensures
        keeps(exprs_code(env, es, n, p), p.label, exprs_labels(env, es, n), None, l),
    decreases es, n,
{
    broadcast use group_count;

    if n > 0 {
        let m = (n - 1) as nat;
        lemma_exprs(env, es, m, p, l);
        law_expr_labels(env, es[n - 1], exprs_end(env, es, m, p), l);
    }
}

proof fn lemma_counter(env: Env, e: Expr, val: i32, p: Pos, l: u16)
    requires
        counter_ok(env, e),
        p.label + counter_labels(env, e) <= u16::MAX,
    ensures
        keeps(pre_inc_code(env, e, val, p), p.label, counter_labels(env, e), None, l),
        keeps(post_inc_code(env, e, val, p), p.label, counter_labels(env, e), None, l),
    decreases e, 1nat,
{
    broadcast use group_count;

    match e.kind {
        ExprKind::Identifier(i) => {
            if env.field_of(i.symbol) is Some {
                assert(identifier_labels(env, i, false) == owner_labels(env, i.owner));
                lemma_owner(env, i.owner, p, l);
            } else {
                assert(identifier_labels(env, i, false) == 0);
            }
        },
        ExprKind::Indexed(i) => {
            lemma_indexed(env, i, e.type_, true, p, l);
        },
        _ => {},
    }
}

proof fn lemma_place(env: Env, a: Assign, p: Pos, l: u16)
    requires
        assign_ok(env, a),
        p.label + place_labels(env, a.dst) <= u16::MAX,
    ensures
        keeps(place_code(env, a.dst, p), p.label, place_labels(env, a.dst), None, l),
{
    match a.dst.kind {
        ExprKind::Identifier(i) => {
            lemma_identifier(env, i, true, p, l);
        },
        ExprKind::Indexed(i) => {
            lemma_indexed(env, i, a.dst.type_, true, p, l);
        },
        _ => {},
    }
}

proof fn lemma_simple(env: Env, s: Simple, p: Pos, l: u16)
    requires
        simple_ok(env, s),
        p.label + simple_labels(env, s) <= u16::MAX,
    ensures
        keeps(simple_code(env, s, p), p.label, simple_labels(env, s), None, l),
{
    broadcast use group_count;

    match s {
        Simple::Assign(a) => {
            lemma_place(env, a, p, l);
            law_expr_labels(
                env,
                a.src,
                p.step(place_labels(env, a.dst), place_locals(env, a.dst)),
                l,
            );
        },
        Simple::VarAssign(v) => {
            if let Some(e) = v.src {
                law_expr_labels(env, e, p.bind(v.var, p.slot(0)).step(0, 1), l);
            }
        },
        Simple::Expr(e) => {
            law_expr_labels(env, e, p, l);
        },
        Simple::Skip => {},
    }
}

/// Where a `break` may jump to.
pub open spec fn way_out(in_loop: bool, brk: u16) -> Option<u16> {
    if in_loop {
        Some(brk)
    } else {
        None
    }
}

/// A statement places each label that it takes exactly once, and jumps only to those, or behind
/// the loop that it stands in.
pub proof fn law_stmt_labels(env: Env, s: Stmt, in_loop: bool, brk: u16, p: Pos, l: u16)
    requires
        stmt_ok(env, s, in_loop),
        p.label + stmt_labels(env, s) <= u16::MAX,
    ensures
        keeps(
            stmt_code(env, s, brk, p),
            p.label,
            stmt_labels(env, s),
            way_out(in_loop, brk),
            l,
        ),
    decreases s, 0nat,
{
    broadcast use group_count;

    match s {
        Stmt::Simple(s) => {
            lemma_simple(env, s, p, l);
        },
        Stmt::If(x) => {
            lemma_if(env, x, in_loop, brk, p, l);
        },
        Stmt::While(x) => {
            lemma_while(env, x, p, l);
        },
        Stmt::For(x) => {
            lemma_for(env, x, p, l);
        },
        Stmt::Return(r) => {
            if let Some(e) = r.expr {
                law_expr_labels(env, e, p, l);
            }
        },
        Stmt::Print(r) => {
            lemma_print(env, r.print@, r.print@.len(), p, l);
        },
        Stmt::Break => {},
        Stmt::SCopy(c) => {
            lemma_s_copy(env, c, p, l);
        },
        Stmt::Foreach(f) => {
            lemma_foreach(env, f, p, l);
        },
        Stmt::Guarded(g) => {
            lemma_guards(env, g.guarded@, g.guarded@.len(), in_loop, brk, p, l);
        },
        Stmt::Block(b) => {
            lemma_block(env, b, in_loop, brk, p, l);
        },
    }
}

proof fn lemma_if(env: Env, x: If, in_loop: bool, brk: u16, p: Pos, l: u16)
    requires
        stmt_ok(env, Stmt::If(x), in_loop),
        p.label + stmt_labels(env, Stmt::If(x)) <= u16::MAX,
    ensures
        keeps(
            if_code(env, x, brk, p),
            p.label,
            stmt_labels(env, Stmt::If(x)),
            way_out(in_loop, brk),
            l,
        ),
    decreases x, 0nat,
{
    broadcast use group_count;

    let q = p.step(2, 0);
    let r = q.past(env, x.cond);
    law_expr_labels(env, x.cond, q, l);
    lemma_block(env, x.on_true, in_loop, brk, r, l);
    if let Some(b) = x.on_false {
        lemma_block(env, b, in_loop, brk, block_end(env, x.on_true, r), l);
    }
}

proof fn lemma_while(env: Env, x: While, p: Pos, l: u16)
    requires
        stmt_ok(env, Stmt::While(x), false),
        p.label + stmt_labels(env, Stmt::While(x)) <= u16::MAX,
    ensures
        keeps(while_code(env, x, p), p.label, stmt_labels(env, Stmt::While(x)), None, l),
    decreases x, 0nat,
{
    broadcast use group_count;

    let q = p.step(2, 0);
    law_expr_labels(env, x.cond, q, l);
    lemma_block(env, x.body, true, p.at(1), q.past(env, x.cond), l);
}

proof fn lemma_for(env: Env, x: For, p: Pos, l: u16)
    requires
        stmt_ok(env, Stmt::For(x), false),
        p.label + stmt_labels(env, Stmt::For(x)) <= u16::MAX,
    ensures
        keeps(for_code(env, x, p), p.label, stmt_labels(env, Stmt::For(x)), None, l),
    decreases x, 0nat,
{
    broadcast use group_count;

    let q = p.step(2, 0);
    let r = simple_end(env, x.init, q);
    let t = r.past(env, x.cond);
    lemma_simple(env, x.init, q, l);
    law_expr_labels(env, x.cond, r, l);
    lemma_block(env, x.body, true, p.at(1), t, l);
    lemma_simple(env, x.update, block_end(env, x.body, t), l);
}

proof fn lemma_s_copy(env: Env, c: SCopy, p: Pos, l: u16)
    requires
        s_copy_ok(env, c),
        p.label + expr_labels(env, c.src) <= u16::MAX,
    ensures
        keeps(s_copy_code(env, c, p), p.label, expr_labels(env, c.src), None, l),
{
    broadcast use group_count;

    let class = env.classes[c.src.type_->Object_0 as int];
    law_expr_labels(env, c.src, p.step(0, 2), l);
    lemma_copy(env, class.name@, class.field@, class.field@.len(), p.slot(0), p.slot(1), l);
}

proof fn lemma_block(env: Env, b: Block, in_loop: bool, brk: u16, p: Pos, l: u16)
    requires
        block_ok(env, b, in_loop),
        p.label + block_labels(env, b) <= u16::MAX,
    ensures
        keeps(
            block_code(env, b, brk, p),
            p.label,
            block_labels(env, b),
            way_out(in_loop, brk),
            l,
        ),
    decreases b, 0nat,
{
    lemma_stmts(env, b.stmt@, b.stmt@.len(), in_loop, brk, p, l);
}

proof fn lemma_stmts(
    env: Env,
    ss: Seq<Stmt>,
    n: nat,
    in_loop: bool,
    brk: u16,
    p: Pos,
    l: u16,
)
    requires
        n <= ss.len(),
        stmts_ok(env, ss, n, in_loop),
        p.label + stmts_labels(env, ss, n) <= u16::MAX,
    ensures
        keeps(
            stmts_code(env, ss, n, brk, p),
            p.label,
            stmts_labels(env, ss, n),
            way_out(in_loop, brk),
            l,
        ),
    decreases ss, n,
{
    broadcast use group_count;

    if n > 0 {
        let m = (n - 1) as nat;
        lemma_stmts(env, ss, m, in_loop, brk, p, l);
        law_stmt_labels(env, ss[n - 1], in_loop, brk, stmts_end(env, ss, m, p), l);
    }
}

proof fn lemma_print(env: Env, es: Seq<Expr>, n: nat, p: Pos, l: u16)
    requires
        n <= es.len(),
        exprs_ok(env, es, n),
        p.label + exprs_labels(env, es, n) <= u16::MAX,
    ensures
        keeps(print_code(env, es, n, p), p.label, exprs_labels(env, es, n), None, l),
    decreases n,
{
    broadcast use group_count;

    if n > 0 {
        let m = (n - 1) as nat;
        lemma_print(env, es, m, p, l);
        law_expr_labels(env, es[n - 1], exprs_end(env, es, m, p), l);
    }
}

proof fn lemma_copy(
    env: Env,
    class: Seq<char>,
    field: Seq<FieldDef>,
    n: nat,
    src: u8,
    dst: u8,
    l: u16,
)
    ensures
        placed(copy_code(env, class, field, n, src, dst), l) == 0,
        jumps(copy_code(env, class, field, n, src, dst), l) == 0,
    decreases n,
{
    broadcast use group_count;

    if 0 < n <= field.len() {
        lemma_copy(env, class, field, (n - 1) as nat, src, dst, l);
    }
}

proof fn lemma_foreach(env: Env, f: Foreach, p: Pos, l: u16)
    requires
        foreach_ok(env, f),
        p.label + foreach_labels(env, f) <= u16::MAX,
    ensures
        keeps(foreach_code(env, f, p), p.label, foreach_labels(env, f), None, l),
    decreases f, 0nat,
{
    broadcast use group_count;

    let q = foreach_array(env, f, p);
    let r = q.past(env, f.arr);
    law_expr_labels(env, f.arr, q, l);
    if let Some(e) = f.cond {
        law_expr_labels(env, e, foreach_cond(env, f, p), l);
    }
    lemma_block(env, f.body, true, r.at(1), foreach_body(env, f, p), l);
}

proof fn lemma_guards(
    env: Env,
    gs: Seq<(Expr, Block)>,
    n: nat,
    in_loop: bool,
    brk: u16,
    p: Pos,
    l: u16,
)
    requires
        n <= gs.len(),
        guards_ok(env, gs, n, in_loop),
        p.label + guards_labels(env, gs, n) <= u16::MAX,
    ensures
        keeps(
            guards_code(env, gs, n, brk, p),
            p.label,
            guards_labels(env, gs, n),
            way_out(in_loop, brk),
            l,
        ),
    decreases gs, n,
{
    broadcast use group_count;

    if n > 0 {
        let m = (n - 1) as nat;
        let r = guards_end(env, gs, m, p).step(1, 0);
        lemma_guards(env, gs, m, in_loop, brk, p, l);
        law_expr_labels(env, gs[n - 1].0, r, l);
        lemma_block(env, gs[n - 1].1, in_loop, brk, r.past(env, gs[n - 1].0), l);
    }
}

/// In the code of a method every label below the number of labels is placed exactly once, no other
/// label is placed, and every jump goes to a label that is placed.
pub proof fn law_method_labels(env: Env, m: MethodView, body: Block, slots: Seq<u8>, l: u16)
    requires
        body_ok(env, m, body),
    ensures
        placed(method_code(env, m, body, slots), l) == if l < block_labels(env, body) {
            1nat
        } else {
            0nat
        },
        jumps(method_code(env, m, body, slots), l) > 0 ==> placed(
            method_code(env, m, body, slots),
            l,
        ) == 1,
{
    broadcast use group_count;

    lemma_params_end(env, m.param, m.param.len(), Pos { label: 0, local: 0, slots });
    lemma_block(env, body, false, 0, body_start(env, m.param, slots), l);
}

/// In every method of every generated class, each label is placed at most once, and every jump
/// goes to a label that is placed.
pub proof fn law_program_labels(p: Program, i: int, j: int, l: u16)
    requires
        program_ok(p),
        0 <= i < p.class@.len(),
        0 <= j < program_class(p, i).members.len(),
        program_class(p, i).members[j] is Method,
    ensures
        placed(program_class(p, i).members[j]->code, l) <= 1,
        jumps(program_class(p, i).members[j]->code, l) > 0 ==> placed(
            program_class(p, i).members[j]->code,
            l,
        ) == 1,
{
    broadcast use group_count;

    let k = lemma_program_method(p, i, j);
    if j > 0 {
        let f = p.class@[i].field@[k];
        let e = enter_method(p.main, world_before(p, i, k), f->MethodDef_0.symbol);
        law_method_labels(
            e.env(p.class@),
            e.methods[f->MethodDef_0.symbol as int],
            f->MethodDef_0.body,
            e.slots,
            l,
        );
    }
}

} // verus!
