//! Local variables: code touches only the variables that are declared where it stands and local
//! variables of its own, and no two declared variables of a method share one.

use vstd::prelude::*;

use crate::ast::{
    Assign, Binary, Block, Call, ClassDef, DefaultIndexed, Expr, ExprKind, FieldDef, For, Foreach,
    Identifier, If, Indexed, MethodView, Program, SemanticType, Simple, Stmt, Unary, Var,
};
use crate::count::{count, group_count, lemma_count_fewer, lemma_count_none};
use crate::instr::{InsnView, Instruction};
use crate::program::{
    body_ok, body_start, classes_next, classes_ok, constructor, enter_method, fields_next,
    fields_ok, initial_world, lemma_class_ok, lemma_classes_ok_prefix, lemma_fields_ok_prefix,
    lemma_program_method, method_code, method_locals, param_locals, params_end, parent_name,
    program_class, program_ok, world_before, World,
};
use crate::scheme::{
    binary_code, binary_locals, block_code, block_end, block_locals, block_slots, call_code,
    call_locals, copy_code, counter_locals, default_code, default_locals, expr_code, expr_locals,
    exprs_code, exprs_end, exprs_locals, for_code, foreach_array, foreach_body, foreach_code,
    foreach_cond, foreach_locals, guards_code, guards_end, guards_locals, guards_slots,
    identifier_code, identifier_locals, if_code, indexed_code, owner_code, owner_end, owner_locals,
    place_code, place_labels, place_locals, post_inc_code, pre_inc_code, print_code, simple_code,
    simple_end, simple_locals, simple_slots, stmt_code, stmt_locals, stmt_slots, stmts_code,
    stmts_end, stmts_locals, stmts_slots, unary_code, unary_locals, while_code, Env, Pos,
};
use crate::valid::{
    assign_ok, binary_ok, block_ok, call_ok, counter_ok, default_ok, expr_ok, exprs_ok, foreach_ok,
    guards_ok, identifier_ok, indexed_ok, owner_ok, simple_ok, stmt_ok, stmts_ok, unary_ok,
};

verus! {

/// The local variable that an instruction reads or writes.
pub open spec fn touches(i: InsnView) -> Option<u8> {
    match i {
        Instruction::ILoad(x) => Some(x),
        Instruction::IStore(x) => Some(x),
        Instruction::ALoad(x) => Some(x),
        Instruction::AStore(x) => Some(x),
        Instruction::IInc(x, _) => Some(x),
        _ => None,
    }
}

/// The instruction touches a local variable that is neither held nor from `lo` to before `hi`.
pub open spec fn strays(held: Set<u8>, lo: nat, hi: nat) -> spec_fn(InsnView) -> bool {
    |i: InsnView|
        match touches(i) {
            Some(x) => !held.contains(x) && !(lo <= x < hi),
            None => false,
        }
}

/// The code touches only local variables that are held, and those from `lo` to before `hi`.
pub open spec fn stays(code: Seq<InsnView>, held: Set<u8>, lo: nat, hi: nat) -> bool {
    count(code, strays(held, lo, hi)) == 0
}

proof fn lemma_stays_grow(
    code: Seq<InsnView>,
    held: Set<u8>,
    lo: nat,
    hi: nat,
    held2: Set<u8>,
    lo2: nat,
    hi2: nat,
)
    requires
        stays(code, held, lo, hi),
        forall|x: u8| held.contains(x) || lo <= x < hi ==> #[trigger] held2.contains(x) || lo2 <= x
            < hi2,
    ensures
        stays(code, held2, lo2, hi2),
{
    lemma_count_fewer(code, strays(held2, lo2, hi2), strays(held, lo, hi));
}

// ---------------------------------------------------------------------------------------------
// Trees that use declared variables only
// ---------------------------------------------------------------------------------------------

/// A variable that a tree may use where it stands.
pub open spec fn in_reach(live: Set<usize>, var: Var) -> bool {
    match var {
        Var::VarDef(v) => live.contains(v),
        Var::VarAssign(v) => live.contains(v),
    }
}

/// Every local variable in the expression is among the live ones, and `this` is there if it is
/// used.
pub open spec fn expr_scoped(env: Env, e: Expr, live: Set<usize>, this: bool) -> bool
    decreases e, 0nat,
{
    match e.kind {
        ExprKind::Identifier(i) => identifier_scoped(env, i, false, live, this),
        ExprKind::Indexed(i) => indexed_scoped(env, i, live, this),
        ExprKind::Const(_) => true,
        ExprKind::Call(c) => call_scoped(env, c, live, this),
        ExprKind::Unary(u) => unary_scoped(env, u, live, this),
        ExprKind::Binary(b) => expr_scoped(env, *b.l, live, this) && expr_scoped(
            env,
            *b.r,
            live,
            this,
        ),
        ExprKind::This => this,
        ExprKind::NewClass(_) => true,
        ExprKind::NewArray(n) => expr_scoped(env, *n.len, live, this),
        ExprKind::TypeCast(t) => expr_scoped(env, *t.expr, live, this),
        ExprKind::TypeTest(t) => expr_scoped(env, *t.expr, live, this),
        ExprKind::Default(d) => expr_scoped(env, *d.arr, live, this) && expr_scoped(
            env,
            *d.idx,
            live,
            this,
        ) && expr_scoped(env, *d.dft, live, this),
    }
}

pub open spec fn owner_scoped(
    env: Env,
    owner: Option<Box<Expr>>,
    live: Set<usize>,
    this: bool,
) -> bool
    decreases owner, 0nat,
{
    match owner {
        Some(e) => expr_scoped(env, *e, live, this),
        None => true,
    }
}

pub open spec fn identifier_scoped(
    env: Env,
    i: Identifier,
    for_assign: bool,
    live: Set<usize>,
    this: bool,
) -> bool
    decreases i, 0nat,
{
    if for_assign || env.field_of(i.symbol) is Some {
        owner_scoped(env, i.owner, live, this)
    } else {
        in_reach(live, i.symbol)
    }
}

pub open spec fn indexed_scoped(env: Env, i: Indexed, live: Set<usize>, this: bool) -> bool
    decreases i, 0nat,
{
    expr_scoped(env, *i.arr, live, this) && expr_scoped(env, *i.idx, live, this)
}

pub open spec fn exprs_scoped(
    env: Env,
    es: Seq<Expr>,
    n: nat,
    live: Set<usize>,
    this: bool,
) -> bool
    decreases es, n,
{
    n == 0 || n > es.len() || (exprs_scoped(env, es, (n - 1) as nat, live, this) && expr_scoped(
        env,
        es[n - 1],
        live,
        this,
    ))
}

pub open spec fn call_scoped(env: Env, c: Call, live: Set<usize>, this: bool) -> bool
    decreases c, 0nat,
{
    owner_scoped(env, c.owner, live, this) && (c.is_arr_len || exprs_scoped(
        env,
        c.arg@,
        c.arg@.len(),
        live,
        this,
    ))
}

pub open spec fn unary_scoped(env: Env, u: Unary, live: Set<usize>, this: bool) -> bool
    decreases u, 0nat,
{
    if u.op is Neg || u.op is Not {
        expr_scoped(env, *u.r, live, this)
    } else {
        counter_scoped(env, *u.r, live, this)
    }
}

pub open spec fn counter_scoped(env: Env, e: Expr, live: Set<usize>, this: bool) -> bool
    decreases e, 1nat,
{
    match e.kind {
        ExprKind::Identifier(i) => identifier_scoped(env, i, false, live, this),
        ExprKind::Indexed(i) => indexed_scoped(env, i, live, this),
        _ => true,
    }
}

pub open spec fn place_scoped(env: Env, e: Expr, live: Set<usize>, this: bool) -> bool {
    match e.kind {
        ExprKind::Identifier(i) => identifier_scoped(env, i, true, live, this) && (env.field_of(
            i.symbol,
        ) is None ==> in_reach(live, i.symbol)),
        ExprKind::Indexed(i) => indexed_scoped(env, i, live, this),
        _ => true,
    }
}

/// The variables that a statement declares.
pub open spec fn simple_decl(s: Simple) -> Set<usize> {
    match s {
        Simple::VarAssign(v) => Set::empty().insert(v.var),
        _ => Set::empty(),
    }
}

pub open spec fn stmt_decl(s: Stmt) -> Set<usize>
    decreases s, 0nat,
{
    match s {
        Stmt::Simple(s) => simple_decl(s),
        Stmt::If(i) => match i.on_false {
            Some(b) => block_decl(i.on_true) + block_decl(b),
            None => block_decl(i.on_true),
        },
        Stmt::While(w) => block_decl(w.body),
        Stmt::For(f) => simple_decl(f.init) + block_decl(f.body) + simple_decl(f.update),
        Stmt::Foreach(f) => block_decl(f.body).insert(f.def),
        Stmt::Guarded(g) => guards_decl(g.guarded@, g.guarded@.len()),
        Stmt::Block(b) => block_decl(b),
        _ => Set::empty(),
    }
}

pub open spec fn block_decl(b: Block) -> Set<usize>
    decreases b, 0nat,
{
    stmts_decl(b.stmt@, b.stmt@.len())
}

pub open spec fn stmts_decl(ss: Seq<Stmt>, n: nat) -> Set<usize>
    decreases ss, n,
{
    if n == 0 || n > ss.len() {
        Set::empty()
    } else {
        stmts_decl(ss, (n - 1) as nat) + stmt_decl(ss[n - 1])
    }
}

pub open spec fn guards_decl(gs: Seq<(Expr, Block)>, n: nat) -> Set<usize>
    decreases gs, n,
{
    if n == 0 || n > gs.len() {
        Set::empty()
    } else {
        guards_decl(gs, (n - 1) as nat) + block_decl(gs[n - 1].1)
    }
}

pub open spec fn simple_scoped(env: Env, s: Simple, live: Set<usize>, this: bool) -> bool {
    match s {
        Simple::Assign(a) => place_scoped(env, a.dst, live, this) && expr_scoped(
            env,
            a.src,
            live,
            this,
        ),
        Simple::VarAssign(v) => !live.contains(v.var) && match v.src {
            Some(e) => expr_scoped(env, e, live.insert(v.var), this),
            None => true,
        },
        Simple::Expr(e) => expr_scoped(env, e, live, this),
        Simple::Skip => true,
    }
}

/// Every variable is declared once, and before it is used.
pub open spec fn stmt_scoped(env: Env, s: Stmt, live: Set<usize>, this: bool) -> bool
    decreases s, 0nat,
{
    match s {
        Stmt::Simple(s) => simple_scoped(env, s, live, this),
        Stmt::If(i) => expr_scoped(env, i.cond, live, this) && block_scoped(
            env,
            i.on_true,
            live,
            this,
        ) && match i.on_false {
            Some(b) => block_scoped(env, b, live + block_decl(i.on_true), this),
            None => true,
        },
        Stmt::While(w) => expr_scoped(env, w.cond, live, this) && block_scoped(
            env,
            w.body,
            live,
            this,
        ),
        Stmt::For(f) => {
            let inner = live + simple_decl(f.init);
            simple_scoped(env, f.init, live, this) && expr_scoped(env, f.cond, inner, this)
                && block_scoped(env, f.body, inner, this) && simple_scoped(
                env,
                f.update,
                inner + block_decl(f.body),
                this,
            )
        },
        Stmt::Return(r) => match r.expr {
            Some(e) => expr_scoped(env, e, live, this),
            None => true,
        },
        Stmt::Print(p) => exprs_scoped(env, p.print@, p.print@.len(), live, this),
        Stmt::Break => true,
        Stmt::SCopy(c) => expr_scoped(env, c.src, live, this) && in_reach(live, c.dst_sym),
        Stmt::Foreach(f) => foreach_scoped(env, f, live, this),
        Stmt::Guarded(g) => guards_scoped(env, g.guarded@, g.guarded@.len(), live, this),
        Stmt::Block(b) => block_scoped(env, b, live, this),
    }
}

/// The loop variable is a local variable of its own.
pub open spec fn foreach_scoped(env: Env, f: Foreach, live: Set<usize>, this: bool) -> bool
    decreases f, 0nat,
{
    let inner = live.insert(f.def);
    !env.is_field(f.def) && !live.contains(f.def) && expr_scoped(env, f.arr, inner, this)
        && match f.cond {
        Some(e) => expr_scoped(env, e, inner, this),
        None => true,
    } && block_scoped(env, f.body, inner, this)
}

pub open spec fn block_scoped(env: Env, b: Block, live: Set<usize>, this: bool) -> bool
    decreases b, 0nat,
{
    stmts_scoped(env, b.stmt@, b.stmt@.len(), live, this)
}

pub open spec fn stmts_scoped(
    env: Env,
    ss: Seq<Stmt>,
    n: nat,
    live: Set<usize>,
    this: bool,
) -> bool
    decreases ss, n,
{
    n == 0 || n > ss.len() || {
        let m = (n - 1) as nat;
        stmts_scoped(env, ss, m, live, this) && stmt_scoped(
            env,
            ss[n - 1],
            live + stmts_decl(ss, m),
            this,
        )
    }
}

pub open spec fn guards_scoped(
    env: Env,
    gs: Seq<(Expr, Block)>,
    n: nat,
    live: Set<usize>,
    this: bool,
) -> bool
    decreases gs, n,
{
    n == 0 || n > gs.len() || {
        let m = (n - 1) as nat;
        let here = live + guards_decl(gs, m);
        guards_scoped(env, gs, m, live, this) && expr_scoped(env, gs[n - 1].0, here, this)
            && block_scoped(env, gs[n - 1].1, here, this)
    }
}

// ---------------------------------------------------------------------------------------------
// Expressions
// ---------------------------------------------------------------------------------------------

/// The local variables of all live variables are held, and that of `this` where it is used.
pub open spec fn holds(held: Set<u8>, live: Set<usize>, this: bool, slots: Seq<u8>) -> bool {
    &&& forall|v: usize| #[trigger] live.contains(v) ==> held.contains(slots[v as int])
    &&& this ==> held.contains(0u8)
}

/// An expression touches only the local variables of the live variables and those that it takes.
pub proof fn law_expr_locals(
    env: Env,
    e: Expr,
    p: Pos,
    live: Set<usize>,
    this: bool,
    held: Set<u8>,
)
    requires
        expr_ok(env, e),
        expr_scoped(env, e, live, this),
        holds(held, live, this, p.slots),
        p.local + expr_locals(env, e) <= u8::MAX,
    ensures
        stays(expr_code(env, e, p), held, p.local, p.local + expr_locals(env, e)),
    decreases e, 0nat,
{
    broadcast use group_count;

    match e.kind {
        ExprKind::Identifier(i) => {
            lemma_identifier(env, i, false, p, live, this, held);
        },
        ExprKind::Indexed(i) => {
            lemma_indexed(env, i, e.type_, false, p, live, this, held);
        },
        ExprKind::Const(_) => {},
        ExprKind::Call(c) => {
            lemma_call(env, c, p, live, this, held);
        },
        ExprKind::Unary(u) => {
            lemma_unary(env, u, p, live, this, held);
        },
        ExprKind::Binary(b) => {
            lemma_binary(env, b, p, live, this, held);
        },
        ExprKind::This => {},
        ExprKind::NewClass(_) => {},
        ExprKind::NewArray(n) => {
            law_expr_locals(env, *n.len, p, live, this, held);
        },
        ExprKind::TypeCast(t) => {
            law_expr_locals(env, *t.expr, p, live, this, held);
        },
        ExprKind::TypeTest(t) => {
            law_expr_locals(env, *t.expr, p, live, this, held);
        },
        ExprKind::Default(d) => {
            lemma_default(env, d, e.type_, p, live, this, held);
        },
    }
}

/// An expression that starts further on, seen from where the whole of it starts.
proof fn lemma_part(
    env: Env,
    e: Expr,
    p: Pos,
    live: Set<usize>,
    this: bool,
    held: Set<u8>,
    lo: nat,
    hi: nat,
)
    requires
        expr_ok(env, e),
        expr_scoped(env, e, live, this),
        holds(held, live, this, p.slots),
        lo <= p.local,
        p.local + expr_locals(env, e) <= hi <= u8::MAX,
    ensures
        stays(expr_code(env, e, p), held, lo, hi),
    decreases e, 1nat,
{
    law_expr_locals(env, e, p, live, this, held);
    lemma_stays_grow(
        expr_code(env, e, p),
        held,
        p.local,
        p.local + expr_locals(env, e),
        held,
        lo,
        hi,
    );
}

proof fn lemma_owner(
    env: Env,
    owner: Option<Box<Expr>>,
    p: Pos,
    live: Set<usize>,
    this: bool,
    held: Set<u8>,
)
    requires
        owner_ok(env, owner),
        owner_scoped(env, owner, live, this),
        holds(held, live, this, p.slots),
        p.local + owner_locals(env, owner) <= u8::MAX,
    ensures
        stays(owner_code(env, owner, p), held, p.local, p.local + owner_locals(env, owner)),
    decreases owner, 0nat,
{
    broadcast use group_count;

    if let Some(e) = owner {
        law_expr_locals(env, *e, p, live, this, held);
    }
}

proof fn lemma_identifier(
    env: Env,
    i: Identifier,
    for_assign: bool,
    p: Pos,
    live: Set<usize>,
    this: bool,
    held: Set<u8>,
)
    requires
        identifier_ok(env, i, for_assign),
        identifier_scoped(env, i, for_assign, live, this),
        holds(held, live, this, p.slots),
        p.local + identifier_locals(env, i, for_assign) <= u8::MAX,
    ensures
        stays(
            identifier_code(env, i, for_assign, p),
            held,
            p.local,
            p.local + identifier_locals(env, i, for_assign),
        ),
    decreases i, 0nat,
{
    broadcast use group_count;

    if for_assign || env.field_of(i.symbol) is Some {
        lemma_owner(env, i.owner, p, live, this, held);
    }
}

proof fn lemma_indexed(
    env: Env,
    i: Indexed,
    t: SemanticType,
    for_assign: bool,
    p: Pos,
    live: Set<usize>,
    this: bool,
    held: Set<u8>,
)
    requires
        indexed_ok(env, i),
        indexed_scoped(env, i, live, this),
        holds(held, live, this, p.slots),
        p.local + expr_locals(env, *i.arr) + expr_locals(env, *i.idx) <= u8::MAX,
    ensures
        stays(
            indexed_code(env, i, t, for_assign, p),
            held,
            p.local,
            p.local + expr_locals(env, *i.arr) + expr_locals(env, *i.idx),
        ),
    decreases i, 0nat,
{
    broadcast use group_count;

    let hi = p.local + expr_locals(env, *i.arr) + expr_locals(env, *i.idx);
    lemma_part(env, *i.arr, p, live, this, held, p.local, hi);
    lemma_part(env, *i.idx, p.past(env, *i.arr), live, this, held, p.local, hi);
}

proof fn lemma_exprs(
    env: Env,
    es: Seq<Expr>,
    n: nat,
    p: Pos,
    live: Set<usize>,
    this: bool,
    held: Set<u8>,
    hi: nat,
)
    requires
        n <= es.len(),
        exprs_ok(env, es, n),
        exprs_scoped(env, es, n, live, this),
        holds(held, live, this, p.slots),
        p.local + exprs_locals(env, es, n) <= hi <= u8::MAX,
    ensures
        stays(exprs_code(env, es, n, p), held, p.local, hi),
    decreases es, n,
{
    broadcast use group_count;

    if n > 0 {
        let m = (n - 1) as nat;
        lemma_exprs(env, es, m, p, live, this, held, hi);
        lemma_part(
            env,
            es[n - 1],
            exprs_end(env, es, m, p),
            live,
            this,
            held,
            p.local,
            hi,
        );
    }
}

proof fn lemma_call(env: Env, c: Call, p: Pos, live: Set<usize>, this: bool, held: Set<u8>)
    requires
        call_ok(env, c),
        call_scoped(env, c, live, this),
        holds(held, live, this, p.slots),
        p.local + call_locals(env, c) <= u8::MAX,
    ensures
        stays(call_code(env, c, p), held, p.local, p.local + call_locals(env, c)),
    decreases c, 0nat,
{
    broadcast use group_count;

    let hi = p.local + call_locals(env, c);
    lemma_owner(env, c.owner, p, live, this, held);
    if !c.is_arr_len {
        let q = owner_end(env, c.owner, p);
        let n = c.arg@.len();
        lemma_stays_grow(
            owner_code(env, c.owner, p),
            held,
            p.local,
            q.local,
            held,
            p.local,
            hi,
        );
        lemma_exprs(env, c.arg@, n, q, live, this, held, hi);
        lemma_stays_grow(
            exprs_code(env, c.arg@, n, q),
            held,
            q.local,
            hi,
            held,
            p.local,
            hi,
        );
    }
}

proof fn lemma_counter(
    env: Env,
    e: Expr,
    val: i32,
    p: Pos,
    live: Set<usize>,
    this: bool,
    held: Set<u8>,
)
    requires
        counter_ok(env, e),
        counter_scoped(env, e, live, this),
        holds(held, live, this, p.slots),
        p.local + counter_locals(env, e) <= u8::MAX,
    ensures
        stays(pre_inc_code(env, e, val, p), held, p.local, p.local + counter_locals(env, e)),
        stays(post_inc_code(env, e, val, p), held, p.local, p.local + counter_locals(env, e)),
    decreases e, 1nat,
{
    broadcast use group_count;

    match e.kind {
        ExprKind::Identifier(i) => {
            assert(identifier_scoped(env, i, false, live, this));
            if env.field_of(i.symbol) is Some {
                assert(identifier_locals(env, i, false) == owner_locals(env, i.owner));
                lemma_owner(env, i.owner, p, live, this, held);
            }
        },
        ExprKind::Indexed(i) => {
            lemma_indexed(env, i, e.type_, true, p, live, this, held);
        },
        _ => {},
    }
}

proof fn lemma_unary(env: Env, u: Unary, p: Pos, live: Set<usize>, this: bool, held: Set<u8>)
    requires
        unary_ok(env, u),
        unary_scoped(env, u, live, this),
        holds(held, live, this, p.slots),
        p.local + unary_locals(env, u) <= u8::MAX,
    ensures
        stays(unary_code(env, u, p), held, p.local, p.local + unary_locals(env, u)),
    decreases u, 0nat,
{
    broadcast use group_count;

    if u.op is Neg {
        law_expr_locals(env, *u.r, p, live, this, held);
    } else if u.op is Not {
        law_expr_locals(env, *u.r, p.step(2, 0), live, this, held);
    } else {
        lemma_counter(env, *u.r, 1, p, live, this, held);
        lemma_counter(env, *u.r, (-1) as i32, p, live, this, held);
    }
}

proof fn lemma_binary(env: Env, b: Binary, p: Pos, live: Set<usize>, this: bool, held: Set<u8>)
    requires
        binary_ok(env, b),
        expr_scoped(env, *b.l, live, this),
        expr_scoped(env, *b.r, live, this),
        holds(held, live, this, p.slots),
        p.local + binary_locals(env, b) <= u8::MAX,
    ensures
        stays(binary_code(env, b, p), held, p.local, p.local + binary_locals(env, b)),
    decreases b, 0nat,
{
    broadcast use group_count;

    let hi = p.local + binary_locals(env, b);
    let q = if b.op is Repeat {
        p.step(2, 3)
    } else if b.op is And || b.op is Or {
        p.step(2, 0)
    } else {
        p
    };
    lemma_part(env, *b.l, q, live, this, held, p.local, hi);
    lemma_part(env, *b.r, q.past(env, *b.l), live, this, held, p.local, hi);
}

proof fn lemma_default(
    env: Env,
    d: DefaultIndexed,
    t: SemanticType,
    p: Pos,
    live: Set<usize>,
    this: bool,
    held: Set<u8>,
)
    requires
        default_ok(env, d),
        expr_scoped(env, *d.arr, live, this),
        expr_scoped(env, *d.idx, live, this),
        expr_scoped(env, *d.dft, live, this),
        holds(held, live, this, p.slots),
        p.local + default_locals(env, d) <= u8::MAX,
    ensures
        stays(default_code(env, d, t, p), held, p.local, p.local + default_locals(env, d)),
    decreases d, 0nat,
{
    broadcast use group_count;

    let hi = p.local + default_locals(env, d);
    let q = p.step(2, 1);
    let r = q.past(env, *d.arr);
    lemma_part(env, *d.arr, q, live, this, held, p.local, hi);
    lemma_part(env, *d.idx, r, live, this, held, p.local, hi);
    lemma_part(env, *d.dft, r.past(env, *d.idx), live, this, held, p.local, hi);
}

// ---------------------------------------------------------------------------------------------
// Statements
// ---------------------------------------------------------------------------------------------

/// The local variable of every live variable is held, or is one from `lo` on that is taken.
pub open spec fn kept(held: Set<u8>, lo: nat, live: Set<usize>, this: bool, p: Pos) -> bool {
    &&& forall|v: usize| #[trigger]
        live.contains(v) ==> v < p.slots.len() && (held.contains(p.slots[v as int]) || lo
            <= p.slots[v as int] < p.local)
    &&& this ==> held.contains(0u8)
}

/// From the position `p` on, each variable of `decl` gets a local variable of its own, below `hi`,
/// and all others stay where they are.
pub open spec fn settled(decl: Set<usize>, p: Pos, slots: Seq<u8>, hi: nat) -> bool {
    &&& slots.len() == p.slots.len()
    &&& forall|v: usize|
        v < slots.len() && !(#[trigger] decl.contains(v)) ==> slots[v as int] == p.slots[v as int]
    &&& forall|v: usize| #[trigger]
        decl.contains(v) ==> v < slots.len() && p.local <= slots[v as int] < hi
    &&& forall|v: usize, w: usize|
        #![trigger decl.contains(v), decl.contains(w)]
        decl.contains(v) && decl.contains(w) && v != w ==> slots[v as int] != slots[w as int]
}

/// None of the variables is live.
pub open spec fn fresh(decl: Set<usize>, live: Set<usize>) -> bool {
    forall|v: usize| #[trigger] decl.contains(v) ==> !live.contains(v)
}

proof fn lemma_then(
    held: Set<u8>,
    lo: nat,
    live: Set<usize>,
    this: bool,
    p: Pos,
    decl: Set<usize>,
    q: Pos,
)
    requires
        kept(held, lo, live, this, p),
        settled(decl, p, q.slots, q.local),
        fresh(decl, live),
        lo <= p.local <= q.local,
    ensures
        kept(held, lo, live + decl, this, q),
{
    assert forall|v: usize| #[trigger] (live + decl).contains(v) implies v < q.slots.len() && (
    held.contains(q.slots[v as int]) || lo <= q.slots[v as int] < q.local) by {
        assert(decl.contains(v) || live.contains(v));
    }
}

/// Two parts one after the other.
proof fn lemma_both(
    d1: Set<usize>,
    p: Pos,
    mid: Pos,
    d2: Set<usize>,
    q: Pos,
    slots: Seq<u8>,
    hi: nat,
)
    requires
        settled(d1, p, mid.slots, mid.local),
        settled(d2, q, slots, hi),
        fresh(d2, d1),
        q.slots == mid.slots,
        p.local <= mid.local <= q.local <= hi,
    ensures
        settled(d1 + d2, p, slots, hi),
{
    let d = d1 + d2;
    assert forall|v: usize| v < slots.len() && !(#[trigger] d.contains(v)) implies slots[v as int]
        == p.slots[v as int] by {
        assert(!d1.contains(v) && !d2.contains(v));
    }
    assert forall|v: usize| #[trigger] d.contains(v) implies v < slots.len() && p.local
        <= slots[v as int] < hi by {
        if !d2.contains(v) {
            assert(d1.contains(v));
        }
    }
    assert forall|v: usize, w: usize|
        #![trigger d.contains(v), d.contains(w)]
        d.contains(v) && d.contains(w) && v != w implies slots[v as int] != slots[w as int] by {
        if !d2.contains(v) {
            assert(d1.contains(v));
        }
        if !d2.contains(w) {
            assert(d1.contains(w));
        }
    }
}

proof fn lemma_expr_from(
    env: Env,
    e: Expr,
    p: Pos,
    live: Set<usize>,
    this: bool,
    held: Set<u8>,
    lo: nat,
    hi: nat,
)
    requires
        expr_ok(env, e),
        expr_scoped(env, e, live, this),
        kept(held, lo, live, this, p),
        lo <= p.local,
        p.local + expr_locals(env, e) <= hi <= u8::MAX,
    ensures
        stays(expr_code(env, e, p), held, lo, hi),
{
    let wide = Set::new(|x: u8| held.contains(x) || lo <= x < p.local);
    law_expr_locals(env, e, p, live, this, wide);
    lemma_stays_grow(
        expr_code(env, e, p),
        wide,
        p.local,
        p.local + expr_locals(env, e),
        held,
        lo,
        hi,
    );
}

proof fn lemma_place_from(
    env: Env,
    a: Assign,
    p: Pos,
    live: Set<usize>,
    this: bool,
    held: Set<u8>,
    lo: nat,
    hi: nat,
)
    requires
        assign_ok(env, a),
        place_scoped(env, a.dst, live, this),
        kept(held, lo, live, this, p),
        lo <= p.local,
        p.local + place_locals(env, a.dst) <= hi <= u8::MAX,
    ensures
        stays(place_code(env, a.dst, p), held, lo, hi),
{
    broadcast use group_count;

    let wide = Set::new(|x: u8| held.contains(x) || lo <= x < p.local);
    match a.dst.kind {
        ExprKind::Identifier(i) => {
            lemma_identifier(env, i, true, p, live, this, wide);
        },
        ExprKind::Indexed(i) => {
            lemma_indexed(env, i, a.dst.type_, true, p, live, this, wide);
        },
        _ => {},
    }
    lemma_stays_grow(
        place_code(env, a.dst, p),
        wide,
        p.local,
        p.local + place_locals(env, a.dst),
        held,
        lo,
        hi,
    );
}

proof fn lemma_simple(
    env: Env,
    s: Simple,
    p: Pos,
    live: Set<usize>,
    this: bool,
    held: Set<u8>,
    lo: nat,
    hi: nat,
)
    requires
        simple_ok(env, s),
        simple_scoped(env, s, live, this),
        kept(held, lo, live, this, p),
        p.slots.len() == env.vars.len(),
        lo <= p.local,
        p.local + simple_locals(env, s) <= hi <= u8::MAX,
    ensures
        stays(simple_code(env, s, p), held, lo, hi),
        settled(simple_decl(s), p, simple_slots(s, p), p.local + simple_locals(env, s)),
        fresh(simple_decl(s), live),
{
    broadcast use group_count;

    match s {
        Simple::Assign(a) => {
            lemma_place_from(env, a, p, live, this, held, lo, hi);
            lemma_expr_from(
                env,
                a.src,
                p.step(place_labels(env, a.dst), place_locals(env, a.dst)),
                live,
                this,
                held,
                lo,
                hi,
            );
        },
        Simple::VarAssign(v) => {
            if let Some(e) = v.src {
                lemma_expr_from(
                    env,
                    e,
                    p.bind(v.var, p.slot(0)).step(0, 1),
                    live.insert(v.var),
                    this,
                    held,
                    lo,
                    hi,
                );
            }
        },
        Simple::Expr(e) => {
            lemma_expr_from(env, e, p, live, this, held, lo, hi);
        },
        Simple::Skip => {},
    }
}

/// A statement touches only local variables that are held and those from `lo` to before `hi`;
/// the variables that it declares get new local variables.
pub proof fn law_stmt_locals(
    env: Env,
    s: Stmt,
    in_loop: bool,
    brk: u16,
    p: Pos,
    live: Set<usize>,
    this: bool,
    held: Set<u8>,
    lo: nat,
    hi: nat,
)
    requires
        stmt_ok(env, s, in_loop),
        stmt_scoped(env, s, live, this),
        kept(held, lo, live, this, p),
        p.slots.len() == env.vars.len(),
        lo <= p.local,
        p.local + stmt_locals(env, s) <= hi <= u8::MAX,
    ensures
        stays(stmt_code(env, s, brk, p), held, lo, hi),
        settled(stmt_decl(s), p, stmt_slots(env, s, p), p.local + stmt_locals(env, s)),
        fresh(stmt_decl(s), live),
    decreases s, 0nat,
{
    broadcast use group_count;

    match s {
        Stmt::Simple(x) => {
            lemma_simple(env, x, p, live, this, held, lo, hi);
        },
        Stmt::If(x) => {
            lemma_if(env, x, in_loop, brk, p, live, this, held, lo, hi);
        },
        Stmt::While(x) => {
            let q = p.step(2, 0);
            lemma_expr_from(env, x.cond, q, live, this, held, lo, hi);
            lemma_block(
                env,
                x.body,
                true,
                p.at(1),
                q.past(env, x.cond),
                live,
                this,
                held,
                lo,
                hi,
            );
            assert(stmt_code(env, s, brk, p) == while_code(env, x, p));
        },
        Stmt::For(x) => {
            lemma_for(env, x, p, live, this, held, lo, hi);
        },
        Stmt::Return(r) => {
            if let Some(e) = r.expr {
                lemma_expr_from(env, e, p, live, this, held, lo, hi);
            }
        },
        Stmt::Print(x) => {
            lemma_print(env, x.print@, x.print@.len(), p, live, this, held, lo, hi);
        },
        Stmt::Break => {},
        Stmt::SCopy(c) => {
            let class = env.classes[c.src.type_->Object_0 as int];
            lemma_expr_from(env, c.src, p.step(0, 2), live, this, held, lo, hi);
            lemma_copy(
                env,
                class.name@,
                class.field@,
                class.field@.len(),
                p.slot(0),
                p.slot(1),
                held,
                lo,
                hi,
            );
        },
        Stmt::Foreach(x) => {
            lemma_foreach(env, x, p, live, this, held, lo, hi);
        },
        Stmt::Guarded(g) => {
            lemma_guards(
                env,
                g.guarded@,
                g.guarded@.len(),
                in_loop,
                brk,
                p,
                live,
                this,
                held,
                lo,
                hi,
            );
        },
        Stmt::Block(b) => {
            lemma_block(env, b, in_loop, brk, p, live, this, held, lo, hi);
        },
    }
}

proof fn lemma_if(
    env: Env,
    x: If,
    in_loop: bool,
    brk: u16,
    p: Pos,
    live: Set<usize>,
    this: bool,
    held: Set<u8>,
    lo: nat,
    hi: nat,
)
    requires
        stmt_ok(env, Stmt::If(x), in_loop),
        stmt_scoped(env, Stmt::If(x), live, this),
        kept(held, lo, live, this, p),
        p.slots.len() == env.vars.len(),
        lo <= p.local,
        p.local + stmt_locals(env, Stmt::If(x)) <= hi <= u8::MAX,
    ensures
        stays(if_code(env, x, brk, p), held, lo, hi),
        settled(
            stmt_decl(Stmt::If(x)),
            p,
            stmt_slots(env, Stmt::If(x), p),
            p.local + stmt_locals(env, Stmt::If(x)),
        ),
        fresh(stmt_decl(Stmt::If(x)), live),
    decreases x, 0nat,
{
    broadcast use group_count;

    let q = p.step(2, 0).past(env, x.cond);
    lemma_expr_from(env, x.cond, p.step(2, 0), live, this, held, lo, hi);
    lemma_block(env, x.on_true, in_loop, brk, q, live, this, held, lo, hi);
    if let Some(b) = x.on_false {
        let r = block_end(env, x.on_true, q);
        let d = block_decl(x.on_true);
        lemma_then(held, lo, live, this, q, d, r);
        lemma_block(env, b, in_loop, brk, r, live + d, this, held, lo, hi);
        lemma_both(
            d,
            q,
            r,
            block_decl(b),
            r,
            block_slots(env, b, r),
            r.local + block_locals(env, b),
        );
    }
}

proof fn lemma_for(
    env: Env,
    x: For,
    p: Pos,
    live: Set<usize>,
    this: bool,
    held: Set<u8>,
    lo: nat,
    hi: nat,
)
    requires
        stmt_ok(env, Stmt::For(x), false),
        stmt_scoped(env, Stmt::For(x), live, this),
        kept(held, lo, live, this, p),
        p.slots.len() == env.vars.len(),
        lo <= p.local,
        p.local + stmt_locals(env, Stmt::For(x)) <= hi <= u8::MAX,
    ensures
        stays(for_code(env, x, p), held, lo, hi),
        settled(
            stmt_decl(Stmt::For(x)),
            p,
            stmt_slots(env, Stmt::For(x), p),
            p.local + stmt_locals(env, Stmt::For(x)),
        ),
        fresh(stmt_decl(Stmt::For(x)), live),
    decreases x, 0nat,
{
    broadcast use group_count;

    let q = p.step(2, 0);
    let r = simple_end(env, x.init, q);
    let t = r.past(env, x.cond);
    let u = block_end(env, x.body, t);
    let (d1, d2, d3) = (simple_decl(x.init), block_decl(x.body), simple_decl(x.update));
    lemma_simple(env, x.init, q, live, this, held, lo, hi);
    lemma_then(held, lo, live, this, q, d1, r);
    lemma_expr_from(env, x.cond, r, live + d1, this, held, lo, hi);
    lemma_block(env, x.body, true, p.at(1), t, live + d1, this, held, lo, hi);
    lemma_then(held, lo, live + d1, this, t, d2, u);
    lemma_simple(env, x.update, u, live + d1 + d2, this, held, lo, hi);
    lemma_both(d1, q, r, d2, t, u.slots, u.local);
    lemma_both(
        d1 + d2,
        q,
        u,
        d3,
        u,
        simple_slots(x.update, u),
        u.local + simple_locals(env, x.update),
    );
}

proof fn lemma_block(
    env: Env,
    b: Block,
    in_loop: bool,
    brk: u16,
    p: Pos,
    live: Set<usize>,
    this: bool,
    held: Set<u8>,
    lo: nat,
    hi: nat,
)
    requires
        block_ok(env, b, in_loop),
        block_scoped(env, b, live, this),
        kept(held, lo, live, this, p),
        p.slots.len() == env.vars.len(),
        lo <= p.local,
        p.local + block_locals(env, b) <= hi <= u8::MAX,
    ensures
        stays(block_code(env, b, brk, p), held, lo, hi),
        settled(block_decl(b), p, block_slots(env, b, p), p.local + block_locals(env, b)),
        fresh(block_decl(b), live),
    decreases b, 0nat,
{
    lemma_stmts(env, b.stmt@, b.stmt@.len(), in_loop, brk, p, live, this, held, lo, hi);
}

proof fn lemma_stmts(
    env: Env,
    ss: Seq<Stmt>,
    n: nat,
    in_loop: bool,
    brk: u16,
    p: Pos,
    live: Set<usize>,
    this: bool,
    held: Set<u8>,
    lo: nat,
    hi: nat,
)
    requires
        n <= ss.len(),
        stmts_ok(env, ss, n, in_loop),
        stmts_scoped(env, ss, n, live, this),
        kept(held, lo, live, this, p),
        p.slots.len() == env.vars.len(),
        lo <= p.local,
        p.local + stmts_locals(env, ss, n) <= hi <= u8::MAX,
    ensures
        stays(stmts_code(env, ss, n, brk, p), held, lo, hi),
        settled(
            stmts_decl(ss, n),
            p,
            stmts_slots(env, ss, n, p),
            p.local + stmts_locals(env, ss, n),
        ),
        fresh(stmts_decl(ss, n), live),
    decreases ss, n,
{
    broadcast use group_count;

    if n > 0 {
        let m = (n - 1) as nat;
        let s = ss[n - 1];
        let q = stmts_end(env, ss, m, p);
        let d = stmts_decl(ss, m);
        lemma_stmts(env, ss, m, in_loop, brk, p, live, this, held, lo, hi);
        lemma_then(held, lo, live, this, p, d, q);
        law_stmt_locals(env, s, in_loop, brk, q, live + d, this, held, lo, hi);
        lemma_both(
            d,
            p,
            q,
            stmt_decl(s),
            q,
            stmt_slots(env, s, q),
            q.local + stmt_locals(env, s),
        );
    }
}

proof fn lemma_print(
    env: Env,
    es: Seq<Expr>,
    n: nat,
    p: Pos,
    live: Set<usize>,
    this: bool,
    held: Set<u8>,
    lo: nat,
    hi: nat,
)
    requires
        n <= es.len(),
        exprs_ok(env, es, n),
        exprs_scoped(env, es, n, live, this),
        kept(held, lo, live, this, p),
        lo <= p.local,
        p.local + exprs_locals(env, es, n) <= hi <= u8::MAX,
    ensures
        stays(print_code(env, es, n, p), held, lo, hi),
    decreases n,
{
    broadcast use group_count;

    if n > 0 {
        let m = (n - 1) as nat;
        lemma_print(env, es, m, p, live, this, held, lo, hi);
        lemma_expr_from(env, es[n - 1], exprs_end(env, es, m, p), live, this, held, lo, hi);
    }
}

proof fn lemma_copy(
    env: Env,
    class: Seq<char>,
    field: Seq<FieldDef>,
    n: nat,
    src: u8,
    dst: u8,
    held: Set<u8>,
    lo: nat,
    hi: nat,
)
    requires
        lo <= src < hi,
        lo <= dst < hi,
    ensures
        stays(copy_code(env, class, field, n, src, dst), held, lo, hi),
    decreases n,
{
    broadcast use group_count;

    if 0 < n <= field.len() {
        lemma_copy(env, class, field, (n - 1) as nat, src, dst, held, lo, hi);
    }
}

proof fn lemma_foreach(
    env: Env,
    x: Foreach,
    p: Pos,
    live: Set<usize>,
    this: bool,
    held: Set<u8>,
    lo: nat,
    hi: nat,
)
    requires
        foreach_ok(env, x),
        foreach_scoped(env, x, live, this),
        kept(held, lo, live, this, p),
        p.slots.len() == env.vars.len(),
        lo <= p.local,
        p.local + foreach_locals(env, x) <= hi <= u8::MAX,
    ensures
        stays(foreach_code(env, x, p), held, lo, hi),
        settled(
            block_decl(x.body).insert(x.def),
            p,
            block_slots(env, x.body, foreach_body(env, x, p)),
            p.local + foreach_locals(env, x),
        ),
        fresh(block_decl(x.body).insert(x.def), live),
    decreases x, 0nat,
{
    broadcast use group_count;

    let q = foreach_array(env, x, p);
    let r = q.past(env, x.arr);
    let s = foreach_body(env, x, p);
    let own = Set::<usize>::empty().insert(x.def);
    let inner = live.insert(x.def);
    lemma_then(held, lo, live, this, p, own, q);
    assert(live + own =~= inner);
    lemma_expr_from(env, x.arr, q, inner, this, held, lo, hi);
    if let Some(e) = x.cond {
        lemma_expr_from(env, e, foreach_cond(env, x, p), inner, this, held, lo, hi);
    }
    lemma_block(env, x.body, true, r.at(1), s, inner, this, held, lo, hi);
    lemma_both(
        own,
        p,
        q,
        block_decl(x.body),
        s,
        block_slots(env, x.body, s),
        s.local + block_locals(env, x.body),
    );
    assert(own + block_decl(x.body) =~= block_decl(x.body).insert(x.def));
}

proof fn lemma_guards(
    env: Env,
    gs: Seq<(Expr, Block)>,
    n: nat,
    in_loop: bool,
    brk: u16,
    p: Pos,
    live: Set<usize>,
    this: bool,
    held: Set<u8>,
    lo: nat,
    hi: nat,
)
    requires
        n <= gs.len(),
        guards_ok(env, gs, n, in_loop),
        guards_scoped(env, gs, n, live, this),
        kept(held, lo, live, this, p),
        p.slots.len() == env.vars.len(),
        lo <= p.local,
        p.local + guards_locals(env, gs, n) <= hi <= u8::MAX,
    ensures
        stays(guards_code(env, gs, n, brk, p), held, lo, hi),
        settled(
            guards_decl(gs, n),
            p,
            guards_slots(env, gs, n, p),
            p.local + guards_locals(env, gs, n),
        ),
        fresh(guards_decl(gs, n), live),
    decreases gs, n,
{
    broadcast use group_count;

    if n > 0 {
        let m = (n - 1) as nat;
        let d = guards_decl(gs, m);
        let q = guards_end(env, gs, m, p);
        let r = q.step(1, 0);
        let s = r.past(env, gs[n - 1].0);
        let b = gs[n - 1].1;
        lemma_guards(env, gs, m, in_loop, brk, p, live, this, held, lo, hi);
        lemma_then(held, lo, live, this, p, d, q);
        lemma_expr_from(env, gs[n - 1].0, r, live + d, this, held, lo, hi);
        lemma_block(env, b, in_loop, brk, s, live + d, this, held, lo, hi);
        lemma_both(
            d,
            p,
            q,
            block_decl(b),
            s,
            block_slots(env, b, s),
            s.local + block_locals(env, b),
        );
    }
}

// ---------------------------------------------------------------------------------------------
// Methods
// ---------------------------------------------------------------------------------------------

/// Every variable of the method is a local variable, declared once, as a parameter or in the body,
/// and before it is used; `this` is used only where the machine passes it.
pub open spec fn method_scoped(env: Env, m: MethodView, body: Block) -> bool {
    &&& m.param.no_duplicates()
    &&& forall|i: int| 0 <= i < m.param.len() ==> !env.is_field(#[trigger] m.param[i])
    &&& block_scoped(env, body, m.param.to_set(), !m.static_)
}

proof fn lemma_params(env: Env, param: Seq<usize>, n: nat, p: Pos)
    requires
        n <= param.len() <= u8::MAX,
        p.local == 0,
        param.no_duplicates(),
        forall|i: int|
            0 <= i < param.len() ==> #[trigger] param[i] < p.slots.len() && !env.is_field(param[i]),
    ensures
        params_end(env, param, n, p).local == n,
        params_end(env, param, n, p).slots.len() == p.slots.len(),
        forall|i: int|
            0 <= i < n ==> #[trigger] params_end(env, param, n, p).slots[param[i] as int] == i,
        forall|v: int|
            0 <= v < p.slots.len() && (forall|i: int| 0 <= i < n ==> param[i] != v)
                ==> #[trigger] params_end(env, param, n, p).slots[v] == p.slots[v],
    decreases n,
{
    if n > 0 {
        lemma_params(env, param, (n - 1) as nat, p);
        assert(!env.is_field(param[n - 1]));
    }
}

proof fn lemma_all_local(env: Env, param: Seq<usize>, n: nat)
    requires
        n <= param.len(),
        forall|i: int| 0 <= i < param.len() ==> !env.is_field(#[trigger] param[i]),
    ensures
        param_locals(env, param, n) == n,
    decreases n,
{
    if n > 0 {
        lemma_all_local(env, param, (n - 1) as nat);
        assert(!env.is_field(param[n - 1]));
    }
}

proof fn lemma_params_settled(env: Env, m: MethodView, slots: Seq<u8>)
    requires
        env.params_exist(m.param),
        m.param.no_duplicates(),
        forall|i: int| 0 <= i < m.param.len() ==> !env.is_field(#[trigger] m.param[i]),
        param_locals(env, m.param, m.param.len()) <= u8::MAX,
        slots.len() == env.vars.len(),
    ensures
        body_start(env, m.param, slots).local == m.param.len(),
        param_locals(env, m.param, m.param.len()) == m.param.len(),
        settled(
            m.param.to_set(),
            (Pos { label: 0, local: 0, slots }),
            body_start(env, m.param, slots).slots,
            m.param.len(),
        ),
        forall|i: int|
            0 <= i < m.param.len() ==> body_start(env, m.param, slots).slots[(
            #[trigger] m.param[i]) as int] == i,
{
    let set = m.param.to_set();
    let end = body_start(env, m.param, slots).slots;
    let start = Pos { label: 0, local: 0, slots };
    assert forall|i: int| 0 <= i < m.param.len() implies #[trigger] m.param[i] < slots.len()
        && !env.is_field(m.param[i]) by {
        assert(env.var_has_java_type(m.param[i]));
    }
    lemma_all_local(env, m.param, m.param.len());
    lemma_params(env, m.param, m.param.len(), start);
    assert forall|v: usize| v < end.len() && !(#[trigger] set.contains(v)) implies end[v as int]
        == slots[v as int] by {
        assert forall|i: int| 0 <= i < m.param.len() implies m.param[i] != v by {
            assert(m.param.contains(m.param[i]));
        }
    }
    assert forall|v: usize| #[trigger] set.contains(v) implies v < end.len() && 0 <= end[v as int]
        < m.param.len() by {
        let i = m.param.index_of(v);
        assert(m.param[i] == v);
    }
    assert forall|v: usize, w: usize|
        #![trigger set.contains(v), set.contains(w)]
        set.contains(v) && set.contains(w) && v != w implies end[v as int] != end[w as int] by {
        let (i, j) = (m.param.index_of(v), m.param.index_of(w));
        assert(m.param[i] == v && m.param[j] == w);
    }
}

proof fn lemma_method(env: Env, m: MethodView, body: Block, slots: Seq<u8>)
    requires
        body_ok(env, m, body),
        method_scoped(env, m, body),
        slots.len() == env.vars.len(),
    ensures
        stays(
            method_code(env, m, body, slots),
            Set::empty(),
            0,
            method_locals(env, m, body),
        ),
        settled(
            m.param.to_set() + block_decl(body),
            (Pos { label: 0, local: 0, slots }),
            block_end(env, body, body_start(env, m.param, slots)).slots,
            method_locals(env, m, body),
        ),
{
    broadcast use group_count;

    let start = Pos { label: 0, local: 0, slots };
    let p = body_start(env, m.param, slots);
    let hi = method_locals(env, m, body);
    let held = Set::<u8>::empty().insert(0u8);
    let live = m.param.to_set();
    lemma_params_settled(env, m, slots);
    if m.static_ {
        lemma_block(env, body, false, 0, p, live, false, Set::empty(), 0, hi);
    } else {
        lemma_block(env, body, false, 0, p, live, true, held, 0, hi);
        lemma_stays_grow(block_code(env, body, 0, p), held, 0, hi, Set::empty(), 0, hi);
    }
    lemma_both(live, start, p, block_decl(body), p, block_slots(env, body, p), hi);
}

/// Each local variable that a method touches is one that it counts.
pub proof fn law_method_locals(env: Env, m: MethodView, body: Block, slots: Seq<u8>, i: int)
    requires
        body_ok(env, m, body),
        method_scoped(env, m, body),
        slots.len() == env.vars.len(),
        0 <= i < method_code(env, m, body, slots).len(),
    ensures
        match touches(method_code(env, m, body, slots)[i]) {
            Some(x) => x < method_locals(env, m, body),
            None => true,
        },
{
    lemma_method(env, m, body, slots);
    lemma_count_none(
        method_code(env, m, body, slots),
        strays(Set::empty(), 0, method_locals(env, m, body)),
        i,
    );
}

/// The parameters of a method are held in its first local variables, in order.
pub proof fn law_param_locals(env: Env, m: MethodView, body: Block, slots: Seq<u8>, i: int)
    requires
        body_ok(env, m, body),
        method_scoped(env, m, body),
        slots.len() == env.vars.len(),
        0 <= i < m.param.len(),
    ensures
        block_end(env, body, body_start(env, m.param, slots)).slots[m.param[i] as int] == i,
{
    let p = body_start(env, m.param, slots);
    lemma_params_settled(env, m, slots);
    let hi = method_locals(env, m, body);
    let held = Set::<u8>::empty().insert(0u8);
    lemma_block(env, body, false, 0, p, m.param.to_set(), !m.static_, held, 0, hi);
    assert(m.param.to_set().contains(m.param[i]));
    assert(!block_decl(body).contains(m.param[i]));
}

/// No two variables of a method, parameters or declared in its body, share a local variable.
pub proof fn law_distinct_locals(
    env: Env,
    m: MethodView,
    body: Block,
    slots: Seq<u8>,
    v: usize,
    w: usize,
)
    requires
        body_ok(env, m, body),
        method_scoped(env, m, body),
        slots.len() == env.vars.len(),
        m.param.contains(v) || block_decl(body).contains(v),
        m.param.contains(w) || block_decl(body).contains(w),
        v != w,
    ensures
        block_end(env, body, body_start(env, m.param, slots)).slots[v as int] != block_end(
            env,
            body,
            body_start(env, m.param, slots),
        ).slots[w as int],
{
    lemma_method(env, m, body, slots);
    let all = m.param.to_set() + block_decl(body);
    assert(all.contains(v) && all.contains(w));
}

// ---------------------------------------------------------------------------------------------
// Programs
// ---------------------------------------------------------------------------------------------

/// The table of local variables has an entry for every variable, whatever is generated.
proof fn lemma_stmt_len(env: Env, s: Stmt, in_loop: bool, p: Pos)
    requires
        stmt_ok(env, s, in_loop),
        p.slots.len() == env.vars.len(),
    ensures
        stmt_slots(env, s, p).len() == env.vars.len(),
    decreases s, 0nat,
{
    match s {
        Stmt::If(x) => {
            let q = p.step(2, 0).past(env, x.cond);
            lemma_block_len(env, x.on_true, in_loop, q);
            if let Some(b) = x.on_false {
                lemma_block_len(env, b, in_loop, block_end(env, x.on_true, q));
            }
        },
        Stmt::While(x) => {
            lemma_block_len(env, x.body, true, p.step(2, 0).past(env, x.cond));
        },
        Stmt::For(x) => {
            lemma_block_len(
                env,
                x.body,
                true,
                simple_end(env, x.init, p.step(2, 0)).past(env, x.cond),
            );
        },
        Stmt::Foreach(x) => {
            assert(foreach_ok(env, x));
            lemma_block_len(env, x.body, true, foreach_body(env, x, p));
        },
        Stmt::Guarded(g) => {
            lemma_guards_len(env, g.guarded@, g.guarded@.len(), in_loop, p);
        },
        Stmt::Block(b) => {
            lemma_block_len(env, b, in_loop, p);
        },
        _ => {},
    }
}

pub proof fn lemma_block_len(env: Env, b: Block, in_loop: bool, p: Pos)
    requires
        block_ok(env, b, in_loop),
        p.slots.len() == env.vars.len(),
    ensures
        block_slots(env, b, p).len() == env.vars.len(),
    decreases b, 0nat,
{
    lemma_stmts_len(env, b.stmt@, b.stmt@.len(), in_loop, p);
}

pub proof fn lemma_stmts_len(env: Env, ss: Seq<Stmt>, n: nat, in_loop: bool, p: Pos)
    requires
        n <= ss.len(),
        stmts_ok(env, ss, n, in_loop),
        p.slots.len() == env.vars.len(),
    ensures
        stmts_slots(env, ss, n, p).len() == env.vars.len(),
    decreases ss, n,
{
    if n > 0 {
        let m = (n - 1) as nat;
        lemma_stmts_len(env, ss, m, in_loop, p);
        lemma_stmt_len(env, ss[n - 1], in_loop, stmts_end(env, ss, m, p));
    }
}

pub proof fn lemma_guards_len(env: Env, gs: Seq<(Expr, Block)>, n: nat, in_loop: bool, p: Pos)
    requires
        n <= gs.len(),
        guards_ok(env, gs, n, in_loop),
        p.slots.len() == env.vars.len(),
    ensures
        guards_slots(env, gs, n, p).len() == env.vars.len(),
    decreases gs, n,
{
    if n > 0 {
        let m = (n - 1) as nat;
        let q = guards_end(env, gs, m, p);
        lemma_guards_len(env, gs, m, in_loop, p);
        lemma_block_len(env, gs[n - 1].1, in_loop, q.step(1, 0).past(env, gs[n - 1].0));
    }
}

pub proof fn lemma_params_len(env: Env, param: Seq<usize>, n: nat, p: Pos)
    requires
        n <= param.len(),
        env.params_exist(param),
        p.slots.len() == env.vars.len(),
    ensures
        params_end(env, param, n, p).slots.len() == p.slots.len(),
    decreases n,
{
    if n > 0 {
        lemma_params_len(env, param, (n - 1) as nat, p);
        assert(env.var_has_java_type(param[n - 1]));
    }
}

proof fn lemma_fields_len(
    classes: Seq<ClassDef>,
    main: Option<usize>,
    fs: Seq<FieldDef>,
    n: nat,
    w: World,
)
    requires
        n <= fs.len(),
        fields_ok(classes, main, fs, n, w),
        w.slots.len() == w.vars.len(),
    ensures
        ({
            let v = fields_next(classes, main, fs, n, w);
            v.slots.len() == v.vars.len()
        }),
    decreases n,
{
    if n > 0 {
        let m = (n - 1) as nat;
        lemma_fields_len(classes, main, fs, m, w);
        if let FieldDef::MethodDef(d) = fs[n - 1] {
            let e = enter_method(main, fields_next(classes, main, fs, m, w), d.symbol);
            let param = e.methods[d.symbol as int].param;
            let start = Pos { label: 0, local: 0, slots: e.slots };
            lemma_params_len(e.env(classes), param, param.len(), start);
            lemma_block_len(
                e.env(classes),
                d.body,
                false,
                body_start(e.env(classes), param, e.slots),
            );
        }
    }
}

proof fn lemma_classes_len(classes: Seq<ClassDef>, main: Option<usize>, n: nat, w: World)
    requires
        n <= classes.len(),
        classes_ok(classes, main, n, w),
        w.slots.len() == w.vars.len(),
    ensures
        ({
            let v = classes_next(classes, main, n, w);
            v.slots.len() == v.vars.len()
        }),
    decreases n,
{
    if n > 0 {
        let m = (n - 1) as nat;
        let fs = classes[n - 1].field@;
        lemma_classes_len(classes, main, m, w);
        lemma_fields_len(classes, main, fs, fs.len(), classes_next(classes, main, m, w));
    }
}

/// Every method of the program uses its variables as it should when it is generated.
pub open spec fn program_scoped(p: Program) -> bool {
    forall|i: int, j: int|
        0 <= i < p.class@.len() && 0 <= j < p.class@[i].field@.len() ==> match (
        #[trigger] p.class@[i].field@[j]) {
            FieldDef::MethodDef(d) => {
                let e = enter_method(p.main, world_before(p, i, j), d.symbol);
                method_scoped(e.env(p.class@), e.methods[d.symbol as int], d.body)
            },
            FieldDef::VarDef(_) => true,
        }
}

proof fn lemma_world_len(p: Program, i: int, j: int)
    requires
        program_ok(p),
        0 <= i < p.class@.len(),
        0 <= j < p.class@[i].field@.len(),
    ensures
        world_before(p, i, j).slots.len() == world_before(p, i, j).vars.len(),
{
    let fs = p.class@[i].field@;
    let w = classes_next(p.class@, p.main, i as nat, initial_world(p));
    lemma_class_ok(p.class@, p.main, p.class@.len(), initial_world(p), i);
    lemma_classes_ok_prefix(p.class@, p.main, p.class@.len(), initial_world(p), i as nat);
    lemma_fields_ok_prefix(p.class@, p.main, fs, fs.len(), w, j as nat);
    lemma_classes_len(p.class@, p.main, i as nat, initial_world(p));
    lemma_fields_len(p.class@, p.main, fs, j as nat, w);
}

proof fn lemma_constructor(parent: Seq<char>, k: int)
    requires
        0 <= k < constructor(parent)->code.len(),
    ensures
        match touches(constructor(parent)->code[k]) {
            Some(x) => x < constructor(parent)->max_locals,
            None => true,
        },
{
    let code = constructor(parent)->code;
    assert(code.len() == 3);
    assert(code[0] is ALoad && code[0]->ALoad_0 == 0);
    assert(code[1] is InvokeSpecial);
    assert(code[2] is Return);
}

/// In every method of every generated class, each local variable that is touched is below the
/// number of local variables that the method asks for.
pub proof fn law_program_locals(p: Program, i: int, j: int, k: int)
    requires
        program_ok(p),
        program_scoped(p),
        0 <= i < p.class@.len(),
        0 <= j < program_class(p, i).members.len(),
        program_class(p, i).members[j] is Method,
        0 <= k < program_class(p, i).members[j]->code.len(),
    ensures
        match touches(program_class(p, i).members[j]->code[k]) {
            Some(x) => x < program_class(p, i).members[j]->max_locals,
            None => true,
        },
{
    let n = lemma_program_method(p, i, j);
    if j > 0 {
        let d = p.class@[i].field@[n]->MethodDef_0;
        let e = enter_method(p.main, world_before(p, i, n), d.symbol);
        lemma_world_len(p, i, n);
        law_method_locals(
            e.env(p.class@),
            e.methods[d.symbol as int],
            d.body,
            e.slots,
            k,
        );
    } else {
        lemma_constructor(parent_name(p.class@[i]), k);
    }
}

} // verus!
