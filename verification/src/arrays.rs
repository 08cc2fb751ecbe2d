//! What the loops and tests on arrays compute: an array filled with one value, and an element with
//! a default.

use vstd::prelude::*;

use crate::ast::{
    Binary, Call, ClassDef, DefaultIndexed, Expr, ExprKind, Identifier, Indexed, Operator,
    SemanticType, Unary,
};
use crate::instr::{InsnView, Instruction};
use crate::locals::{
    call_scoped, counter_scoped, expr_scoped, exprs_scoped, identifier_scoped, in_reach,
    indexed_scoped, owner_scoped, unary_scoped,
};
use crate::machine::{
    effect, group_stack, leads, lemma_leads_self, lemma_leads_trans, lemma_located_add,
    lemma_located_push, located, lone, marks, under, Memory, State, Thing, Value,
};
use crate::meaning::{
    binary_value, call_value, counter_value, expr_value, exprs_value, identifier_value,
    indexed_place, law_expr_value, lemma_jump, lemma_next, owner_value, repeated, unary_value,
};
use crate::scheme::{default_code, expr_code, exprs_end, fill_code, owner_end, Env, Pos};
use crate::types::{array_load_insn, new_array_insn};
use crate::valid::default_ok;

verus! {

/// An array of `n` elements of which the first `i` are `v`, and the others are `zero`.
pub open spec fn filled(n: nat, i: int, v: Value, zero: Value) -> Thing {
    Thing::Array(
        Seq::new(
            n,
            |k: int|
                if k < i {
                    v
                } else {
                    zero
                },
        ),
    )
}

/// The memory while an array is filled, with `i` elements done.
spec fn filling(
    m: Memory,
    a: int,
    n: i32,
    i: int,
    v: Value,
    zero: Value,
    locals: (u8, u8, u8),
) -> Memory {
    m.put(a, filled(n as nat, i, v, zero)).set(locals.2, Value::Ref(Some(a))).set(
        locals.1,
        Value::Int(i as i32),
    )
}

/// One round of filling an array.
proof fn lemma_fill_round(
    classes: Seq<ClassDef>,
    elem: SemanticType,
    labels: (u16, u16),
    locals: (u8, u8, u8),
    code: Seq<InsnView>,
    off: int,
    st: Seq<Value>,
    m: Memory,
    a: int,
    n: i32,
    i: int,
    v: Value,
    zero: Value,
)
    requires
        lone(code),
        located(code, off, fill_code(classes, elem, labels, locals)),
        locals.0 != locals.1 && locals.0 != locals.2 && locals.1 != locals.2,
        m.locals.dom().contains(locals.0),
        m.locals[locals.0] == v,
        0 <= i < n,
    ensures
        leads(
            code,
            (State {
                pc: off + 4,
                stack: st,
                mem: filling(m, a, n, i, v, zero, locals),
            }),
            (State {
                pc: off + 4,
                stack: st,
                mem: filling(m, a, n, i + 1, v, zero, locals),
            }),
        ),
{
    broadcast use group_stack;

    reveal(effect);
    let part = fill_code(classes, elem, labels, locals);
    let m1 = filling(m, a, n, i, v, zero, locals);
    let m2 = filling(m, a, n, i + 1, v, zero, locals);
    let m3 = m1.put(a, filled(n as nat, i + 1, v, zero));
    let s = State { pc: off + 4, stack: st, mem: m1 };
    let (r, k, len) = (Value::Ref(Some(a)), Value::Int(i as i32), Value::Int(n));
    assert(part[4] == code[off + 4]);
    assert(part[5] == code[off + 5]);
    assert(part[6] == code[off + 6]);
    assert(part[7] == code[off + 7]);
    assert(part[8] == code[off + 8]);
    assert(part[9] == code[off + 9]);
    assert(part[10] == code[off + 10]);
    assert(part[11] == code[off + 11]);
    assert(part[12] == code[off + 12]);
    assert(part[13] == code[off + 13]);
    assert(part[14] == code[off + 14]);
    lemma_leads_self(code, s);
    lemma_next(code, s, s, st, m1);
    lemma_next(code, s, State { pc: off + 5, stack: st, mem: m1 }, st.push(k), m1);
    lemma_next(code, s, State { pc: off + 6, stack: st.push(k), mem: m1 }, st.push(k).push(r), m1);
    lemma_next(
        code,
        s,
        State { pc: off + 7, stack: st.push(k).push(r), mem: m1 },
        st.push(k).push(len),
        m1,
    );
    lemma_jump(
        code,
        s,
        State { pc: off + 8, stack: st.push(k).push(len), mem: m1 },
        2,
        false,
        off + 9,
    );
    lemma_next(code, s, State { pc: off + 9, stack: st, mem: m1 }, st.push(r), m1);
    lemma_next(
        code,
        s,
        State { pc: off + 10, stack: st.push(r), mem: m1 },
        st.push(r).push(k),
        m1,
    );
    lemma_next(
        code,
        s,
        State { pc: off + 11, stack: st.push(r).push(k), mem: m1 },
        st.push(r).push(k).push(v),
        m1,
    );
    let before = filled(n as nat, i, v, zero)->Array_0;
    let after = filled(n as nat, i + 1, v, zero)->Array_0;
    assert(before.update(i, v) =~= after);
    assert(m1.with_element(r, k, v) == Some(m3));
    lemma_next(
        code,
        s,
        State { pc: off + 12, stack: st.push(r).push(k).push(v), mem: m1 },
        st,
        m3,
    );
    assert(m3.set(locals.1, Value::Int((i + 1) as i32)).locals =~= m2.locals);
    assert(m3.heap =~= m2.heap);
    lemma_next(code, s, State { pc: off + 13, stack: st, mem: m3 }, st, m2);
    lemma_jump(code, s, State { pc: off + 14, stack: st, mem: m2 }, 0, true, off + 4);
    assert(under(st, 0) =~= st);
}

/// The rounds from the `i`th on.
proof fn lemma_fill_rounds(
    classes: Seq<ClassDef>,
    elem: SemanticType,
    labels: (u16, u16),
    locals: (u8, u8, u8),
    code: Seq<InsnView>,
    off: int,
    st: Seq<Value>,
    m: Memory,
    a: int,
    n: i32,
    i: int,
    v: Value,
    zero: Value,
)
    requires
        lone(code),
        located(code, off, fill_code(classes, elem, labels, locals)),
        locals.0 != locals.1 && locals.0 != locals.2 && locals.1 != locals.2,
        m.locals.dom().contains(locals.0),
        m.locals[locals.0] == v,
        0 <= i <= n,
    ensures
        leads(
            code,
            (State {
                pc: off + 4,
                stack: st,
                mem: filling(m, a, n, i, v, zero, locals),
            }),
            (State {
                pc: off + 4,
                stack: st,
                mem: filling(m, a, n, n as int, v, zero, locals),
            }),
        ),
    decreases n - i,
{
    let s = State { pc: off + 4, stack: st, mem: filling(m, a, n, i, v, zero, locals) };
    if i < n {
        let t = State { pc: off + 4, stack: st, mem: filling(m, a, n, i + 1, v, zero, locals) };
        let u = State { pc: off + 4, stack: st, mem: filling(m, a, n, n as int, v, zero, locals) };
        lemma_fill_round(classes, elem, labels, locals, code, off, st, m, a, n, i, v, zero);
        lemma_fill_rounds(classes, elem, labels, locals, code, off, st, m, a, n, i + 1, v, zero);
        lemma_leads_trans(code, s, t, u);
    } else {
        lemma_leads_self(code, s);
    }
}

/// With a length of at least 0 on the stack, the filling loop leaves a new array of that length in
/// its place, all elements of which are the value in the first of its local variables.
pub proof fn law_fill_value(
    classes: Seq<ClassDef>,
    elem: SemanticType,
    labels: (u16, u16),
    locals: (u8, u8, u8),
    code: Seq<InsnView>,
    off: int,
    st: Seq<Value>,
    m: Memory,
    n: i32,
    v: Value,
)
    requires
        lone(code),
        located(code, off, fill_code(classes, elem, labels, locals)),
        locals.0 != locals.1 && locals.0 != locals.2 && locals.1 != locals.2,
        m.locals.dom().contains(locals.0),
        m.locals[locals.0] == v,
        n >= 0,
    ensures
        leads(
            code,
            (State { pc: off, stack: st.push(Value::Int(n)), mem: m }),
            (State {
                pc: off + fill_code(classes, elem, labels, locals).len(),
                stack: st.push(Value::Ref(Some(m.unused()))),
                mem: m.put(
                    m.unused(),
                    Thing::Array(Seq::new(n as nat, |k: int| v)),
                ).set(locals.2, Value::Ref(Some(m.unused()))).set(locals.1, Value::Int(n)),
            }),
        ),
{
    broadcast use group_stack;

    reveal(effect);
    let part = fill_code(classes, elem, labels, locals);
    let a = m.unused();
    let r = Value::Ref(Some(a));
    let new = new_array_insn(classes, elem);
    let zero = if new is ANewArray {
        Value::Ref(None)
    } else {
        Value::Int(0)
    };
    let s = State { pc: off, stack: st.push(Value::Int(n)), mem: m };
    let m1 = m.put(a, filled(n as nat, 0, v, zero));
    let m2 = m1.set(locals.2, r);
    let m3 = filling(m, a, n, 0, v, zero, locals);
    let m4 = filling(m, a, n, n as int, v, zero, locals);
    assert(part[0] == code[off]);
    assert(part[1] == code[off + 1]);
    assert(part[2] == code[off + 2]);
    assert(part[3] == code[off + 3]);
    assert(part[4] == code[off + 4]);
    assert(part[5] == code[off + 5]);
    assert(part[6] == code[off + 6]);
    assert(part[7] == code[off + 7]);
    assert(part[8] == code[off + 8]);
    assert(part[15] == code[off + 15]);
    assert(part[16] == code[off + 16]);
    assert(new is NewIntArray || new is NewBoolArray || new is ANewArray);
    assert(Seq::new(n as nat, |k: int| zero) =~= filled(n as nat, 0, v, zero)->Array_0);
    lemma_leads_self(code, s);
    lemma_next(code, s, s, st.push(r), m1);
    lemma_next(code, s, State { pc: off + 1, stack: st.push(r), mem: m1 }, st, m2);
    lemma_next(code, s, State { pc: off + 2, stack: st, mem: m2 }, st.push(Value::Int(0)), m2);
    lemma_next(code, s, State { pc: off + 3, stack: st.push(Value::Int(0)), mem: m2 }, st, m3);
    lemma_fill_rounds(classes, elem, labels, locals, code, off, st, m, a, n, 0, v, zero);
    let t = State { pc: off + 4, stack: st, mem: m4 };
    lemma_leads_trans(code, s, State { pc: off + 4, stack: st, mem: m3 }, t);
    let (k, len) = (Value::Int(n), Value::Int(n));
    lemma_next(code, s, t, st, m4);
    lemma_next(code, s, State { pc: off + 5, stack: st, mem: m4 }, st.push(k), m4);
    lemma_next(code, s, State { pc: off + 6, stack: st.push(k), mem: m4 }, st.push(k).push(r), m4);
    lemma_next(
        code,
        s,
        State { pc: off + 7, stack: st.push(k).push(r), mem: m4 },
        st.push(k).push(len),
        m4,
    );
    lemma_jump(
        code,
        s,
        State { pc: off + 8, stack: st.push(k).push(len), mem: m4 },
        2,
        true,
        off + 15,
    );
    lemma_next(code, s, State { pc: off + 15, stack: st, mem: m4 }, st, m4);
    lemma_next(code, s, State { pc: off + 16, stack: st, mem: m4 }, st.push(r), m4);
    assert(filled(n as nat, n as int, v, zero)->Array_0 =~= Seq::new(n as nat, |k: int| v));
}

/// All live variables are held in local variables below the next one.
pub open spec fn below(live: Set<usize>, p: Pos) -> bool {
    forall|v: usize| #[trigger] live.contains(v) ==> p.slots[v as int] < p.local
}

/// An expression leaves alone every local variable below its own that holds none of the variables
/// that it may use.
pub proof fn law_expr_keeps_locals(
    env: Env,
    e: Expr,
    p: Pos,
    m: Memory,
    live: Set<usize>,
    this: bool,
    x: u8,
)
    requires
        expr_scoped(env, e, live, this),
        forall|v: usize| #[trigger] live.contains(v) ==> p.slots[v as int] != x,
        x < p.local,
        expr_value(env, e, p, m) is Some,
    ensures
        ({
            let (_, m2) = expr_value(env, e, p, m)->0;
            m2.same_local(m, x)
        }),
    decreases e, 0nat,
{
    match e.kind {
        ExprKind::Identifier(i) => {
            lemma_identifier_keeps(env, i, p, m, live, this, x);
        },
        ExprKind::Indexed(i) => {
            lemma_indexed_keeps(env, i, p, m, live, this, x);
        },
        ExprKind::Call(c) => {
            assert(call_scoped(env, c, live, this));
            if c.is_arr_len {
                lemma_owner_keeps(env, c.owner, p, m, live, this, x);
            } else {
                lemma_call_keeps(env, c, p, m, live, this, x);
            }
        },
        ExprKind::Unary(u) => {
            lemma_unary_keeps(env, u, p, m, live, this, x);
        },
        ExprKind::Binary(b) => {
            lemma_binary_keeps(env, b, p, m, live, this, x);
        },
        ExprKind::NewArray(n) => {
            law_expr_keeps_locals(env, *n.len, p, m, live, this, x);
        },
        ExprKind::TypeCast(t) => {
            law_expr_keeps_locals(env, *t.expr, p, m, live, this, x);
        },
        ExprKind::TypeTest(t) => {
            law_expr_keeps_locals(env, *t.expr, p, m, live, this, x);
        },
        _ => {},
    }
}

proof fn lemma_owner_keeps(
    env: Env,
    owner: Option<Box<Expr>>,
    p: Pos,
    m: Memory,
    live: Set<usize>,
    this: bool,
    x: u8,
)
    requires
        owner_scoped(env, owner, live, this),
        forall|v: usize| #[trigger] live.contains(v) ==> p.slots[v as int] != x,
        x < p.local,
        owner_value(env, owner, p, m) is Some,
    ensures
        ({
            let (_, m2) = owner_value(env, owner, p, m)->0;
            m2.same_local(m, x)
        }),
    decreases owner, 0nat,
{
    if let Some(e) = owner {
        law_expr_keeps_locals(env, *e, p, m, live, this, x);
    }
}

proof fn lemma_exprs_keeps(
    env: Env,
    es: Seq<Expr>,
    n: nat,
    p: Pos,
    m: Memory,
    live: Set<usize>,
    this: bool,
    x: u8,
)
    requires
        n <= es.len(),
        exprs_scoped(env, es, n, live, this),
        forall|v: usize| #[trigger] live.contains(v) ==> p.slots[v as int] != x,
        x < p.local,
        exprs_value(env, es, n, p, m) is Some,
    ensures
        ({
            let (_, m2) = exprs_value(env, es, n, p, m)->0;
            m2.same_local(m, x)
        }),
    decreases es, n,
{
    if n > 0 {
        let k = (n - 1) as nat;
        let (_, m1) = exprs_value(env, es, k, p, m)->0;
        lemma_exprs_keeps(env, es, k, p, m, live, this, x);
        law_expr_keeps_locals(env, es[n - 1], exprs_end(env, es, k, p), m1, live, this, x);
    }
}

proof fn lemma_call_keeps(
    env: Env,
    c: Call,
    p: Pos,
    m: Memory,
    live: Set<usize>,
    this: bool,
    x: u8,
)
    requires
        call_scoped(env, c, live, this),
        !c.is_arr_len,
        forall|v: usize| #[trigger] live.contains(v) ==> p.slots[v as int] != x,
        x < p.local,
        call_value(env, c, p, m) is Some,
    ensures
        ({
            let (_, m2) = call_value(env, c, p, m)->0;
            m2.same_local(m, x)
        }),
    decreases c, 0nat,
{
    let q = owner_end(env, c.owner, p);
    let n = c.arg@.len();
    if c.owner is Some {
        let (_, m1) = owner_value(env, c.owner, p, m)->0;
        lemma_owner_keeps(env, c.owner, p, m, live, this, x);
        lemma_exprs_keeps(env, c.arg@, n, q, m1, live, this, x);
    } else {
        lemma_exprs_keeps(env, c.arg@, n, q, m, live, this, x);
    }
}

proof fn lemma_identifier_keeps(
    env: Env,
    i: Identifier,
    p: Pos,
    m: Memory,
    live: Set<usize>,
    this: bool,
    x: u8,
)
    requires
        identifier_scoped(env, i, false, live, this),
        forall|v: usize| #[trigger] live.contains(v) ==> p.slots[v as int] != x,
        x < p.local,
        identifier_value(env, i, p, m) is Some,
    ensures
        ({
            let (_, m2) = identifier_value(env, i, p, m)->0;
            m2.same_local(m, x)
        }),
    decreases i, 0nat,
{
    if env.field_of(i.symbol) is Some {
        lemma_owner_keeps(env, i.owner, p, m, live, this, x);
    }
}

proof fn lemma_indexed_keeps(
    env: Env,
    i: Indexed,
    p: Pos,
    m: Memory,
    live: Set<usize>,
    this: bool,
    x: u8,
)
    requires
        indexed_scoped(env, i, live, this),
        forall|v: usize| #[trigger] live.contains(v) ==> p.slots[v as int] != x,
        x < p.local,
        indexed_place(env, i, p, m) is Some,
    ensures
        ({
            let (_, _, m2) = indexed_place(env, i, p, m)->0;
            m2.same_local(m, x)
        }),
    decreases i, 0nat,
{
    let (_, m1) = expr_value(env, *i.arr, p, m)->0;
    law_expr_keeps_locals(env, *i.arr, p, m, live, this, x);
    law_expr_keeps_locals(env, *i.idx, p.past(env, *i.arr), m1, live, this, x);
}

proof fn lemma_counter_keeps(
    env: Env,
    e: Expr,
    val: i32,
    new: bool,
    p: Pos,
    m: Memory,
    live: Set<usize>,
    this: bool,
    x: u8,
)
    requires
        counter_scoped(env, e, live, this),
        forall|v: usize| #[trigger] live.contains(v) ==> p.slots[v as int] != x,
        x < p.local,
        counter_value(env, e, val, new, p, m) is Some,
    ensures
        ({
            let (_, m2) = counter_value(env, e, val, new, p, m)->0;
            m2.same_local(m, x)
        }),
    decreases e, 1nat,
{
    match e.kind {
        ExprKind::Identifier(i) => {
            assert(identifier_scoped(env, i, false, live, this));
            if env.field_of(i.symbol) is Some {
                lemma_owner_keeps(env, i.owner, p, m, live, this, x);
            } else {
                assert(in_reach(live, i.symbol));
            }
        },
        ExprKind::Indexed(i) => {
            lemma_indexed_keeps(env, i, p, m, live, this, x);
        },
        _ => {},
    }
}

proof fn lemma_unary_keeps(
    env: Env,
    u: Unary,
    p: Pos,
    m: Memory,
    live: Set<usize>,
    this: bool,
    x: u8,
)
    requires
        unary_scoped(env, u, live, this),
        forall|v: usize| #[trigger] live.contains(v) ==> p.slots[v as int] != x,
        x < p.local,
        unary_value(env, u, p, m) is Some,
    ensures
        ({
            let (_, m2) = unary_value(env, u, p, m)->0;
            m2.same_local(m, x)
        }),
    decreases u, 0nat,
{
    match u.op {
        Operator::Neg => {
            law_expr_keeps_locals(env, *u.r, p, m, live, this, x);
        },
        Operator::Not => {
            law_expr_keeps_locals(env, *u.r, p.step(2, 0), m, live, this, x);
        },
        Operator::PreInc => {
            lemma_counter_keeps(env, *u.r, 1, true, p, m, live, this, x);
        },
        Operator::PreDec => {
            lemma_counter_keeps(env, *u.r, (-1) as i32, true, p, m, live, this, x);
        },
        Operator::PostInc => {
            lemma_counter_keeps(env, *u.r, 1, false, p, m, live, this, x);
        },
        Operator::PostDec => {
            lemma_counter_keeps(env, *u.r, (-1) as i32, false, p, m, live, this, x);
        },
        _ => {},
    }
}

proof fn lemma_binary_keeps(
    env: Env,
    b: Binary,
    p: Pos,
    m: Memory,
    live: Set<usize>,
    this: bool,
    x: u8,
)
    requires
        expr_scoped(env, *b.l, live, this),
        expr_scoped(env, *b.r, live, this),
        forall|v: usize| #[trigger] live.contains(v) ==> p.slots[v as int] != x,
        x < p.local,
        binary_value(env, b, p, m) is Some,
    ensures
        ({
            let (_, m2) = binary_value(env, b, p, m)->0;
            m2.same_local(m, x)
        }),
    decreases b, 0nat,
{
    let q = if b.op is Repeat {
        p.step(2, 3)
    } else if b.op is And || b.op is Or {
        p.step(2, 0)
    } else {
        p
    };
    let r = q.past(env, *b.l);
    let (v, m1) = expr_value(env, *b.l, q, m)->0;
    let m2 = if b.op is Repeat {
        m1.set(p.slot(0), v)
    } else {
        m1
    };
    law_expr_keeps_locals(env, *b.l, q, m, live, this, x);
    if expr_value(env, *b.r, r, m2) is Some {
        law_expr_keeps_locals(env, *b.r, r, m2, live, this, x);
    }
}

/// Where every variable is declared before it is used, the length of a repeated value does not
/// disturb the value: a repeated value has a meaning as soon as the value and the length have one
/// and the length is at least 0, and it is a new array of that length with the value in every
/// place.
pub proof fn law_repeat_value(
    env: Env,
    b: Binary,
    p: Pos,
    m: Memory,
    v: Value,
    m1: Memory,
    n: i32,
    m2: Memory,
    live: Set<usize>,
    this: bool,
)
    requires
        b.op is Repeat,
        p.local + 3 <= u8::MAX,
        expr_value(env, *b.l, p.step(2, 3), m) == Some((v, m1)),
        expr_value(env, *b.r, p.step(2, 3).past(env, *b.l), m1.set(p.slot(0), v)) == Some(
            (Value::Int(n), m2),
        ),
        expr_scoped(env, *b.r, live, this),
        below(live, p),
        n >= 0,
    ensures
        binary_value(env, b, p, m) == Some(repeated(p, n, v, m2)),
        repeated(p, n, v, m2).1.array(repeated(p, n, v, m2).0) == Some(
            Seq::new(n as nat, |k: int| v),
        ),
{
    let r = p.step(2, 3).past(env, *b.l);
    let kept = m1.set(p.slot(0), v);
    law_expr_keeps_locals(env, *b.r, r, kept, live, this, p.slot(0));
}

/// What an element with a default does with its index.
spec fn element_code(t: SemanticType, arr: u8, labels: (u16, u16)) -> Seq<InsnView> {
    seq![
        Instruction::Dup,
        Instruction::IfLt(labels.0),
        Instruction::Dup,
        Instruction::ALoad(arr),
        Instruction::ArrayLength,
        Instruction::IfICmpGe(labels.0),
        Instruction::Dup,
        Instruction::ALoad(arr),
        Instruction::Swap,
        array_load_insn(t),
        Instruction::Goto(labels.1),
        Instruction::Label(labels.0),
    ]
}

/// An index within the bounds leads behind the default, with the element above the index; any
/// other index leads to the default.
proof fn lemma_element(
    t: SemanticType,
    arr: u8,
    labels: (u16, u16),
    code: Seq<InsnView>,
    off: int,
    out: int,
    s: State,
    st: Seq<Value>,
    m: Memory,
    i: i32,
    elems: Seq<Value>,
)
    requires
        lone(code),
        located(code, off, element_code(t, arr, labels)),
        0 <= out < code.len(),
        marks(code[out], labels.1),
        leads(code, s, (State { pc: off, stack: st.push(Value::Int(i)), mem: m })),
        m.locals.dom().contains(arr),
        m.array(m.locals[arr]) == Some(elems),
        elems.len() <= i32::MAX,
    ensures
        0 <= i < elems.len() ==> leads(
            code,
            s,
            (State {
                pc: out,
                stack: st.push(Value::Int(i)).push(elems[i as int]),
                mem: m,
            }),
        ),
        !(0 <= i < elems.len()) ==> leads(
            code,
            s,
            (State { pc: off + 12, stack: st.push(Value::Int(i)), mem: m }),
        ),
{
    broadcast use group_stack;

    reveal(effect);
    let part = element_code(t, arr, labels);
    let (x, a) = (Value::Int(i), m.locals[arr]);
    let len = Value::Int(elems.len() as i32);
    let b = st.push(x);
    assert(part[0] == code[off]);
    assert(part[1] == code[off + 1]);
    assert(part[2] == code[off + 2]);
    assert(part[3] == code[off + 3]);
    assert(part[4] == code[off + 4]);
    assert(part[5] == code[off + 5]);
    assert(part[6] == code[off + 6]);
    assert(part[7] == code[off + 7]);
    assert(part[8] == code[off + 8]);
    assert(part[9] == code[off + 9]);
    assert(part[10] == code[off + 10]);
    assert(part[11] == code[off + 11]);
    lemma_next(code, s, State { pc: off, stack: b, mem: m }, b.push(x), m);
    let t1 = State { pc: off + 1, stack: b.push(x), mem: m };
    if i < 0 {
        lemma_jump(code, s, t1, 1, true, off + 11);
        lemma_next(code, s, State { pc: off + 11, stack: b, mem: m }, b, m);
    } else {
        lemma_jump(code, s, t1, 1, false, off + 2);
        lemma_next(code, s, State { pc: off + 2, stack: b, mem: m }, b.push(x), m);
        lemma_next(code, s, State { pc: off + 3, stack: b.push(x), mem: m }, b.push(x).push(a), m);
        lemma_next(
            code,
            s,
            State { pc: off + 4, stack: b.push(x).push(a), mem: m },
            b.push(x).push(len),
            m,
        );
        let t5 = State { pc: off + 5, stack: b.push(x).push(len), mem: m };
        if i >= elems.len() {
            lemma_jump(code, s, t5, 2, true, off + 11);
            lemma_next(code, s, State { pc: off + 11, stack: b, mem: m }, b, m);
        } else {
            let v = elems[i as int];
            lemma_jump(code, s, t5, 2, false, off + 6);
            lemma_next(code, s, State { pc: off + 6, stack: b, mem: m }, b.push(x), m);
            lemma_next(
                code,
                s,
                State { pc: off + 7, stack: b.push(x), mem: m },
                b.push(x).push(a),
                m,
            );
            lemma_next(
                code,
                s,
                State { pc: off + 8, stack: b.push(x).push(a), mem: m },
                b.push(a).push(x),
                m,
            );
            lemma_next(
                code,
                s,
                State { pc: off + 9, stack: b.push(a).push(x), mem: m },
                b.push(v),
                m,
            );
            lemma_jump(code, s, State { pc: off + 10, stack: b.push(v), mem: m }, 0, true, out);
            assert(under(b.push(v), 0) =~= b.push(v));
        }
    }
}

/// An element with a default is the element where the index is within the bounds of the array, and
/// the default where it is not; the default is computed only in that case. The index stays below.
pub proof fn law_default_value(
    env: Env,
    d: DefaultIndexed,
    t: SemanticType,
    p: Pos,
    code: Seq<InsnView>,
    off: int,
    st: Seq<Value>,
    m: Memory,
    a: Value,
    m1: Memory,
    i: i32,
    m2: Memory,
    elems: Seq<Value>,
    live: Set<usize>,
    this: bool,
)
    requires
        default_ok(env, d),
        p.local + 1 <= u8::MAX,
        lone(code),
        located(code, off, default_code(env, d, t, p)),
        expr_value(env, *d.arr, p.step(2, 1), m) == Some((a, m1)),
        expr_value(env, *d.idx, p.step(2, 1).past(env, *d.arr), m1.set(p.slot(0), a)) == Some(
            (Value::Int(i), m2),
        ),
        expr_scoped(env, *d.idx, live, this),
        below(live, p),
        m2.array(a) == Some(elems),
        elems.len() <= i32::MAX,
    ensures
        0 <= i < elems.len() ==> leads(
            code,
            (State { pc: off, stack: st, mem: m }),
            (State {
                pc: off + default_code(env, d, t, p).len(),
                stack: st.push(Value::Int(i)).push(elems[i as int]),
                mem: m2,
            }),
        ),
        !(0 <= i < elems.len()) ==> match expr_value(
            env,
            *d.dft,
            p.step(2, 1).past(env, *d.arr).past(env, *d.idx),
            m2,
        ) {
            Some((v, m3)) => leads(
                code,
                (State { pc: off, stack: st, mem: m }),
                (State {
                    pc: off + default_code(env, d, t, p).len(),
                    stack: st.push(Value::Int(i)).push(v),
                    mem: m3,
                }),
            ),
            None => true,
        },
{
    broadcast use group_stack;

    reveal(effect);
    let q = p.step(2, 1);
    let r = q.past(env, *d.arr);
    let u = r.past(env, *d.idx);
    let (arr, idx, dft) = (
        expr_code(env, *d.arr, q),
        expr_code(env, *d.idx, r),
        expr_code(env, *d.dft, u),
    );
    let keep = Instruction::AStore(p.slot(0));
    let labels = (p.at(0), p.at(1));
    let mid = element_code(t, p.slot(0), labels);
    let end = Instruction::Label(p.at(1));
    assert(default_code(env, d, t, p) == arr.push(keep) + idx + mid + dft.push(end));
    lemma_located_add(code, off, arr.push(keep) + idx + mid, dft.push(end));
    lemma_located_add(code, off, arr.push(keep) + idx, mid);
    lemma_located_add(code, off, arr.push(keep), idx);
    lemma_located_push(code, off, arr, keep);
    let o1 = off + arr.len();
    let o2 = o1 + 1 + idx.len();
    let o3 = o2 + 12;
    lemma_located_push(code, o3, dft, end);
    let out = o3 + dft.len();
    let s = State { pc: off, stack: st, mem: m };
    let kept = m1.set(p.slot(0), a);
    law_expr_value(env, *d.arr, q, code, off, st, m);
    lemma_next(code, s, State { pc: o1, stack: st.push(a), mem: m1 }, st, kept);
    law_expr_value(env, *d.idx, r, code, o1 + 1, st, kept);
    law_expr_keeps_locals(env, *d.idx, r, kept, live, this, p.slot(0));
    let b = st.push(Value::Int(i));
    lemma_leads_trans(
        code,
        s,
        State { pc: o1 + 1, stack: st, mem: kept },
        State { pc: o2, stack: b, mem: m2 },
    );
    lemma_element(t, p.slot(0), labels, code, o2, out, s, st, m2, i, elems);
    if 0 <= i < elems.len() {
        let v = elems[i as int];
        lemma_next(code, s, State { pc: out, stack: b.push(v), mem: m2 }, b.push(v), m2);
    } else if let Some((v, m3)) = expr_value(env, *d.dft, u, m2) {
        law_expr_value(env, *d.dft, u, code, o3, b, m2);
        lemma_leads_trans(
            code,
            s,
            State { pc: o3, stack: b, mem: m2 },
            State { pc: out, stack: b.push(v), mem: m3 },
        );
        lemma_next(code, s, State { pc: out, stack: b.push(v), mem: m3 }, b.push(v), m3);
    }
}

} // verus!
