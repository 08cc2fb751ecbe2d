//! What statements do, and that their code does just that.
//!
//! Given for all statements over expressions that have a meaning in [`crate::meaning`]. Loops are
//! followed for a bounded number of rounds, so that everything said of a loop is said of one that
//! comes to its end.

use vstd::prelude::*;

use crate::ast::{
    Assign, BasicType, Block, Call, Expr, ExprKind, FieldDef, For, Foreach, If, MethodView, Return,
    SCopy, SemanticType, Simple, Stmt, While,
};
use crate::instr::{InsnView, Instruction, JType};
use crate::labels::{law_method_labels, placed};
use crate::machine::{
    effect, group_stack, leads, lemma_leads_self, lemma_leads_trans, lemma_located_add,
    lemma_located_push, located, lone, marks, under, wrapped, Memory, State, Thing, Value,
};
use crate::meaning::{
    call_value, expr_value, indexed_place, law_expr_value, lemma_call, lemma_indexed, lemma_jump,
    lemma_new_object, lemma_next, lemma_owner, owner_value, zero_value,
};
use crate::program::{body_ok, body_start, method_code, tail_code};
use crate::scheme::{
    assign_code, block_code, block_end, call_code, copy_code, expr_code, exprs_end, for_code,
    foreach_array, foreach_body, foreach_code, foreach_cond, foreach_slots, guards_code, guards_end,
    identifier_code, if_code, is_void_call, new_object_code, owner_code, place_code, place_labels,
    place_locals, place_store, print_code, print_insn, print_stream, return_code, s_copy_code,
    simple_code, simple_end, stmt_code, stmts_code, stmts_end, while_code, Env, Pos,
};
use crate::types::{array_load_insn, java_type, return_insn, store_insn, zero_insn};
use crate::valid::{
    assign_ok, block_ok, call_ok, expr_ok, exprs_ok, foreach_ok, guards_ok, owner_ok, s_copy_ok,
    simple_ok, stmt_ok, stmts_ok,
};

verus! {

/// How a statement ends: it is done, or a `break` has left the innermost loop, or a `return` is
/// about to leave the method by an instruction, with the value that it returns.
pub enum Outcome {
    Done(Memory),
    Left(Memory),
    Returned { by: InsnView, value: Option<Value>, mem: Memory },
}

/// The memory after an assignment. What the target belongs to is found before the new value.
pub open spec fn assign_done(env: Env, a: Assign, p: Pos, m: Memory) -> Option<Memory> {
    let q = p.step(place_labels(env, a.dst), place_locals(env, a.dst));
    match a.dst.kind {
        ExprKind::Identifier(i) => match env.field_of(i.symbol) {
            Some(class) => match owner_value(env, i.owner, p, m) {
                Some((o, m1)) => match expr_value(env, a.src, q, m1) {
                    Some((v, m2)) => m2.with_field(
                        o,
                        env.class_name(class),
                        env.var(i.symbol).name,
                        v,
                    ),
                    None => None,
                },
                None => None,
            },
            None => if i.owner is None {
                match expr_value(env, a.src, q, m) {
                    Some((v, m1)) => Some(m1.set(p.var_slot(i.symbol), v)),
                    None => None,
                }
            } else {
                None
            },
        },
        ExprKind::Indexed(i) => match indexed_place(env, i, p, m) {
            Some((r, x, m1)) => match expr_value(env, a.src, q, m1) {
                Some((v, m2)) => m2.with_element(r, x, v),
                None => None,
            },
            None => None,
        },
        _ => None,
    }
}

/// The memory after an expression whose value is dropped.
pub open spec fn value_done(env: Env, e: Expr, p: Pos, m: Memory) -> Option<Memory> {
    match expr_value(env, e, p, m) {
        Some((_, m1)) => Some(m1),
        None => None,
    }
}

/// The memory after the call of a method without a result.
pub open spec fn void_done(env: Env, c: Call, p: Pos, m: Memory) -> Option<Memory> {
    match call_value(env, c, p, m) {
        Some((None, m1)) => if c.is_arr_len {
            None
        } else {
            Some(m1)
        },
        _ => None,
    }
}

/// The memory after a simple statement.
pub open spec fn simple_done(env: Env, s: Simple, p: Pos, m: Memory) -> Option<Memory> {
    match s {
        Simple::Assign(a) => assign_done(env, a, p, m),
        Simple::VarAssign(v) => match v.src {
            Some(e) => match expr_value(env, e, p.bind(v.var, p.slot(0)).step(0, 1), m) {
                Some((x, m1)) => Some(m1.set(p.slot(0), x)),
                None => None,
            },
            None => Some(m.set(p.slot(0), zero_value(env.vars[v.var as int].type_))),
        },
        Simple::Expr(e) => match e.kind {
            ExprKind::Call(c) => if is_void_call(env, e) {
                void_done(env, c, p, m)
            } else {
                value_done(env, e, p, m)
            },
            _ => value_done(env, e, p, m),
        },
        Simple::Skip => Some(m),
    }
}

/// Every field among the members of a class has a value.
pub open spec fn has_fields(
    env: Env,
    class: Seq<char>,
    members: Seq<FieldDef>,
    f: Map<(Seq<char>, Seq<char>), Value>,
) -> bool {
    forall|i: int|
        0 <= i < members.len() ==> match #[trigger] members[i] {
            FieldDef::VarDef(v) => f.dom().contains((class, env.vars[v as int].name)),
            FieldDef::MethodDef(_) => true,
        }
}

/// The fields among the first `n` members of a class, with the values that they have in `f`.
pub open spec fn copied(
    env: Env,
    class: Seq<char>,
    members: Seq<FieldDef>,
    n: nat,
    f: Map<(Seq<char>, Seq<char>), Value>,
) -> Map<(Seq<char>, Seq<char>), Value>
    decreases n,
{
    if n == 0 || n > members.len() {
        Map::empty()
    } else {
        let before = copied(env, class, members, (n - 1) as nat, f);
        match members[n - 1] {
            FieldDef::VarDef(v) => {
                let key = (class, env.vars[v as int].name);
                before.insert(key, f[key])
            },
            FieldDef::MethodDef(_) => before,
        }
    }
}

/// The memory after a shallow copy: the target refers to a new object, which has the fields of the
/// class with the values of the source.
pub open spec fn s_copy_done(env: Env, c: SCopy, p: Pos, m: Memory) -> Option<Memory> {
    let class = env.classes[c.src.type_->Object_0 as int];
    match expr_value(env, c.src, p.step(0, 2), m) {
        Some((o, m1)) => {
            let m2 = m1.set(p.slot(0), o);
            let a = m2.unused();
            let r = Value::Ref(Some(a));
            match m2.object(o) {
                Some(f) => if p.local + 2 <= u8::MAX && !m2.heap.dom().contains(a) && has_fields(
                    env,
                    class.name@,
                    class.field@,
                    f,
                ) {
                    let new = copied(env, class.name@, class.field@, class.field@.len(), f);
                    Some(
                        m2.put(a, Thing::Object(class.name@, new)).set(p.slot(1), r).set(
                            p.var_slot(c.dst_sym),
                            r,
                        ),
                    )
                } else {
                    None
                },
                None => None,
            }
        },
        None => None,
    }
}

/// The memory after the first `n` values have been printed, one after another.
pub open spec fn print_done(env: Env, es: Seq<Expr>, n: nat, p: Pos, m: Memory) -> Option<Memory>
    decreases n,
{
    if n == 0 || n > es.len() {
        Some(m)
    } else {
        let k = (n - 1) as nat;
        match print_done(env, es, k, p, m) {
            Some(m1) => match expr_value(env, es[n - 1], exprs_end(env, es, k, p), m1) {
                Some((v, m2)) => Some(m2.print(java_type(env.classes, es[n - 1].type_), v)),
                None => None,
            },
            None => None,
        }
    }
}

/// How a `return` ends: with the value of its expression, if there is one.
pub open spec fn return_done(env: Env, r: Return, p: Pos, m: Memory) -> Option<Outcome> {
    match r.expr {
        Some(e) => match expr_value(env, e, p, m) {
            Some((v, m1)) => Some(
                Outcome::Returned { by: return_insn(e.type_), value: Some(v), mem: m1 },
            ),
            None => None,
        },
        None => Some(Outcome::Returned { by: Instruction::Return, value: None, mem: m }),
    }
}

/// What a condition says, and the memory after it.
pub open spec fn test(env: Env, e: Expr, p: Pos, m: Memory) -> Option<(bool, Memory)> {
    match expr_value(env, e, p, m) {
        Some((Value::Int(v), m1)) => Some((v != 0, m1)),
        _ => None,
    }
}

/// How a statement ends that is generated at `p`, with no loop going round more than `fuel` times.
pub open spec fn stmt_done(env: Env, s: Stmt, p: Pos, m: Memory, fuel: nat) -> Option<Outcome>
    decreases fuel, s, 0nat,
{
    match s {
        Stmt::Simple(x) => match simple_done(env, x, p, m) {
            Some(m1) => Some(Outcome::Done(m1)),
            None => None,
        },
        Stmt::If(x) => if_done(env, x, p, m, fuel),
        Stmt::While(x) => while_done(env, x, p, m, fuel),
        Stmt::For(x) => match simple_done(env, x.init, p.step(2, 0), m) {
            Some(m1) => for_done(env, x, p, m1, fuel),
            None => None,
        },
        Stmt::Break => Some(Outcome::Left(m)),
        Stmt::SCopy(c) => match s_copy_done(env, c, p, m) {
            Some(m1) => Some(Outcome::Done(m1)),
            None => None,
        },
        Stmt::Foreach(x) => match expr_value(
            env,
            x.arr,
            foreach_array(env, x, p),
            m.set(foreach_slots(env, x, p).1, Value::Int(0)),
        ) {
            Some((a, m1)) => foreach_done(
                env,
                x,
                p,
                m1.set(foreach_slots(env, x, p).2, a),
                fuel,
            ),
            None => None,
        },
        Stmt::Guarded(g) => guards_done(env, g.guarded@, g.guarded@.len(), p, m, fuel),
        Stmt::Return(r) => return_done(env, r, p, m),
        Stmt::Print(x) => match print_done(env, x.print@, x.print@.len(), p, m) {
            Some(m1) => Some(Outcome::Done(m1)),
            None => None,
        },
        Stmt::Block(b) => block_done(env, b, p, m, fuel),
    }
}

pub open spec fn if_done(env: Env, x: If, p: Pos, m: Memory, fuel: nat) -> Option<Outcome>
    decreases fuel, x, 0nat,
{
    let q = p.step(2, 0);
    let r = q.past(env, x.cond);
    match test(env, x.cond, q, m) {
        Some((yes, m1)) => if yes {
            block_done(env, x.on_true, r, m1, fuel)
        } else {
            match x.on_false {
                Some(b) => block_done(env, b, block_end(env, x.on_true, r), m1, fuel),
                None => Some(Outcome::Done(m1)),
            }
        },
        None => None,
    }
}

/// The body runs as long as the condition holds; a `break` in it ends the loop.
pub open spec fn while_done(env: Env, x: While, p: Pos, m: Memory, fuel: nat) -> Option<Outcome>
    decreases fuel, x, 0nat,
{
    let q = p.step(2, 0);
    match test(env, x.cond, q, m) {
        Some((yes, m1)) => if yes {
            match block_done(env, x.body, q.past(env, x.cond), m1, fuel) {
                Some(Outcome::Done(m2)) => if fuel == 0 {
                    None
                } else {
                    while_done(env, x, p, m2, (fuel - 1) as nat)
                },
                Some(Outcome::Left(m2)) => Some(Outcome::Done(m2)),
                other => other,
            }
        } else {
            Some(Outcome::Done(m1))
        },
        None => None,
    }
}

/// The rounds of a loop with an update between them.
pub open spec fn for_done(env: Env, x: For, p: Pos, m: Memory, fuel: nat) -> Option<Outcome>
    decreases fuel, x, 0nat,
{
    let r = simple_end(env, x.init, p.step(2, 0));
    let t = r.past(env, x.cond);
    match test(env, x.cond, r, m) {
        Some((yes, m1)) => if yes {
            match block_done(env, x.body, t, m1, fuel) {
                Some(Outcome::Done(m2)) => match simple_done(
                    env,
                    x.update,
                    block_end(env, x.body, t),
                    m2,
                ) {
                    Some(m3) => if fuel == 0 {
                        None
                    } else {
                        for_done(env, x, p, m3, (fuel - 1) as nat)
                    },
                    None => None,
                },
                Some(Outcome::Left(m2)) => Some(Outcome::Done(m2)),
                other => other,
            }
        } else {
            Some(Outcome::Done(m1))
        },
        None => None,
    }
}

/// The rounds of a walk over an array: the loop variable is the next element, a condition that
/// fails ends the loop, and so does a `break` in the body.
pub open spec fn foreach_done(env: Env, x: Foreach, p: Pos, m: Memory, fuel: nat) -> Option<
    Outcome,
>
    decreases fuel, x, 0nat,
{
    let (elem, count, array) = foreach_slots(env, x, p);
    let (it, arr) = (m.locals[count], m.locals[array]);
    if !m.locals.dom().contains(count) || !m.locals.dom().contains(array) {
        None
    } else {
        match (it, m.array(arr)) {
            (Value::Int(i), Some(elems)) => if elems.len() > i32::MAX || i < 0 {
                None
            } else if i >= elems.len() {
                Some(Outcome::Done(m))
            } else {
                let m1 = m.set(elem, elems[i as int]);
                match foreach_test(env, x, p, m1) {
                    Some((yes, m2)) => if yes {
                        match block_done(env, x.body, foreach_body(env, x, p), m2, fuel) {
                            Some(Outcome::Done(m3)) => if fuel == 0 || !m3.locals.dom().contains(
                                count,
                            ) || !(m3.locals[count] is Int) {
                                None
                            } else {
                                let next = wrapped(m3.locals[count]->Int_0 + 1);
                                foreach_done(
                                    env,
                                    x,
                                    p,
                                    m3.set(count, Value::Int(next)),
                                    (fuel - 1) as nat,
                                )
                            },
                            Some(Outcome::Left(m3)) => Some(Outcome::Done(m3)),
                            other => other,
                        }
                    } else {
                        Some(Outcome::Done(m2))
                    },
                    None => None,
                }
            },
            _ => None,
        }
    }
}

/// What the condition of a walk says; without one it goes on.
pub open spec fn foreach_test(env: Env, x: Foreach, p: Pos, m: Memory) -> Option<(bool, Memory)> {
    match x.cond {
        Some(e) => test(env, e, foreach_cond(env, x, p), m),
        None => Some((true, m)),
    }
}

pub open spec fn block_done(env: Env, b: Block, p: Pos, m: Memory, fuel: nat) -> Option<Outcome>
    decreases fuel, b, 0nat,
{
    stmts_done(env, b.stmt@, b.stmt@.len(), p, m, fuel)
}

/// Statements one after another, up to the first that leaves the loop or the method.
pub open spec fn stmts_done(
    env: Env,
    ss: Seq<Stmt>,
    n: nat,
    p: Pos,
    m: Memory,
    fuel: nat,
) -> Option<Outcome>
    decreases fuel, ss, n,
{
    if n == 0 || n > ss.len() {
        Some(Outcome::Done(m))
    } else {
        let k = (n - 1) as nat;
        match stmts_done(env, ss, k, p, m, fuel) {
            Some(Outcome::Done(m1)) => stmt_done(
                env,
                ss[n - 1],
                stmts_end(env, ss, k, p),
                m1,
                fuel,
            ),
            other => other,
        }
    }
}

/// Guarded blocks one after another, each run if its own condition holds.
pub open spec fn guards_done(
    env: Env,
    gs: Seq<(Expr, Block)>,
    n: nat,
    p: Pos,
    m: Memory,
    fuel: nat,
) -> Option<Outcome>
    decreases fuel, gs, n,
{
    if n == 0 || n > gs.len() {
        Some(Outcome::Done(m))
    } else {
        let k = (n - 1) as nat;
        let r = guards_end(env, gs, k, p).step(1, 0);
        match guards_done(env, gs, k, p, m, fuel) {
            Some(Outcome::Done(m1)) => match test(env, gs[n - 1].0, r, m1) {
                Some((yes, m2)) => if yes {
                    block_done(env, gs[n - 1].1, r.past(env, gs[n - 1].0), m2, fuel)
                } else {
                    Some(Outcome::Done(m2))
                },
                None => None,
            },
            other => other,
        }
    }
}

// ---------------------------------------------------------------------------------------------
// Simple statements
// ---------------------------------------------------------------------------------------------

/// The place of a target leaves the values that the store needs below the new value.
proof fn lemma_assign(
    env: Env,
    a: Assign,
    p: Pos,
    code: Seq<InsnView>,
    off: int,
    st: Seq<Value>,
    m: Memory,
)
    requires
        assign_ok(env, a),
        lone(code),
        located(code, off, assign_code(env, a, p)),
        assign_done(env, a, p, m) is Some,
    ensures
        leads(
            code,
            (State { pc: off, stack: st, mem: m }),
            (State {
                pc: off + assign_code(env, a, p).len(),
                stack: st,
                mem: assign_done(env, a, p, m)->0,
            }),
        ),
{
    broadcast use group_stack;

    reveal(effect);
    let q = p.step(place_labels(env, a.dst), place_locals(env, a.dst));
    let (place, src) = (place_code(env, a.dst, p), expr_code(env, a.src, q));
    let store = place_store(env, a.dst, p.slots);
    let s = State { pc: off, stack: st, mem: m };
    let end = assign_done(env, a, p, m)->0;
    lemma_located_push(code, off, place + src, store);
    lemma_located_add(code, off, place, src);
    let o1 = off + place.len();
    let o2 = o1 + src.len();
    lemma_leads_self(code, s);
    match a.dst.kind {
        ExprKind::Identifier(i) => {
            assert(place == identifier_code(env, i, true, p));
            assert(place == owner_code(env, i.owner, p));
            assert(owner_ok(env, i.owner));
            if let Some(class) = env.field_of(i.symbol) {
                let (o, m1) = owner_value(env, i.owner, p, m)->0;
                let (v, m2) = expr_value(env, a.src, q, m1)->0;
                lemma_owner(env, i.owner, p, code, off, st, m);
                law_expr_value(env, a.src, q, code, o1, st.push(o), m1);
                let t = State { pc: o2, stack: st.push(o).push(v), mem: m2 };
                lemma_leads_trans(code, s, State { pc: o1, stack: st.push(o), mem: m1 }, t);
                lemma_next(code, s, t, st, end);
            } else {
                let (v, m1) = expr_value(env, a.src, q, m)->0;
                law_expr_value(env, a.src, q, code, o1, st, m);
                lemma_next(code, s, State { pc: o2, stack: st.push(v), mem: m1 }, st, end);
            }
        },
        ExprKind::Indexed(i) => {
            let (r, x, m1) = indexed_place(env, i, p, m)->0;
            let (v, m2) = expr_value(env, a.src, q, m1)->0;
            let two = st.push(r).push(x);
            lemma_indexed(env, i, a.dst.type_, p, code, off, st, m);
            law_expr_value(env, a.src, q, code, o1, two, m1);
            let t = State { pc: o2, stack: two.push(v), mem: m2 };
            lemma_leads_trans(code, s, State { pc: o1, stack: two, mem: m1 }, t);
            lemma_next(code, s, t, st, end);
        },
        _ => {},
    }
}

/// The code of a simple statement changes the memory as the statement does, and leaves the stack
/// as it was.
pub proof fn law_simple_done(
    env: Env,
    s: Simple,
    p: Pos,
    code: Seq<InsnView>,
    off: int,
    st: Seq<Value>,
    m: Memory,
)
    requires
        simple_ok(env, s),
        lone(code),
        located(code, off, simple_code(env, s, p)),
        simple_done(env, s, p, m) is Some,
    ensures
        leads(
            code,
            (State { pc: off, stack: st, mem: m }),
            (State {
                pc: off + simple_code(env, s, p).len(),
                stack: st,
                mem: simple_done(env, s, p, m)->0,
            }),
        ),
{
    broadcast use group_stack;

    reveal(effect);
    let from = State { pc: off, stack: st, mem: m };
    let end = simple_done(env, s, p, m)->0;
    lemma_leads_self(code, from);
    match s {
        Simple::Assign(a) => {
            lemma_assign(env, a, p, code, off, st, m);
        },
        Simple::VarAssign(v) => {
            let t = env.vars[v.var as int].type_;
            let store = store_insn(t, p.slot(0));
            match v.src {
                Some(e) => {
                    let q = p.bind(v.var, p.slot(0)).step(0, 1);
                    let src = expr_code(env, e, q);
                    let (x, m1) = expr_value(env, e, q, m)->0;
                    lemma_located_push(code, off, src, store);
                    law_expr_value(env, e, q, code, off, st, m);
                    lemma_next(
                        code,
                        from,
                        State { pc: off + src.len(), stack: st.push(x), mem: m1 },
                        st,
                        end,
                    );
                },
                None => {
                    let zero = zero_insn(t);
                    let x = zero_value(t);
                    lemma_located_push(code, off, seq![zero], store);
                    assert(seq![zero][0] == code[off]);
                    lemma_next(code, from, from, st.push(x), m);
                    lemma_next(
                        code,
                        from,
                        State { pc: off + 1, stack: st.push(x), mem: m },
                        st,
                        end,
                    );
                },
            }
        },
        Simple::Expr(e) => {
            let x = expr_code(env, e, p);
            if is_void_call(env, e) {
                let c = e.kind->Call_0;
                assert(call_ok(env, c));
                assert(x == call_code(env, c, p));
                lemma_call(env, c, p, code, off, st, m);
            } else {
                let (v, m1) = expr_value(env, e, p, m)->0;
                lemma_located_push(code, off, x, Instruction::Pop);
                law_expr_value(env, e, p, code, off, st, m);
                lemma_next(
                    code,
                    from,
                    State { pc: off + x.len(), stack: st.push(v), mem: m1 },
                    st,
                    m1,
                );
            }
        },
        Simple::Skip => {},
    }
}

/// Copying the first `n` members of a class, as far as they are fields.
proof fn lemma_copy(
    env: Env,
    class: Seq<char>,
    members: Seq<FieldDef>,
    n: nat,
    src: u8,
    dst: u8,
    code: Seq<InsnView>,
    off: int,
    st: Seq<Value>,
    m: Memory,
    o: Value,
    a: int,
    f: Map<(Seq<char>, Seq<char>), Value>,
)
    requires
        n <= members.len(),
        located(code, off, copy_code(env, class, members, n, src, dst)),
        has_fields(env, class, members, f),
        m.locals.dom().contains(src) && m.locals[src] == o,
        m.locals.dom().contains(dst) && m.locals[dst] == Value::Ref(Some(a)),
        m.object(o) == Some(f),
        !m.heap.dom().contains(a),
    ensures
        leads(
            code,
            (State { pc: off, stack: st, mem: m.put(a, Thing::Object(class, Map::empty())) }),
            (State {
                pc: off + copy_code(env, class, members, n, src, dst).len(),
                stack: st,
                mem: m.put(a, Thing::Object(class, copied(env, class, members, n, f))),
            }),
        ),
    decreases n,
{
    broadcast use group_stack;

    reveal(effect);
    let s = State { pc: off, stack: st, mem: m.put(a, Thing::Object(class, Map::empty())) };
    lemma_leads_self(code, s);
    if n > 0 {
        let k = (n - 1) as nat;
        let before = copy_code(env, class, members, k, src, dst);
        match members[n - 1] {
            FieldDef::MethodDef(_) => {
                lemma_copy(env, class, members, k, src, dst, code, off, st, m, o, a, f);
            },
            FieldDef::VarDef(v) => {
                let (name, type_) = (env.vars[v as int].name, env.var_java_type(v));
                let rest: Seq<InsnView> = seq![
                    Instruction::ALoad(dst),
                    Instruction::ALoad(src),
                    Instruction::GetField { class, name, type_ },
                    Instruction::PutField { class, name, type_ },
                ];
                let r = Value::Ref(Some(a));
                let x = f[(class, name)];
                let m1 = m.put(a, Thing::Object(class, copied(env, class, members, k, f)));
                let m2 = m.put(a, Thing::Object(class, copied(env, class, members, n, f)));
                assert(copy_code(env, class, members, n, src, dst) == before + rest);
                lemma_located_add(code, off, before, rest);
                lemma_copy(env, class, members, k, src, dst, code, off, st, m, o, a, f);
                let o1 = off + before.len();
                assert(rest[0] == code[o1]);
                assert(rest[1] == code[o1 + 1]);
                assert(rest[2] == code[o1 + 2]);
                assert(rest[3] == code[o1 + 3]);
                assert(f.dom().contains((class, name)));
                assert(m1.field(o, class, name) == Some(x));
                assert(m1.with_field(r, class, name, x)->0.heap =~= m2.heap);
                lemma_next(code, s, State { pc: o1, stack: st, mem: m1 }, st.push(r), m1);
                lemma_next(
                    code,
                    s,
                    State { pc: o1 + 1, stack: st.push(r), mem: m1 },
                    st.push(r).push(o),
                    m1,
                );
                lemma_next(
                    code,
                    s,
                    State { pc: o1 + 2, stack: st.push(r).push(o), mem: m1 },
                    st.push(r).push(x),
                    m1,
                );
                lemma_next(
                    code,
                    s,
                    State { pc: o1 + 3, stack: st.push(r).push(x), mem: m1 },
                    st,
                    m2,
                );
            },
        }
    }
}

proof fn lemma_s_copy(
    env: Env,
    c: SCopy,
    p: Pos,
    code: Seq<InsnView>,
    off: int,
    st: Seq<Value>,
    m: Memory,
)
    requires
        s_copy_ok(env, c),
        lone(code),
        located(code, off, s_copy_code(env, c, p)),
        s_copy_done(env, c, p, m) is Some,
    ensures
        leads(
            code,
            (State { pc: off, stack: st, mem: m }),
            (State {
                pc: off + s_copy_code(env, c, p).len(),
                stack: st,
                mem: s_copy_done(env, c, p, m)->0,
            }),
        ),
{
    broadcast use group_stack;

    reveal(effect);
    let class = env.classes[c.src.type_->Object_0 as int];
    let (name, members) = (class.name@, class.field@);
    let n = members.len();
    let (x, y) = (p.slot(0), p.slot(1));
    let q = p.step(0, 2);
    let src = expr_code(env, c.src, q);
    let new = new_object_code(name);
    let (keep_src, keep_new) = (Instruction::AStore(x), Instruction::AStore(y));
    let copy = copy_code(env, name, members, n, x, y);
    let end: Seq<InsnView> = seq![
        Instruction::ALoad(y),
        Instruction::AStore(p.var_slot(c.dst_sym)),
    ];
    assert(s_copy_code(env, c, p) == src.push(keep_src) + new.push(keep_new) + copy + end);
    lemma_located_add(code, off, src.push(keep_src) + new.push(keep_new) + copy, end);
    lemma_located_add(code, off, src.push(keep_src) + new.push(keep_new), copy);
    lemma_located_add(code, off, src.push(keep_src), new.push(keep_new));
    lemma_located_push(code, off, src, keep_src);
    let o1 = off + src.len() + 1;
    lemma_located_push(code, o1, new, keep_new);
    let o2 = o1 + 4;
    let o3 = o2 + copy.len();
    assert(end[0] == code[o3]);
    assert(end[1] == code[o3 + 1]);
    let s = State { pc: off, stack: st, mem: m };
    let (o, m1) = expr_value(env, c.src, q, m)->0;
    let m2 = m1.set(x, o);
    let a = m2.unused();
    let r = Value::Ref(Some(a));
    let f = m2.object(o)->0;
    let empty = Thing::Object(name, Map::empty());
    let m3 = m2.set(y, r);
    law_expr_value(env, c.src, q, code, off, st, m);
    lemma_next(code, s, State { pc: o1 - 1, stack: st.push(o), mem: m1 }, st, m2);
    lemma_new_object(name, code, o1, s, st, m2);
    lemma_next(
        code,
        s,
        State { pc: o1 + 3, stack: st.push(r), mem: m2.put(a, empty) },
        st,
        m3.put(a, empty),
    );
    lemma_copy(env, name, members, n, x, y, code, o2, st, m3, o, a, f);
    let m4 = m3.put(a, Thing::Object(name, copied(env, name, members, n, f)));
    lemma_leads_trans(
        code,
        s,
        State { pc: o2, stack: st, mem: m3.put(a, empty) },
        State { pc: o3, stack: st, mem: m4 },
    );
    lemma_next(code, s, State { pc: o3, stack: st, mem: m4 }, st.push(r), m4);
    lemma_next(
        code,
        s,
        State { pc: o3 + 1, stack: st.push(r), mem: m4 },
        st,
        m4.set(p.var_slot(c.dst_sym), r),
    );
}

/// The values are printed one after another.
proof fn lemma_print(
    env: Env,
    es: Seq<Expr>,
    n: nat,
    p: Pos,
    code: Seq<InsnView>,
    off: int,
    st: Seq<Value>,
    m: Memory,
)
    requires
        n <= es.len(),
        exprs_ok(env, es, n),
        lone(code),
        located(code, off, print_code(env, es, n, p)),
        print_done(env, es, n, p, m) is Some,
    ensures
        leads(
            code,
            (State { pc: off, stack: st, mem: m }),
            (State {
                pc: off + print_code(env, es, n, p).len(),
                stack: st,
                mem: print_done(env, es, n, p, m)->0,
            }),
        ),
    decreases n,
{
    broadcast use group_stack;

    reveal(effect);
    let s = State { pc: off, stack: st, mem: m };
    lemma_leads_self(code, s);
    if n > 0 {
        let k = (n - 1) as nat;
        let e = es[n - 1];
        let q = exprs_end(env, es, k, p);
        let before = print_code(env, es, k, p);
        let value = expr_code(env, e, q);
        let t = java_type(env.classes, e.type_);
        let print = print_insn(t);
        let m1 = print_done(env, es, k, p, m)->0;
        let (v, m2) = expr_value(env, e, q, m1)->0;
        let one = st.push(Value::Stream);
        assert(print_code(env, es, n, p) == before.push(print_stream()) + value.push(print));
        lemma_located_add(code, off, before.push(print_stream()), value.push(print));
        lemma_located_push(code, off, before, print_stream());
        let o1 = off + before.len();
        lemma_located_push(code, o1 + 1, value, print);
        let o2 = o1 + 1 + value.len();
        lemma_print(env, es, k, p, code, off, st, m);
        lemma_next(code, s, State { pc: o1, stack: st, mem: m1 }, one, m1);
        law_expr_value(env, e, q, code, o1 + 1, one, m1);
        lemma_leads_trans(
            code,
            s,
            State { pc: o1 + 1, stack: one, mem: m1 },
            State { pc: o2, stack: one.push(v), mem: m2 },
        );
        lemma_next(
            code,
            s,
            State { pc: o2, stack: one.push(v), mem: m2 },
            st,
            m2.print(t, v),
        );
    }
}

/// The machine comes to stand before the way out that a `return` takes.
proof fn lemma_return(
    env: Env,
    r: Return,
    p: Pos,
    code: Seq<InsnView>,
    off: int,
    st: Seq<Value>,
    m: Memory,
)
    requires
        stmt_ok(env, Stmt::Return(r), false),
        lone(code),
        located(code, off, return_code(env, r, p)),
        return_done(env, r, p, m) is Some,
    ensures
        comes(
            code,
            (State { pc: off, stack: st, mem: m }),
            0,
            0,
            st,
            return_done(env, r, p, m)->0,
        ),
{
    let s = State { pc: off, stack: st, mem: m };
    match r.expr {
        Some(e) => {
            let by = return_insn(e.type_);
            let value = expr_code(env, e, p);
            let (v, m1) = expr_value(env, e, p, m)->0;
            lemma_located_push(code, off, value, by);
            law_expr_value(env, e, p, code, off, st, m);
            lemma_gives_back(code, s, off + value.len(), by, st, Some(v), m1);
        },
        None => {
            let part = return_code(env, r, p);
            assert(part[0] == code[off]);
            lemma_leads_self(code, s);
            lemma_gives_back(code, s, off, Instruction::Return, st, None, m);
        },
    }
}

// ---------------------------------------------------------------------------------------------
// Branches and loops
// ---------------------------------------------------------------------------------------------

/// From `s` the machine comes to stand before the instruction `by`, with the value above `st`.
pub open spec fn stands(
    code: Seq<InsnView>,
    s: State,
    pc: int,
    by: InsnView,
    st: Seq<Value>,
    value: Option<Value>,
    m: Memory,
) -> bool {
    let stack = match value {
        Some(v) => st.push(v),
        None => st,
    };
    &&& 0 <= pc < code.len()
    &&& code[pc] == by
    &&& leads(code, s, State { pc, stack, mem: m })
}

/// From `s` the machine comes to stand before some instruction `by`, with the value above `st`.
#[verifier::opaque]
pub open spec fn gives_back(
    code: Seq<InsnView>,
    s: State,
    by: InsnView,
    st: Seq<Value>,
    value: Option<Value>,
    m: Memory,
) -> bool {
    exists|pc: int| #[trigger] stands(code, s, pc, by, st, value, m)
}

proof fn lemma_gives_back(
    code: Seq<InsnView>,
    s: State,
    pc: int,
    by: InsnView,
    st: Seq<Value>,
    value: Option<Value>,
    m: Memory,
)
    requires
        stands(code, s, pc, by, st, value, m),
    ensures
        gives_back(code, s, by, st, value, m),
{
    reveal(gives_back);
}

/// From `s` the machine comes to `end`, or to `out` where a `break` has left the loop, with the
/// stack `st`; where a `return` leaves the method, it comes to stand before the way out.
pub open spec fn comes(
    code: Seq<InsnView>,
    s: State,
    end: int,
    out: int,
    st: Seq<Value>,
    o: Outcome,
) -> bool {
    match o {
        Outcome::Done(m) => leads(code, s, State { pc: end, stack: st, mem: m }),
        Outcome::Left(m) => leads(code, s, State { pc: out, stack: st, mem: m }),
        Outcome::Returned { by, value, mem } => gives_back(code, s, by, st, value, mem),
    }
}

/// From its start, the code of length `len` comes to its end, or behind the loop, or to a way out
/// of the method. The stack is as it was, with what is returned above it.
pub open spec fn ends(
    code: Seq<InsnView>,
    off: int,
    len: nat,
    out: int,
    st: Seq<Value>,
    m: Memory,
    o: Outcome,
) -> bool {
    comes(code, State { pc: off, stack: st, mem: m }, off + len, out, st, o)
}

/// The position behind the loop that a statement stands in.
pub open spec fn exit(code: Seq<InsnView>, in_loop: bool, brk: u16, out: int) -> bool {
    in_loop ==> 0 <= out < code.len() && marks(code[out], brk)
}

/// A condition and the jump over what it guards.
proof fn lemma_test(
    env: Env,
    e: Expr,
    p: Pos,
    code: Seq<InsnView>,
    off: int,
    l: u16,
    to: int,
    s: State,
    st: Seq<Value>,
    m: Memory,
)
    requires
        expr_ok(env, e),
        lone(code),
        located(code, off, expr_code(env, e, p).push(Instruction::IfEq(l))),
        leads(code, s, (State { pc: off, stack: st, mem: m })),
        test(env, e, p, m) is Some,
        0 <= to < code.len(),
        marks(code[to], l),
    ensures
        ({
            let (yes, m1) = test(env, e, p, m)->0;
            leads(
                code,
                s,
                (State {
                    pc: if yes {
                        off + expr_code(env, e, p).len() + 1
                    } else {
                        to
                    },
                    stack: st,
                    mem: m1,
                }),
            )
        }),
{
    broadcast use group_stack;

    let cond = expr_code(env, e, p);
    let (v, m1) = expr_value(env, e, p, m)->0;
    let (yes, _) = test(env, e, p, m)->0;
    lemma_located_push(code, off, cond, Instruction::IfEq(l));
    law_expr_value(env, e, p, code, off, st, m);
    let t = State { pc: off + cond.len(), stack: st.push(v), mem: m1 };
    lemma_leads_trans(code, s, State { pc: off, stack: st, mem: m }, t);
    lemma_jump(
        code,
        s,
        t,
        1,
        !yes,
        if yes {
            off + cond.len() + 1
        } else {
            to
        },
    );
}

/// A label is stepped over.
proof fn lemma_label(code: Seq<InsnView>, s: State, pc: int, st: Seq<Value>, m: Memory)
    requires
        leads(code, s, (State { pc, stack: st, mem: m })),
        0 <= pc < code.len(),
        code[pc] is Label,
    ensures
        leads(code, s, (State { pc: pc + 1, stack: st, mem: m })),
{
    reveal(effect);
    lemma_next(code, s, State { pc, stack: st, mem: m }, st, m);
}

/// A jump that is always taken.
proof fn lemma_goto(code: Seq<InsnView>, s: State, pc: int, st: Seq<Value>, m: Memory, to: int)
    requires
        lone(code),
        leads(code, s, (State { pc, stack: st, mem: m })),
        0 <= pc < code.len(),
        code[pc] is Goto,
        0 <= to < code.len(),
        marks(code[to], code[pc]->Goto_0),
    ensures
        leads(code, s, (State { pc: to, stack: st, mem: m })),
{
    lemma_jump(code, s, State { pc, stack: st, mem: m }, 0, true, to);
    assert(under(st, 0) =~= st);
}

/// The code of a statement that comes to an end does what the statement does: it changes the
/// memory in the same way, leaves the stack as it was, and goes on behind the statement, or behind
/// the loop where a `break` has left it. Where a `return` leaves the method, the machine comes to
/// stand before the instruction that returns, with the value that is returned on top.
pub proof fn law_stmt_done(
    env: Env,
    s: Stmt,
    in_loop: bool,
    brk: u16,
    out: int,
    p: Pos,
    code: Seq<InsnView>,
    off: int,
    st: Seq<Value>,
    m: Memory,
    fuel: nat,
)
    requires
        stmt_ok(env, s, in_loop),
        lone(code),
        exit(code, in_loop, brk, out),
        located(code, off, stmt_code(env, s, brk, p)),
        stmt_done(env, s, p, m, fuel) is Some,
    ensures
        ends(
            code,
            off,
            stmt_code(env, s, brk, p).len(),
            out,
            st,
            m,
            stmt_done(env, s, p, m, fuel)->0,
        ),
    decreases fuel, s, 0nat,
{
    let from = State { pc: off, stack: st, mem: m };
    match s {
        Stmt::Simple(x) => {
            law_simple_done(env, x, p, code, off, st, m);
        },
        Stmt::If(x) => {
            lemma_if(env, x, in_loop, brk, out, p, code, off, st, m, fuel);
        },
        Stmt::While(x) => {
            lemma_while(env, x, p, code, off, st, m, fuel);
        },
        Stmt::For(x) => {
            lemma_for(env, x, p, code, off, st, m, fuel);
        },
        Stmt::Break => {
            let part = stmt_code(env, s, brk, p);
            assert(part[0] == code[off]);
            lemma_leads_self(code, from);
            lemma_goto(code, from, off, st, m, out);
        },
        Stmt::SCopy(c) => {
            lemma_s_copy(env, c, p, code, off, st, m);
        },
        Stmt::Foreach(x) => {
            lemma_foreach(env, x, p, code, off, st, m, fuel);
        },
        Stmt::Guarded(g) => {
            let n = g.guarded@.len();
            lemma_guards(env, g.guarded@, n, in_loop, brk, out, p, code, off, st, m, fuel);
        },
        Stmt::Block(b) => {
            lemma_block(env, b, in_loop, brk, out, p, code, off, st, m, fuel);
        },
        Stmt::Return(r) => {
            lemma_return(env, r, p, code, off, st, m);
        },
        Stmt::Print(x) => {
            lemma_print(env, x.print@, x.print@.len(), p, code, off, st, m);
        },
    }
}

proof fn lemma_block(
    env: Env,
    b: Block,
    in_loop: bool,
    brk: u16,
    out: int,
    p: Pos,
    code: Seq<InsnView>,
    off: int,
    st: Seq<Value>,
    m: Memory,
    fuel: nat,
)
    requires
        block_ok(env, b, in_loop),
        lone(code),
        exit(code, in_loop, brk, out),
        located(code, off, block_code(env, b, brk, p)),
        block_done(env, b, p, m, fuel) is Some,
    ensures
        ends(
            code,
            off,
            block_code(env, b, brk, p).len(),
            out,
            st,
            m,
            block_done(env, b, p, m, fuel)->0,
        ),
    decreases fuel, b, 0nat,
{
    lemma_stmts(env, b.stmt@, b.stmt@.len(), in_loop, brk, out, p, code, off, st, m, fuel);
}

proof fn lemma_stmts(
    env: Env,
    ss: Seq<Stmt>,
    n: nat,
    in_loop: bool,
    brk: u16,
    out: int,
    p: Pos,
    code: Seq<InsnView>,
    off: int,
    st: Seq<Value>,
    m: Memory,
    fuel: nat,
)
    requires
        n <= ss.len(),
        stmts_ok(env, ss, n, in_loop),
        lone(code),
        exit(code, in_loop, brk, out),
        located(code, off, stmts_code(env, ss, n, brk, p)),
        stmts_done(env, ss, n, p, m, fuel) is Some,
    ensures
        ends(
            code,
            off,
            stmts_code(env, ss, n, brk, p).len(),
            out,
            st,
            m,
            stmts_done(env, ss, n, p, m, fuel)->0,
        ),
    decreases fuel, ss, n,
{
    let from = State { pc: off, stack: st, mem: m };
    if n == 0 {
        lemma_leads_self(code, from);
    } else {
        let k = (n - 1) as nat;
        let q = stmts_end(env, ss, k, p);
        let (x, y) = (stmts_code(env, ss, k, brk, p), stmt_code(env, ss[n - 1], brk, q));
        lemma_located_add(code, off, x, y);
        lemma_stmts(env, ss, k, in_loop, brk, out, p, code, off, st, m, fuel);
        if let Outcome::Done(m1) = stmts_done(env, ss, k, p, m, fuel)->0 {
            law_stmt_done(
                env,
                ss[n - 1],
                in_loop,
                brk,
                out,
                q,
                code,
                off + x.len(),
                st,
                m1,
                fuel,
            );
            lemma_after(
                code,
                from,
                off + x.len(),
                y.len(),
                out,
                st,
                m1,
                stmt_done(env, ss[n - 1], q, m1, fuel)->0,
            );
        }
    }
}

/// Two stretches one after the other, of which the first comes to its end.
proof fn lemma_after(
    code: Seq<InsnView>,
    s: State,
    off: int,
    len: nat,
    out: int,
    st: Seq<Value>,
    m: Memory,
    o: Outcome,
)
    requires
        leads(code, s, (State { pc: off, stack: st, mem: m })),
        ends(code, off, len, out, st, m, o),
    ensures
        comes(code, s, off + len, out, st, o),
{
    let mid = State { pc: off, stack: st, mem: m };
    match o {
        Outcome::Done(m2) => {
            lemma_leads_trans(code, s, mid, State { pc: off + len, stack: st, mem: m2 });
        },
        Outcome::Left(m2) => {
            lemma_leads_trans(code, s, mid, State { pc: out, stack: st, mem: m2 });
        },
        Outcome::Returned { by, value, mem } => {
            reveal(gives_back);
            let pc = choose|pc: int| #[trigger] stands(code, mid, pc, by, st, value, mem);
            let stack = match value {
                Some(v) => st.push(v),
                None => st,
            };
            lemma_leads_trans(code, s, mid, State { pc, stack, mem });
            lemma_gives_back(code, s, pc, by, st, value, mem);
        },
    }
}

#[verifier::rlimit(30)]
proof fn lemma_if(
    env: Env,
    x: If,
    in_loop: bool,
    brk: u16,
    out: int,
    p: Pos,
    code: Seq<InsnView>,
    off: int,
    st: Seq<Value>,
    m: Memory,
    fuel: nat,
)
    requires
        stmt_ok(env, Stmt::If(x), in_loop),
        lone(code),
        exit(code, in_loop, brk, out),
        located(code, off, if_code(env, x, brk, p)),
        if_done(env, x, p, m, fuel) is Some,
    ensures
        ends(
            code,
            off,
            if_code(env, x, brk, p).len(),
            out,
            st,
            m,
            if_done(env, x, p, m, fuel)->0,
        ),
    decreases fuel, x, 0nat,
{
    let s = State { pc: off, stack: st, mem: m };
    let q = p.step(2, 0);
    let r = q.past(env, x.cond);
    let u = block_end(env, x.on_true, r);
    let jump = Instruction::IfEq(p.at(0));
    let cond = expr_code(env, x.cond, q).push(jump);
    let on_true = block_code(env, x.on_true, brk, r);
    let mid: Seq<InsnView> = seq![Instruction::Goto(p.at(1)), Instruction::Label(p.at(0))];
    let on_false = match x.on_false {
        Some(b) => block_code(env, b, brk, u),
        None => Seq::empty(),
    };
    let end = Instruction::Label(p.at(1));
    assert(if_code(env, x, brk, p) == cond + on_true + mid + on_false.push(end));
    lemma_located_add(code, off, cond + on_true + mid, on_false.push(end));
    lemma_located_add(code, off, cond + on_true, mid);
    lemma_located_add(code, off, cond, on_true);
    let o1 = off + cond.len();
    let o2 = o1 + on_true.len();
    let o3 = o2 + 2;
    lemma_located_push(code, o3, on_false, end);
    let o4 = o3 + on_false.len();
    assert(mid[0] == code[o2]);
    assert(mid[1] == code[o2 + 1]);
    lemma_leads_self(code, s);
    lemma_test(env, x.cond, q, code, off, p.at(0), o2 + 1, s, st, m);
    let (yes, m1) = test(env, x.cond, q, m)->0;
    if yes {
        let o = block_done(env, x.on_true, r, m1, fuel)->0;
        lemma_block(env, x.on_true, in_loop, brk, out, r, code, o1, st, m1, fuel);
        lemma_after(code, s, o1, on_true.len(), out, st, m1, o);
        if let Outcome::Done(m2) = o {
            lemma_goto(code, s, o2, st, m2, o4);
            lemma_label(code, s, o4, st, m2);
        }
    } else {
        lemma_label(code, s, o2 + 1, st, m1);
        match x.on_false {
            Some(b) => {
                let o = block_done(env, b, u, m1, fuel)->0;
                lemma_block(env, b, in_loop, brk, out, u, code, o3, st, m1, fuel);
                lemma_after(code, s, o3, on_false.len(), out, st, m1, o);
                if let Outcome::Done(m2) = o {
                    lemma_label(code, s, o4, st, m2);
                }
            },
            None => {
                lemma_label(code, s, o4, st, m1);
            },
        }
    }
}

proof fn lemma_while(
    env: Env,
    x: While,
    p: Pos,
    code: Seq<InsnView>,
    off: int,
    st: Seq<Value>,
    m: Memory,
    fuel: nat,
)
    requires
        stmt_ok(env, Stmt::While(x), false),
        lone(code),
        located(code, off, while_code(env, x, p)),
        while_done(env, x, p, m, fuel) is Some,
    ensures
        !(while_done(env, x, p, m, fuel)->0 is Left),
        ends(
            code,
            off,
            while_code(env, x, p).len(),
            0,
            st,
            m,
            while_done(env, x, p, m, fuel)->0,
        ),
    decreases fuel, x, 0nat,
{
    let s = State { pc: off, stack: st, mem: m };
    let q = p.step(2, 0);
    let r = q.past(env, x.cond);
    let start: Seq<InsnView> = seq![Instruction::Label(p.at(0))];
    let cond = expr_code(env, x.cond, q).push(Instruction::IfEq(p.at(1)));
    let body = block_code(env, x.body, p.at(1), r);
    let end: Seq<InsnView> = seq![Instruction::Goto(p.at(0)), Instruction::Label(p.at(1))];
    assert(while_code(env, x, p) == start + cond + body + end);
    lemma_located_add(code, off, start + cond + body, end);
    lemma_located_add(code, off, start + cond, body);
    lemma_located_add(code, off, start, cond);
    let o1 = off + 1;
    let o2 = o1 + cond.len();
    let o3 = o2 + body.len();
    assert(start[0] == code[off]);
    assert(end[0] == code[o3]);
    assert(end[1] == code[o3 + 1]);
    lemma_leads_self(code, s);
    lemma_label(code, s, off, st, m);
    lemma_test(env, x.cond, q, code, o1, p.at(1), o3 + 1, s, st, m);
    let (yes, m1) = test(env, x.cond, q, m)->0;
    if yes {
        let o = block_done(env, x.body, r, m1, fuel)->0;
        lemma_block(env, x.body, true, p.at(1), o3 + 1, r, code, o2, st, m1, fuel);
        lemma_after(code, s, o2, body.len(), o3 + 1, st, m1, o);
        match o {
            Outcome::Done(m2) => {
                let f = (fuel - 1) as nat;
                lemma_goto(code, s, o3, st, m2, off);
                lemma_while(env, x, p, code, off, st, m2, f);
                lemma_after(
                    code,
                    s,
                    off,
                    while_code(env, x, p).len(),
                    0,
                    st,
                    m2,
                    while_done(env, x, p, m2, f)->0,
                );
            },
            Outcome::Left(m2) => {
                lemma_label(code, s, o3 + 1, st, m2);
            },
            _ => {},
        }
    } else {
        lemma_label(code, s, o3 + 1, st, m1);
    }
}

proof fn lemma_for(
    env: Env,
    x: For,
    p: Pos,
    code: Seq<InsnView>,
    off: int,
    st: Seq<Value>,
    m: Memory,
    fuel: nat,
)
    requires
        stmt_ok(env, Stmt::For(x), false),
        lone(code),
        located(code, off, for_code(env, x, p)),
        stmt_done(env, Stmt::For(x), p, m, fuel) is Some,
    ensures
        !(stmt_done(env, Stmt::For(x), p, m, fuel)->0 is Left),
        ends(
            code,
            off,
            for_code(env, x, p).len(),
            0,
            st,
            m,
            stmt_done(env, Stmt::For(x), p, m, fuel)->0,
        ),
    decreases fuel, x, 1nat,
{
    let s = State { pc: off, stack: st, mem: m };
    let q = p.step(2, 0);
    let init = simple_code(env, x.init, q);
    let rounds = for_rounds(env, x, p);
    let m1 = simple_done(env, x.init, q, m)->0;
    lemma_for_code(env, x, p);
    lemma_located_add(code, off, init, rounds);
    law_simple_done(env, x.init, q, code, off, st, m);
    lemma_for_rounds(env, x, p, code, off + init.len(), st, m1, fuel);
    lemma_after(
        code,
        s,
        off + init.len(),
        rounds.len(),
        0,
        st,
        m1,
        for_done(env, x, p, m1, fuel)->0,
    );
}

/// The code of a loop with an update, behind its first part.
spec fn for_rounds(env: Env, x: For, p: Pos) -> Seq<InsnView> {
    let r = simple_end(env, x.init, p.step(2, 0));
    let t = r.past(env, x.cond);
    seq![Instruction::Label(p.at(0))] + expr_code(env, x.cond, r).push(
        Instruction::IfEq(p.at(1)),
    ) + block_code(env, x.body, p.at(1), t) + simple_code(
        env,
        x.update,
        block_end(env, x.body, t),
    ) + seq![Instruction::Goto(p.at(0)), Instruction::Label(p.at(1))]
}

proof fn lemma_for_code(env: Env, x: For, p: Pos)
    ensures
        for_code(env, x, p) == simple_code(env, x.init, p.step(2, 0)) + for_rounds(env, x, p),
{
    assert(for_code(env, x, p) =~= simple_code(env, x.init, p.step(2, 0)) + for_rounds(
        env,
        x,
        p,
    ));
}

proof fn lemma_for_rounds(
    env: Env,
    x: For,
    p: Pos,
    code: Seq<InsnView>,
    off: int,
    st: Seq<Value>,
    m: Memory,
    fuel: nat,
)
    requires
        stmt_ok(env, Stmt::For(x), false),
        lone(code),
        located(code, off, for_rounds(env, x, p)),
        for_done(env, x, p, m, fuel) is Some,
    ensures
        !(for_done(env, x, p, m, fuel)->0 is Left),
        ends(
            code,
            off,
            for_rounds(env, x, p).len(),
            0,
            st,
            m,
            for_done(env, x, p, m, fuel)->0,
        ),
    decreases fuel, x, 0nat,
{
    let s = State { pc: off, stack: st, mem: m };
    let r = simple_end(env, x.init, p.step(2, 0));
    let t = r.past(env, x.cond);
    let u = block_end(env, x.body, t);
    let start: Seq<InsnView> = seq![Instruction::Label(p.at(0))];
    let cond = expr_code(env, x.cond, r).push(Instruction::IfEq(p.at(1)));
    let body = block_code(env, x.body, p.at(1), t);
    let update = simple_code(env, x.update, u);
    let end: Seq<InsnView> = seq![Instruction::Goto(p.at(0)), Instruction::Label(p.at(1))];
    lemma_located_add(code, off, start + cond + body + update, end);
    lemma_located_add(code, off, start + cond + body, update);
    lemma_located_add(code, off, start + cond, body);
    lemma_located_add(code, off, start, cond);
    let o1 = off + 1;
    let o2 = o1 + cond.len();
    let o3 = o2 + body.len();
    let o4 = o3 + update.len();
    assert(start[0] == code[off]);
    assert(end[0] == code[o4]);
    assert(end[1] == code[o4 + 1]);
    lemma_leads_self(code, s);
    lemma_label(code, s, off, st, m);
    lemma_test(env, x.cond, r, code, o1, p.at(1), o4 + 1, s, st, m);
    let (yes, m1) = test(env, x.cond, r, m)->0;
    if yes {
        let o = block_done(env, x.body, t, m1, fuel)->0;
        lemma_block(env, x.body, true, p.at(1), o4 + 1, t, code, o2, st, m1, fuel);
        lemma_after(code, s, o2, body.len(), o4 + 1, st, m1, o);
        match o {
            Outcome::Done(m2) => {
                let f = (fuel - 1) as nat;
                let m3 = simple_done(env, x.update, u, m2)->0;
                law_simple_done(env, x.update, u, code, o3, st, m2);
                lemma_leads_trans(
                    code,
                    s,
                    State { pc: o3, stack: st, mem: m2 },
                    State { pc: o4, stack: st, mem: m3 },
                );
                lemma_goto(code, s, o4, st, m3, off);
                lemma_for_rounds(env, x, p, code, off, st, m3, f);
                lemma_after(
                    code,
                    s,
                    off,
                    for_rounds(env, x, p).len(),
                    0,
                    st,
                    m3,
                    for_done(env, x, p, m3, f)->0,
                );
            },
            Outcome::Left(m2) => {
                lemma_label(code, s, o4 + 1, st, m2);
            },
            _ => {},
        }
    } else {
        lemma_label(code, s, o4 + 1, st, m1);
    }
}

proof fn lemma_guards(
    env: Env,
    gs: Seq<(Expr, Block)>,
    n: nat,
    in_loop: bool,
    brk: u16,
    out: int,
    p: Pos,
    code: Seq<InsnView>,
    off: int,
    st: Seq<Value>,
    m: Memory,
    fuel: nat,
)
    requires
        n <= gs.len(),
        guards_ok(env, gs, n, in_loop),
        lone(code),
        exit(code, in_loop, brk, out),
        located(code, off, guards_code(env, gs, n, brk, p)),
        guards_done(env, gs, n, p, m, fuel) is Some,
    ensures
        ends(
            code,
            off,
            guards_code(env, gs, n, brk, p).len(),
            out,
            st,
            m,
            guards_done(env, gs, n, p, m, fuel)->0,
        ),
    decreases fuel, gs, n,
{
    let s = State { pc: off, stack: st, mem: m };
    lemma_leads_self(code, s);
    if n > 0 {
        let k = (n - 1) as nat;
        let q = guards_end(env, gs, k, p);
        let r = q.step(1, 0);
        let t = r.past(env, gs[n - 1].0);
        let before = guards_code(env, gs, k, brk, p);
        let cond = expr_code(env, gs[n - 1].0, r).push(Instruction::IfEq(q.at(0)));
        let body = block_code(env, gs[n - 1].1, brk, t);
        let end = Instruction::Label(q.at(0));
        assert(guards_code(env, gs, n, brk, p) == before + cond + body.push(end));
        lemma_located_add(code, off, before + cond, body.push(end));
        lemma_located_add(code, off, before, cond);
        let o1 = off + before.len();
        let o2 = o1 + cond.len();
        lemma_located_push(code, o2, body, end);
        let o3 = o2 + body.len();
        lemma_guards(env, gs, k, in_loop, brk, out, p, code, off, st, m, fuel);
        if let Outcome::Done(m1) = guards_done(env, gs, k, p, m, fuel)->0 {
            let (yes, m2) = test(env, gs[n - 1].0, r, m1)->0;
            lemma_test(env, gs[n - 1].0, r, code, o1, q.at(0), o3, s, st, m1);
            if yes {
                let o = block_done(env, gs[n - 1].1, t, m2, fuel)->0;
                lemma_block(env, gs[n - 1].1, in_loop, brk, out, t, code, o2, st, m2, fuel);
                lemma_after(code, s, o2, body.len(), out, st, m2, o);
                if let Outcome::Done(m3) = o {
                    lemma_label(code, s, o3, st, m3);
                }
            } else {
                lemma_label(code, s, o3, st, m2);
            }
        }
    }
}

/// What a walk over an array does at the start of each round: take the element, or leave behind
/// the last.
spec fn foreach_head(t: SemanticType, slots: (u8, u8, u8), labels: (u16, u16)) -> Seq<InsnView> {
    seq![
        Instruction::Label(labels.0),
        Instruction::ILoad(slots.1),
        Instruction::ALoad(slots.2),
        Instruction::ArrayLength,
        Instruction::IfICmpGe(labels.1),
        Instruction::ALoad(slots.2),
        Instruction::ILoad(slots.1),
        array_load_insn(t),
        store_insn(t, slots.0),
    ]
}

proof fn lemma_head(
    t: SemanticType,
    slots: (u8, u8, u8),
    labels: (u16, u16),
    code: Seq<InsnView>,
    off: int,
    to: int,
    st: Seq<Value>,
    m: Memory,
    i: i32,
    elems: Seq<Value>,
)
    requires
        lone(code),
        located(code, off, foreach_head(t, slots, labels)),
        0 <= to < code.len(),
        marks(code[to], labels.1),
        m.locals.dom().contains(slots.1),
        m.locals.dom().contains(slots.2),
        m.locals[slots.1] == Value::Int(i),
        m.array(m.locals[slots.2]) == Some(elems),
        elems.len() <= i32::MAX,
        i >= 0,
    ensures
        i < elems.len() ==> leads(
            code,
            (State { pc: off, stack: st, mem: m }),
            (State { pc: off + 9, stack: st, mem: m.set(slots.0, elems[i as int]) }),
        ),
        i >= elems.len() ==> leads(
            code,
            (State { pc: off, stack: st, mem: m }),
            (State { pc: to, stack: st, mem: m }),
        ),
{
    broadcast use group_stack;

    reveal(effect);
    let s = State { pc: off, stack: st, mem: m };
    let part = foreach_head(t, slots, labels);
    let (x, a, len) = (Value::Int(i), m.locals[slots.2], Value::Int(elems.len() as i32));
    assert(part[0] == code[off]);
    assert(part[1] == code[off + 1]);
    assert(part[2] == code[off + 2]);
    assert(part[3] == code[off + 3]);
    assert(part[4] == code[off + 4]);
    assert(part[5] == code[off + 5]);
    assert(part[6] == code[off + 6]);
    assert(part[7] == code[off + 7]);
    assert(part[8] == code[off + 8]);
    lemma_leads_self(code, s);
    lemma_next(code, s, s, st, m);
    lemma_next(code, s, State { pc: off + 1, stack: st, mem: m }, st.push(x), m);
    lemma_next(code, s, State { pc: off + 2, stack: st.push(x), mem: m }, st.push(x).push(a), m);
    lemma_next(
        code,
        s,
        State { pc: off + 3, stack: st.push(x).push(a), mem: m },
        st.push(x).push(len),
        m,
    );
    let t4 = State { pc: off + 4, stack: st.push(x).push(len), mem: m };
    if i >= elems.len() {
        lemma_jump(code, s, t4, 2, true, to);
    } else {
        let v = elems[i as int];
        lemma_jump(code, s, t4, 2, false, off + 5);
        lemma_next(code, s, State { pc: off + 5, stack: st, mem: m }, st.push(a), m);
        lemma_next(
            code,
            s,
            State { pc: off + 6, stack: st.push(a), mem: m },
            st.push(a).push(x),
            m,
        );
        lemma_next(
            code,
            s,
            State { pc: off + 7, stack: st.push(a).push(x), mem: m },
            st.push(v),
            m,
        );
        lemma_next(
            code,
            s,
            State { pc: off + 8, stack: st.push(v), mem: m },
            st,
            m.set(slots.0, v),
        );
    }
}

/// The code of a walk over an array, behind its first part.
spec fn foreach_rounds(env: Env, x: Foreach, p: Pos) -> Seq<InsnView> {
    let r = foreach_array(env, x, p).past(env, x.arr);
    foreach_head(
        env.vars[x.def as int].type_,
        foreach_slots(env, x, p),
        (r.at(0), r.at(1)),
    ) + match x.cond {
        Some(e) => expr_code(env, e, foreach_cond(env, x, p)).push(Instruction::IfEq(r.at(1))),
        None => Seq::empty(),
    } + block_code(env, x.body, r.at(1), foreach_body(env, x, p)) + seq![
        Instruction::IInc(foreach_slots(env, x, p).1, 1),
        Instruction::Goto(r.at(0)),
        Instruction::Label(r.at(1)),
    ]
}

/// The first part: the counter is 0, and the array is at hand.
spec fn foreach_start(env: Env, x: Foreach, p: Pos) -> Seq<InsnView> {
    (seq![Instruction::IntConst(0), Instruction::IStore(foreach_slots(env, x, p).1)] + expr_code(
        env,
        x.arr,
        foreach_array(env, x, p),
    )).push(Instruction::AStore(foreach_slots(env, x, p).2))
}

proof fn lemma_foreach_code(env: Env, x: Foreach, p: Pos)
    ensures
        foreach_code(env, x, p) == foreach_start(env, x, p) + foreach_rounds(env, x, p),
{
    let (whole, start, rounds) = (
        foreach_code(env, x, p),
        foreach_start(env, x, p),
        foreach_rounds(env, x, p),
    );
    let first = start.drop_last();
    let r = foreach_array(env, x, p).past(env, x.arr);
    let t = env.vars[x.def as int].type_;
    let head = foreach_head(t, foreach_slots(env, x, p), (r.at(0), r.at(1)));
    let long: Seq<InsnView> = seq![
        Instruction::AStore(foreach_slots(env, x, p).2),
        Instruction::Label(r.at(0)),
        Instruction::ILoad(foreach_slots(env, x, p).1),
        Instruction::ALoad(foreach_slots(env, x, p).2),
        Instruction::ArrayLength,
        Instruction::IfICmpGe(r.at(1)),
        Instruction::ALoad(foreach_slots(env, x, p).2),
        Instruction::ILoad(foreach_slots(env, x, p).1),
        array_load_insn(t),
        store_insn(t, foreach_slots(env, x, p).0),
    ];
    assert(long =~= seq![long[0]] + head);
    assert(whole =~= start + rounds);
}

proof fn lemma_foreach(
    env: Env,
    x: Foreach,
    p: Pos,
    code: Seq<InsnView>,
    off: int,
    st: Seq<Value>,
    m: Memory,
    fuel: nat,
)
    requires
        foreach_ok(env, x),
        lone(code),
        located(code, off, foreach_code(env, x, p)),
        stmt_done(env, Stmt::Foreach(x), p, m, fuel) is Some,
    ensures
        !(stmt_done(env, Stmt::Foreach(x), p, m, fuel)->0 is Left),
        ends(
            code,
            off,
            foreach_code(env, x, p).len(),
            0,
            st,
            m,
            stmt_done(env, Stmt::Foreach(x), p, m, fuel)->0,
        ),
    decreases fuel, x, 1nat,
{
    broadcast use group_stack;

    reveal(effect);
    let s = State { pc: off, stack: st, mem: m };
    let q = foreach_array(env, x, p);
    let (start, rounds) = (foreach_start(env, x, p), foreach_rounds(env, x, p));
    let (_, count, _) = foreach_slots(env, x, p);
    let two: Seq<InsnView> = seq![Instruction::IntConst(0), Instruction::IStore(count)];
    let arr = expr_code(env, x.arr, q);
    let m1 = m.set(foreach_slots(env, x, p).1, Value::Int(0));
    let (a, m2) = expr_value(env, x.arr, q, m1)->0;
    let m3 = m2.set(foreach_slots(env, x, p).2, a);
    lemma_foreach_code(env, x, p);
    lemma_located_add(code, off, start, rounds);
    lemma_located_push(code, off, two + arr, Instruction::AStore(foreach_slots(env, x, p).2));
    lemma_located_add(code, off, two, arr);
    assert(two[0] == code[off]);
    assert(two[1] == code[off + 1]);
    let o1 = off + 2 + arr.len();
    lemma_leads_self(code, s);
    lemma_next(code, s, s, st.push(Value::Int(0)), m);
    lemma_next(code, s, State { pc: off + 1, stack: st.push(Value::Int(0)), mem: m }, st, m1);
    law_expr_value(env, x.arr, q, code, off + 2, st, m1);
    lemma_leads_trans(
        code,
        s,
        State { pc: off + 2, stack: st, mem: m1 },
        State { pc: o1, stack: st.push(a), mem: m2 },
    );
    lemma_next(code, s, State { pc: o1, stack: st.push(a), mem: m2 }, st, m3);
    lemma_foreach_rounds(env, x, p, code, o1 + 1, st, m3, fuel);
    lemma_after(
        code,
        s,
        o1 + 1,
        rounds.len(),
        0,
        st,
        m3,
        foreach_done(env, x, p, m3, fuel)->0,
    );
}

proof fn lemma_foreach_rounds(
    env: Env,
    x: Foreach,
    p: Pos,
    code: Seq<InsnView>,
    off: int,
    st: Seq<Value>,
    m: Memory,
    fuel: nat,
)
    requires
        foreach_ok(env, x),
        lone(code),
        located(code, off, foreach_rounds(env, x, p)),
        foreach_done(env, x, p, m, fuel) is Some,
    ensures
        !(foreach_done(env, x, p, m, fuel)->0 is Left),
        ends(
            code,
            off,
            foreach_rounds(env, x, p).len(),
            0,
            st,
            m,
            foreach_done(env, x, p, m, fuel)->0,
        ),
    decreases fuel, x, 0nat,
{
    let s = State { pc: off, stack: st, mem: m };
    let r = foreach_array(env, x, p).past(env, x.arr);
    let t = env.vars[x.def as int].type_;
    let slots = foreach_slots(env, x, p);
    let labels = (r.at(0), r.at(1));
    let q = foreach_body(env, x, p);
    let head = foreach_head(t, slots, labels);
    let cond = match x.cond {
        Some(e) => expr_code(env, e, foreach_cond(env, x, p)).push(Instruction::IfEq(r.at(1))),
        None => Seq::empty(),
    };
    let body = block_code(env, x.body, r.at(1), q);
    let end: Seq<InsnView> = seq![
        Instruction::IInc(foreach_slots(env, x, p).1, 1),
        Instruction::Goto(r.at(0)),
        Instruction::Label(r.at(1)),
    ];
    assert(foreach_rounds(env, x, p) == head + cond + body + end);
    lemma_located_add(code, off, head + cond + body, end);
    lemma_located_add(code, off, head + cond, body);
    lemma_located_add(code, off, head, cond);
    let o1 = off + 9;
    let o2 = o1 + cond.len();
    let o3 = o2 + body.len();
    assert(head[0] == code[off]);
    assert(end[0] == code[o3]);
    assert(end[1] == code[o3 + 1]);
    assert(end[2] == code[o3 + 2]);
    let i = m.locals[foreach_slots(env, x, p).1]->Int_0;
    let elems = m.array(m.locals[foreach_slots(env, x, p).2])->0;
    lemma_head(t, slots, labels, code, off, o3 + 2, st, m, i, elems);
    if i >= elems.len() {
        lemma_label(code, s, o3 + 2, st, m);
    } else {
        let m1 = m.set(foreach_slots(env, x, p).0, elems[i as int]);
        let (yes, m2) = foreach_test(env, x, p, m1)->0;
        if let Some(e) = x.cond {
            lemma_test(
                env,
                e,
                foreach_cond(env, x, p),
                code,
                o1,
                r.at(1),
                o3 + 2,
                s,
                st,
                m1,
            );
        }
        if yes {
            let o = block_done(env, x.body, q, m2, fuel)->0;
            lemma_block(env, x.body, true, r.at(1), o3 + 2, q, code, o2, st, m2, fuel);
            lemma_after(code, s, o2, body.len(), o3 + 2, st, m2, o);
            match o {
                Outcome::Done(m3) => {
                    let f = (fuel - 1) as nat;
                    let m4 = m3.set(
                        foreach_slots(env, x, p).1,
                        Value::Int(wrapped(m3.locals[foreach_slots(env, x, p).1]->Int_0 + 1)),
                    );
                    lemma_count_up(code, s, o3, foreach_slots(env, x, p).1, st, m3);
                    lemma_goto(code, s, o3 + 1, st, m4, off);
                    lemma_foreach_rounds(env, x, p, code, off, st, m4, f);
                    lemma_after(
                        code,
                        s,
                        off,
                        foreach_rounds(env, x, p).len(),
                        0,
                        st,
                        m4,
                        foreach_done(env, x, p, m4, f)->0,
                    );
                },
                Outcome::Left(m3) => {
                    lemma_label(code, s, o3 + 2, st, m3);
                },
                _ => {},
            }
        } else {
            lemma_label(code, s, o3 + 2, st, m2);
        }
    }
}

/// The counter of a walk goes up by one.
proof fn lemma_count_up(
    code: Seq<InsnView>,
    s: State,
    pc: int,
    x: u8,
    st: Seq<Value>,
    m: Memory,
)
    requires
        leads(code, s, (State { pc, stack: st, mem: m })),
        0 <= pc < code.len(),
        code[pc] == Instruction::<Seq<char>, Seq<JType>>::IInc(x, 1),
        m.locals.dom().contains(x),
        m.locals[x] is Int,
    ensures
        leads(
            code,
            s,
            (State {
                pc: pc + 1,
                stack: st,
                mem: m.set(x, Value::Int(wrapped(m.locals[x]->Int_0 + 1))),
            }),
        ),
{
    reveal(effect);
    lemma_next(
        code,
        s,
        State { pc, stack: st, mem: m },
        st,
        m.set(x, Value::Int(wrapped(m.locals[x]->Int_0 + 1))),
    );
}

/// In the code of a method no label is placed twice.
pub proof fn lemma_method_lone(env: Env, m: MethodView, body: Block, slots: Seq<u8>)
    requires
        body_ok(env, m, body),
    ensures
        lone(method_code(env, m, body, slots)),
{
    assert forall|l: u16| #[trigger] placed(method_code(env, m, body, slots), l) <= 1 by {
        law_method_labels(env, m, body, slots, l);
    }
}

proof fn lemma_while_done(env: Env, x: While, p: Pos, m: Memory, fuel: nat)
    requires
        while_done(env, x, p, m, fuel) is Some,
    ensures
        !(while_done(env, x, p, m, fuel)->0 is Left),
    decreases fuel,
{
    let q = p.step(2, 0);
    let (yes, m1) = test(env, x.cond, q, m)->0;
    if yes {
        let o = block_done(env, x.body, q.past(env, x.cond), m1, fuel)->0;
        if let Outcome::Done(m2) = o {
            lemma_while_done(env, x, p, m2, (fuel - 1) as nat);
        }
    }
}

proof fn lemma_for_done(env: Env, x: For, p: Pos, m: Memory, fuel: nat)
    requires
        for_done(env, x, p, m, fuel) is Some,
    ensures
        !(for_done(env, x, p, m, fuel)->0 is Left),
    decreases fuel,
{
    let r = simple_end(env, x.init, p.step(2, 0));
    let t = r.past(env, x.cond);
    let (yes, m1) = test(env, x.cond, r, m)->0;
    if yes {
        if let Outcome::Done(m2) = block_done(env, x.body, t, m1, fuel)->0 {
            let m3 = simple_done(env, x.update, block_end(env, x.body, t), m2)->0;
            lemma_for_done(env, x, p, m3, (fuel - 1) as nat);
        }
    }
}

proof fn lemma_foreach_done(env: Env, x: Foreach, p: Pos, m: Memory, fuel: nat)
    requires
        foreach_done(env, x, p, m, fuel) is Some,
    ensures
        !(foreach_done(env, x, p, m, fuel)->0 is Left),
    decreases fuel,
{
    let i = m.locals[foreach_slots(env, x, p).1]->Int_0;
    let elems = m.array(m.locals[foreach_slots(env, x, p).2])->0;
    if i < elems.len() {
        let (elem, _, _) = foreach_slots(env, x, p);
        let (yes, m2) = foreach_test(env, x, p, m.set(elem, elems[i as int]))->0;
        if yes {
            let o = block_done(env, x.body, foreach_body(env, x, p), m2, fuel)->0;
            if let Outcome::Done(m3) = o {
                let next = wrapped(m3.locals[foreach_slots(env, x, p).1]->Int_0 + 1);
                let m4 = m3.set(foreach_slots(env, x, p).1, Value::Int(next));
                lemma_foreach_done(env, x, p, m4, (fuel - 1) as nat);
            }
        }
    }
}

/// A `break` leaves no more than the loop that it stands in: a statement outside loops that comes
/// to an end is done, or returns.
pub proof fn law_breaks_stay_inside(env: Env, s: Stmt, p: Pos, m: Memory, fuel: nat)
    requires
        stmt_ok(env, s, false),
        stmt_done(env, s, p, m, fuel) is Some,
    ensures
        !(stmt_done(env, s, p, m, fuel)->0 is Left),
    decreases s, 0nat,
{
    match s {
        Stmt::If(x) => {
            let q = p.step(2, 0);
            let r = q.past(env, x.cond);
            let (yes, m1) = test(env, x.cond, q, m)->0;
            assert(stmt_done(env, s, p, m, fuel) == if_done(env, x, p, m, fuel));
            if yes {
                lemma_block_inside(env, x.on_true, r, m1, fuel);
            } else if let Some(b) = x.on_false {
                lemma_block_inside(env, b, block_end(env, x.on_true, r), m1, fuel);
            }
        },
        Stmt::While(x) => {
            lemma_while_done(env, x, p, m, fuel);
        },
        Stmt::For(x) => {
            lemma_for_done(env, x, p, simple_done(env, x.init, p.step(2, 0), m)->0, fuel);
        },
        Stmt::Foreach(x) => {
            let m1 = m.set(foreach_slots(env, x, p).1, Value::Int(0));
            let (a, m2) = expr_value(env, x.arr, foreach_array(env, x, p), m1)->0;
            lemma_foreach_done(env, x, p, m2.set(foreach_slots(env, x, p).2, a), fuel);
        },
        Stmt::Guarded(g) => {
            lemma_guards_inside(env, g.guarded@, g.guarded@.len(), p, m, fuel);
        },
        Stmt::Block(b) => {
            lemma_block_inside(env, b, p, m, fuel);
        },
        _ => {},
    }
}

proof fn lemma_block_inside(env: Env, b: Block, p: Pos, m: Memory, fuel: nat)
    requires
        block_ok(env, b, false),
        block_done(env, b, p, m, fuel) is Some,
    ensures
        !(block_done(env, b, p, m, fuel)->0 is Left),
    decreases b, 0nat,
{
    lemma_stmts_inside(env, b.stmt@, b.stmt@.len(), p, m, fuel);
}

proof fn lemma_stmts_inside(env: Env, ss: Seq<Stmt>, n: nat, p: Pos, m: Memory, fuel: nat)
    requires
        n <= ss.len(),
        stmts_ok(env, ss, n, false),
        stmts_done(env, ss, n, p, m, fuel) is Some,
    ensures
        !(stmts_done(env, ss, n, p, m, fuel)->0 is Left),
    decreases ss, n,
{
    if n > 0 {
        let k = (n - 1) as nat;
        lemma_stmts_inside(env, ss, k, p, m, fuel);
        if let Outcome::Done(m1) = stmts_done(env, ss, k, p, m, fuel)->0 {
            law_breaks_stay_inside(env, ss[n - 1], stmts_end(env, ss, k, p), m1, fuel);
        }
    }
}

proof fn lemma_guards_inside(
    env: Env,
    gs: Seq<(Expr, Block)>,
    n: nat,
    p: Pos,
    m: Memory,
    fuel: nat,
)
    requires
        n <= gs.len(),
        guards_ok(env, gs, n, false),
        guards_done(env, gs, n, p, m, fuel) is Some,
    ensures
        !(guards_done(env, gs, n, p, m, fuel)->0 is Left),
    decreases gs, n,
{
    if n > 0 {
        let k = (n - 1) as nat;
        let r = guards_end(env, gs, k, p).step(1, 0);
        lemma_guards_inside(env, gs, k, p, m, fuel);
        if let Outcome::Done(m1) = guards_done(env, gs, k, p, m, fuel)->0 {
            let (yes, m2) = test(env, gs[n - 1].0, r, m1)->0;
            if yes {
                lemma_block_inside(env, gs[n - 1].1, r.past(env, gs[n - 1].0), m2, fuel);
            }
        }
    }
}

/// How a method ends: as its body does, and where the body comes to its end, by returning the
/// initial value of the result.
pub open spec fn method_end(ret_t: SemanticType, o: Outcome) -> Outcome {
    match o {
        Outcome::Done(mem) => if ret_t == SemanticType::Basic(BasicType::Void) {
            Outcome::Returned { by: Instruction::Return, value: None, mem }
        } else {
            Outcome::Returned { by: return_insn(ret_t), value: Some(zero_value(ret_t)), mem }
        },
        other => other,
    }
}

/// A method whose body comes to an end does what the body does, and comes to stand before an
/// instruction that returns: with the value that the body returns on an otherwise empty stack, or
/// with the initial value of the result where the body returns nothing.
pub proof fn law_method_done(
    env: Env,
    m: MethodView,
    body: Block,
    slots: Seq<u8>,
    mem: Memory,
    fuel: nat,
)
    requires
        body_ok(env, m, body),
        block_done(env, body, body_start(env, m.param, slots), mem, fuel) is Some,
    ensures
        ({
            let o = block_done(env, body, body_start(env, m.param, slots), mem, fuel)->0;
            &&& method_end(m.ret_t, o) is Returned
            &&& comes(
                method_code(env, m, body, slots),
                (State { pc: 0, stack: Seq::empty(), mem }),
                0,
                0,
                Seq::empty(),
                method_end(m.ret_t, o),
            )
        }),
{
    broadcast use group_stack;

    reveal(effect);
    let p = body_start(env, m.param, slots);
    let code = method_code(env, m, body, slots);
    let part = block_code(env, body, 0, p);
    let tail = tail_code(m.ret_t);
    let s = State { pc: 0, stack: Seq::empty(), mem };
    let none = Seq::<Value>::empty();
    let o = block_done(env, body, p, mem, fuel)->0;
    assert(located(code, 0, part + tail));
    lemma_method_lone(env, m, body, slots);
    lemma_located_add(code, 0, part, tail);
    lemma_block(env, body, false, 0, 0, p, code, 0, none, mem, fuel);
    lemma_block_inside(env, body, p, mem, fuel);
    if let Outcome::Done(m1) = o {
        let o1 = part.len() as int;
        assert(tail[0] == code[o1]);
        if m.ret_t == SemanticType::Basic(BasicType::Void) {
            let by = Instruction::Return;
            lemma_gives_back(code, s, o1, by, none, None, m1);
        } else {
            let v = zero_value(m.ret_t);
            assert(tail[1] == code[o1 + 1]);
            lemma_next(code, s, State { pc: o1, stack: none, mem: m1 }, none.push(v), m1);
            let by = return_insn(m.ret_t);
            lemma_gives_back(code, s, o1 + 1, by, none, Some(v), m1);
        }
    }
}

} // verus!
