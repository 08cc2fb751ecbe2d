//! Increments and decrements: the form that gives the new value and the form that gives the old one
//! do the same, whatever the operand is.

use vstd::prelude::*;

use crate::ast::{Expr, ExprKind};
use crate::instr::{InsnView, Instruction};
use crate::machine::{
    effect, group_stack, leads, lemma_leads_self, lemma_located_add, located, lone, wrapped, Memory,
    State, Value,
};
use crate::meaning::{
    counter_value, element_tail, field_tail, lemma_counter, lemma_element_counter,
    lemma_field_counter, lemma_next, lemma_operand, local_value, yields,
};
use crate::scheme::{inc_operand, indexed_code, owner_code, post_inc_code, pre_inc_code, Env, Pos};
use crate::valid::counter_ok;
use vstd::seq_lib::{group_to_multiset_ensures, lemma_multiset_commutative};

verus! {

/// The code of the operand: the owner of a field, or an array and an index, or nothing for a local
/// variable.
pub open spec fn operand_code(env: Env, e: Expr, p: Pos) -> Seq<InsnView> {
    match e.kind {
        ExprKind::Identifier(i) => if env.field_of(i.symbol) is Some {
            owner_code(env, i.owner, p)
        } else {
            Seq::empty()
        },
        ExprKind::Indexed(i) => indexed_code(env, i, e.type_, true, p),
        _ => Seq::empty(),
    }
}

/// What follows the code of the operand.
pub open spec fn counter_tail(env: Env, e: Expr, val: i32, new: bool, p: Pos) -> Seq<InsnView> {
    match e.kind {
        ExprKind::Identifier(i) => match env.field_of(i.symbol) {
            Some(class) => field_tail(env, class, env.var(i.symbol), val, new),
            None => if new {
                seq![
                    Instruction::IInc(p.var_slot(i.symbol), inc_operand(val)),
                    Instruction::ILoad(p.var_slot(i.symbol)),
                ]
            } else {
                seq![
                    Instruction::ILoad(p.var_slot(i.symbol)),
                    Instruction::IInc(p.var_slot(i.symbol), inc_operand(val)),
                ]
            },
        },
        ExprKind::Indexed(i) => element_tail(val, new),
        _ => Seq::empty(),
    }
}

/// With the values of the operand at hand, what the target holds, and the memory in which it holds
/// `val` more and everything else is as before.
pub open spec fn counted(
    env: Env,
    e: Expr,
    val: i32,
    operand: Seq<Value>,
    slots: Seq<u8>,
    m: Memory,
) -> Option<(i32, Memory)> {
    match e.kind {
        ExprKind::Identifier(i) => match env.field_of(i.symbol) {
            Some(class) => {
                let (o, c, n) = (operand[0], env.class_name(class), env.var(i.symbol).name);
                match (operand.len() == 1, m.field(o, c, n)) {
                    (true, Some(Value::Int(v))) => match m.with_field(
                        o,
                        c,
                        n,
                        Value::Int(wrapped(v + val)),
                    ) {
                        Some(m2) => Some((v, m2)),
                        None => None,
                    },
                    _ => None,
                }
            },
            None => {
                let x = (Pos { label: 0, local: 0, slots }).var_slot(i.symbol);
                match (operand.len() == 0, local_value(m, x)) {
                    (true, Some((Value::Int(v), _))) => Some(
                        (v, m.set(x, Value::Int(wrapped(v + val)))),
                    ),
                    _ => None,
                }
            },
        },
        ExprKind::Indexed(_) => match (operand.len() == 2, m.element(operand[0], operand[1])) {
            (true, Some(Value::Int(v))) => match m.with_element(
                operand[0],
                operand[1],
                Value::Int(wrapped(v + val)),
            ) {
                Some(m2) => Some((v, m2)),
                None => None,
            },
            _ => None,
        },
        _ => None,
    }
}

proof fn lemma_counter_parts(env: Env, e: Expr, val: i32, p: Pos)
    ensures
        pre_inc_code(env, e, val, p) == operand_code(env, e, p) + counter_tail(
            env,
            e,
            val,
            true,
            p,
        ),
        post_inc_code(env, e, val, p) == operand_code(env, e, p) + counter_tail(
            env,
            e,
            val,
            false,
            p,
        ),
{
    assert(pre_inc_code(env, e, val, p) =~= operand_code(env, e, p) + counter_tail(
        env,
        e,
        val,
        true,
        p,
    ));
    assert(post_inc_code(env, e, val, p) =~= operand_code(env, e, p) + counter_tail(
        env,
        e,
        val,
        false,
        p,
    ));
}

/// Two orders of six instructions.
proof fn lemma_swapped_six(a: Seq<InsnView>, b: Seq<InsnView>)
    requires
        a.len() == 6,
        b.len() == 6,
        a[0] == b[0],
        a[1] == b[1],
        a[2] == b[3],
        a[3] == b[4],
        a[4] == b[2],
        a[5] == b[5],
    ensures
        a.to_multiset() == b.to_multiset(),
{
    broadcast use group_to_multiset_ensures;

    let none = Seq::<InsnView>::empty();
    assert(a =~= none.push(a[0]).push(a[1]).push(a[2]).push(a[3]).push(a[4]).push(a[5]));
    assert(b =~= none.push(b[0]).push(b[1]).push(b[2]).push(b[3]).push(b[4]).push(b[5]));
    assert(a.to_multiset() =~= b.to_multiset());
}

/// Two orders of two instructions.
proof fn lemma_swapped_two(a: Seq<InsnView>, b: Seq<InsnView>)
    requires
        a.len() == 2,
        b.len() == 2,
        a[0] == b[1],
        a[1] == b[0],
    ensures
        a.to_multiset() == b.to_multiset(),
{
    broadcast use group_to_multiset_ensures;

    let none = Seq::<InsnView>::empty();
    assert(a =~= none.push(a[0]).push(a[1]));
    assert(b =~= none.push(b[0]).push(b[1]));
    assert(a.to_multiset() =~= b.to_multiset());
}

/// Both forms start with the code of the operand, which each holds once, and each is a permutation
/// of the other.
pub proof fn law_counter_forms(env: Env, e: Expr, val: i32, p: Pos)
    ensures
        pre_inc_code(env, e, val, p) == operand_code(env, e, p) + counter_tail(
            env,
            e,
            val,
            true,
            p,
        ),
        post_inc_code(env, e, val, p) == operand_code(env, e, p) + counter_tail(
            env,
            e,
            val,
            false,
            p,
        ),
        pre_inc_code(env, e, val, p).to_multiset() == post_inc_code(
            env,
            e,
            val,
            p,
        ).to_multiset(),
{
    let (new, old_) = (counter_tail(env, e, val, true, p), counter_tail(env, e, val, false, p));
    lemma_counter_parts(env, e, val, p);
    if new.len() == 6 {
        lemma_swapped_six(new, old_);
    } else if new.len() == 2 {
        lemma_swapped_two(new, old_);
    }
    lemma_multiset_commutative(operand_code(env, e, p), new);
    lemma_multiset_commutative(operand_code(env, e, p), old_);
}

/// Whatever the operand is, and however its values came on the stack: from behind the operand both
/// forms end with the same memory, in which the target holds `val` more and nothing else has
/// changed. In place of the operand one leaves the new value, the other the old one.
pub proof fn law_counter_runs(
    env: Env,
    e: Expr,
    val: i32,
    new: bool,
    p: Pos,
    code: Seq<InsnView>,
    off: int,
    st: Seq<Value>,
    operand: Seq<Value>,
    m: Memory,
)
    requires
        counter_ok(env, e),
        val == 1 || val == -1,
        located(
            code,
            off,
            if new {
                pre_inc_code(env, e, val, p)
            } else {
                post_inc_code(env, e, val, p)
            },
        ),
        counted(env, e, val, operand, p.slots, m) is Some,
    ensures
        ({
            let (v, m2) = counted(env, e, val, operand, p.slots, m)->0;
            let w = wrapped(v + val);
            leads(
                code,
                (State { pc: off + operand_code(env, e, p).len(), stack: st + operand, mem: m }),
                (State {
                    pc: off + pre_inc_code(env, e, val, p).len(),
                    stack: st.push(
                        Value::Int(
                            if new {
                                w
                            } else {
                                v
                            },
                        ),
                    ),
                    mem: m2,
                }),
            )
        }),
{
    broadcast use group_stack;

    reveal(effect);
    let place = operand_code(env, e, p);
    let tail = counter_tail(env, e, val, new, p);
    let o1 = off + place.len();
    let s = State { pc: o1, stack: st + operand, mem: m };
    lemma_counter_parts(env, e, val, p);
    lemma_located_add(code, off, place, tail);
    lemma_leads_self(code, s);
    match e.kind {
        ExprKind::Identifier(i) => match env.field_of(i.symbol) {
            Some(class) => {
                let o = operand[0];
                assert(st + operand =~= st.push(o));
                lemma_field_counter(
                    env,
                    class,
                    env.var(i.symbol),
                    val,
                    new,
                    code,
                    o1,
                    s,
                    st,
                    o,
                    m,
                );
            },
            None => {
                let x = p.var_slot(i.symbol);
                let v = m.locals[x];
                let w = Value::Int(wrapped(v->Int_0 + val));
                assert(st + operand =~= st);
                lemma_operand(val);
                assert(tail[0] == code[o1]);
                assert(tail[1] == code[o1 + 1]);
                if new {
                    let m2 = m.set(x, w);
                    lemma_next(code, s, s, st, m2);
                    lemma_next(
                        code,
                        s,
                        State { pc: o1 + 1, stack: st, mem: m2 },
                        st.push(w),
                        m2,
                    );
                } else {
                    lemma_next(code, s, s, st.push(v), m);
                    lemma_next(
                        code,
                        s,
                        State { pc: o1 + 1, stack: st.push(v), mem: m },
                        st.push(v),
                        m.set(x, w),
                    );
                }
            },
        },
        ExprKind::Indexed(i) => {
            let (a, x) = (operand[0], operand[1]);
            assert(st + operand =~= st.push(a).push(x));
            lemma_element_counter(val, new, code, o1, s, st, a, x, m);
        },
        _ => {},
    }
}

/// Where the operand has a meaning, both forms run from their start to their end, and end with the
/// same memory. One leaves the new value of the target, the other the old one.
pub proof fn law_counter_values(
    env: Env,
    e: Expr,
    val: i32,
    p: Pos,
    pre: Seq<InsnView>,
    off_pre: int,
    post: Seq<InsnView>,
    off_post: int,
    st: Seq<Value>,
    m: Memory,
)
    requires
        counter_ok(env, e),
        val == 1 || val == -1,
        lone(pre),
        lone(post),
        located(pre, off_pre, pre_inc_code(env, e, val, p)),
        located(post, off_post, post_inc_code(env, e, val, p)),
        counter_value(env, e, val, true, p, m) is Some,
    ensures
        ({
            let (w, m2) = counter_value(env, e, val, true, p, m)->0;
            let (v, m3) = counter_value(env, e, val, false, p, m)->0;
            &&& counter_value(env, e, val, false, p, m) is Some
            &&& m3 == m2
            &&& v is Int
            &&& w == Value::Int(wrapped(v->Int_0 + val))
            &&& yields(pre, off_pre, pre_inc_code(env, e, val, p), st, m, (w, m2))
            &&& yields(post, off_post, post_inc_code(env, e, val, p), st, m, (v, m2))
        }),
{
    lemma_counter(env, e, val, true, p, pre, off_pre, st, m);
    lemma_counter(env, e, val, false, p, post, off_post, st, m);
}

} // verus!
