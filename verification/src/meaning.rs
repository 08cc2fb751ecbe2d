//! What expressions mean, and that their code computes just that.
//!
//! The meaning is given for every expression but an element with a default, whose index stays on
//! the stack below the element. What a called method does is left to the memory.
//!
//! A repeated value needs local variables of its own. So the meaning is relative to the position at
//! which the expression is generated.

use vstd::prelude::*;

use crate::arrays::law_fill_value;
use crate::ast::{
    BasicType, Binary, Call, Const, Expr, ExprKind, Identifier, Indexed, MethodView, Operator,
    SemanticType, Unary, VarView,
};
use crate::instr::{InsnView, Instruction};
use crate::labels::target;
use crate::machine::{
    called, can_receive, effect, group_stack, leads, lemma_leads_self, lemma_leads_step,
    lemma_leads_trans, lemma_located_add, lemma_located_push, lemma_place, located, lone, marks,
    quotient, signed, taken, top, truth, under, wrapped, Memory, State, Thing, Value,
};
use crate::scheme::{
    arithmetic_insn, binary_code, call_code, choice_code, comparison_insn, equal_as_references,
    expr_code, exprs_code, exprs_end, fill_code, identifier_code, inc_operand, indexed_code,
    invoke_insn, is_comparison, new_object_code, owner_code, owner_end, post_inc_code, pre_inc_code,
    unary_code, Env, Pos,
};
use crate::types::{array_load_insn, is_integral, java_type, new_array_insn, store_insn};
use crate::valid::{
    binary_ok, call_ok, counter_ok, expr_ok, exprs_ok, identifier_ok, indexed_ok, owner_ok,
    unary_ok,
};

verus! {

// ---------------------------------------------------------------------------------------------
// Meaning
// ---------------------------------------------------------------------------------------------

/// The value of a local variable.
pub open spec fn local_value(m: Memory, x: u8) -> Option<(Value, Memory)> {
    if m.locals.dom().contains(x) {
        Some((m.locals[x], m))
    } else {
        None
    }
}

pub open spec fn const_value(c: Const) -> Value {
    match c {
        Const::IntConst(v) => Value::Int(v),
        Const::BoolConst(v) => truth(v),
        Const::StringConst(v) => Value::Text(v@),
        Const::Null => Value::Ref(None),
    }
}

/// The value of an expression that is generated at `p`, and the memory after it.
pub open spec fn expr_value(env: Env, e: Expr, p: Pos, m: Memory) -> Option<(Value, Memory)>
    decreases e, 0nat,
{
    match e.kind {
        ExprKind::Identifier(i) => identifier_value(env, i, p, m),
        ExprKind::Indexed(i) => match indexed_place(env, i, p, m) {
            Some((a, x, m2)) => match m2.element(a, x) {
                Some(v) => Some((v, m2)),
                None => None,
            },
            None => None,
        },
        ExprKind::Const(c) => Some((const_value(c), m)),
        ExprKind::Call(c) => if c.is_arr_len {
            match owner_value(env, c.owner, p, m) {
                Some((v, m2)) => match m2.array(v) {
                    Some(s) => Some((Value::Int(wrapped(s.len() as int)), m2)),
                    None => None,
                },
                None => None,
            }
        } else {
            match call_value(env, c, p, m) {
                Some((Some(v), m2)) => Some((v, m2)),
                _ => None,
            }
        },
        ExprKind::Unary(u) => unary_value(env, u, p, m),
        ExprKind::Binary(b) => binary_value(env, b, p, m),
        ExprKind::This => local_value(m, 0),
        ExprKind::NewClass(n) => Some(
            (
                Value::Ref(Some(m.unused())),
                m.put(m.unused(), Thing::Object(n.name@, Map::empty())),
            ),
        ),
        ExprKind::NewArray(n) => match expr_value(env, *n.len, p, m) {
            Some((Value::Int(v), m1)) => if v >= 0 {
                let zero = zero_value(*e.type_->Array_0);
                Some(
                    (
                        Value::Ref(Some(m1.unused())),
                        m1.put(
                            m1.unused(),
                            Thing::Array(Seq::new(v as nat, |k: int| zero)),
                        ),
                    ),
                )
            } else {
                None
            },
            _ => None,
        },
        ExprKind::TypeCast(t) => match expr_value(env, *t.expr, p, m) {
            Some((v, m1)) => if m1.castable(v, t.name@) {
                Some((v, m1))
            } else {
                None
            },
            None => None,
        },
        ExprKind::TypeTest(t) => match expr_value(env, *t.expr, p, m) {
            Some((v, m1)) => match m1.instance(v, t.name@) {
                Some(b) => Some((truth(b), m1)),
                None => None,
            },
            None => None,
        },
        ExprKind::Default(_) => None,
    }
}

/// The initial value of a variable or an array element of a type.
pub open spec fn zero_value(t: SemanticType) -> Value {
    if is_integral(t) {
        Value::Int(0)
    } else {
        Value::Ref(None)
    }
}

pub open spec fn owner_value(
    env: Env,
    owner: Option<Box<Expr>>,
    p: Pos,
    m: Memory,
) -> Option<(Value, Memory)>
    decreases owner, 0nat,
{
    match owner {
        Some(e) => expr_value(env, *e, p, m),
        None => None,
    }
}

/// The values of the first `n` expressions, found one after another.
pub open spec fn exprs_value(env: Env, es: Seq<Expr>, n: nat, p: Pos, m: Memory) -> Option<
    (Seq<Value>, Memory),
>
    decreases es, n,
{
    if n == 0 || n > es.len() {
        Some((Seq::empty(), m))
    } else {
        let k = (n - 1) as nat;
        match exprs_value(env, es, k, p, m) {
            Some((vs, m1)) => match expr_value(env, es[n - 1], exprs_end(env, es, k, p), m1) {
                Some((v, m2)) => Some((vs.push(v), m2)),
                None => None,
            },
            None => None,
        }
    }
}

/// The values that a call passes: the owner, if there is one, and then the arguments.
pub open spec fn passed_value(env: Env, c: Call, p: Pos, m: Memory) -> Option<(Seq<Value>, Memory)>
    decreases c, 0nat,
{
    match c.owner {
        Some(_) => match owner_value(env, c.owner, p, m) {
            Some((o, m1)) => match exprs_value(
                env,
                c.arg@,
                c.arg@.len(),
                owner_end(env, c.owner, p),
                m1,
            ) {
                Some((vs, m2)) => Some((seq![o] + vs, m2)),
                None => None,
            },
            None => None,
        },
        None => exprs_value(env, c.arg@, c.arg@.len(), owner_end(env, c.owner, p), m),
    }
}

/// The call passes what the method takes: an object for `this` to an instance method and none to
/// a static one, and a value for every other parameter.
pub open spec fn call_suits(c: Call, method: MethodView, passed: Seq<Value>) -> bool {
    &&& passed.len() == method.param.len()
    &&& method.static_ <==> c.owner is None
    &&& c.owner is Some ==> can_receive(passed[0])
}

/// What the call of a method gives back, if the method has a result, and the memory after it: the
/// answer to the values that are passed.
pub open spec fn call_value(env: Env, c: Call, p: Pos, m: Memory) -> Option<(Option<Value>, Memory)>
    decreases c, 1nat,
{
    let method = env.methods[c.method->0 as int];
    match passed_value(env, c, p, m) {
        Some((passed, m1)) => if call_suits(c, method, passed) {
            match m1.call(invoke_insn(env, method), passed) {
                Some((r, m2)) => if (r is None) == (method.ret_t == SemanticType::Basic(
                    BasicType::Void,
                )) {
                    Some((r, m2))
                } else {
                    None
                },
                None => None,
            }
        } else {
            None
        },
        None => None,
    }
}

/// The value of a variable: that of the owner's field, or that of the local variable.
pub open spec fn identifier_value(env: Env, i: Identifier, p: Pos, m: Memory) -> Option<
    (Value, Memory),
>
    decreases i, 0nat,
{
    match env.field_of(i.symbol) {
        Some(class) => match owner_value(env, i.owner, p, m) {
            Some((o, m2)) => match m2.field(o, env.class_name(class), env.var(i.symbol).name) {
                Some(v) => Some((v, m2)),
                None => None,
            },
            None => None,
        },
        None => local_value(m, p.var_slot(i.symbol)),
    }
}

/// The array and the index of an array element, the array first.
pub open spec fn indexed_place(env: Env, i: Indexed, p: Pos, m: Memory) -> Option<
    (Value, Value, Memory),
>
    decreases i, 0nat,
{
    match expr_value(env, *i.arr, p, m) {
        Some((a, m1)) => match expr_value(env, *i.idx, p.past(env, *i.arr), m1) {
            Some((x, m2)) => Some((a, x, m2)),
            None => None,
        },
        None => None,
    }
}

/// Adds `val` to a variable or an array element. The value is the new one, or else the old one.
pub open spec fn counter_value(
    env: Env,
    e: Expr,
    val: i32,
    new: bool,
    p: Pos,
    m: Memory,
) -> Option<(Value, Memory)>
    decreases e, 1nat,
{
    match e.kind {
        ExprKind::Identifier(i) => match env.field_of(i.symbol) {
            Some(class) => match owner_value(env, i.owner, p, m) {
                Some((o, m1)) => {
                    let (c, n) = (env.class_name(class), env.var(i.symbol).name);
                    match m1.field(o, c, n) {
                        Some(Value::Int(v)) => {
                            let w = Value::Int(wrapped(v + val));
                            match m1.with_field(o, c, n, w) {
                                Some(m2) => Some((if new { w } else { Value::Int(v) }, m2)),
                                None => None,
                            }
                        },
                        _ => None,
                    }
                },
                None => None,
            },
            None => {
                let x = p.var_slot(i.symbol);
                match local_value(m, x) {
                    Some((Value::Int(v), _)) => {
                        let w = Value::Int(wrapped(v + val));
                        Some((if new { w } else { Value::Int(v) }, m.set(x, w)))
                    },
                    _ => None,
                }
            },
        },
        ExprKind::Indexed(i) => match indexed_place(env, i, p, m) {
            Some((a, x, m1)) => match m1.element(a, x) {
                Some(Value::Int(v)) => {
                    let w = Value::Int(wrapped(v + val));
                    match m1.with_element(a, x, w) {
                        Some(m2) => Some((if new { w } else { Value::Int(v) }, m2)),
                        None => None,
                    }
                },
                _ => None,
            },
            None => None,
        },
        _ => None,
    }
}

pub open spec fn unary_value(env: Env, u: Unary, p: Pos, m: Memory) -> Option<
    (Value, Memory),
>
    decreases u, 0nat,
{
    match u.op {
        Operator::Neg => match expr_value(env, *u.r, p, m) {
            Some((Value::Int(v), m2)) => Some((Value::Int(wrapped(-v)), m2)),
            _ => None,
        },
        Operator::Not => match expr_value(env, *u.r, p.step(2, 0), m) {
            Some((Value::Int(v), m2)) => Some((truth(v == 0), m2)),
            _ => None,
        },
        Operator::PreInc => counter_value(env, *u.r, 1, true, p, m),
        Operator::PreDec => counter_value(env, *u.r, (-1) as i32, true, p, m),
        Operator::PostInc => counter_value(env, *u.r, 1, false, p, m),
        Operator::PostDec => counter_value(env, *u.r, (-1) as i32, false, p, m),
        _ => None,
    }
}

/// What an operator makes of two numbers. A shift goes by the lower five bits of its right
/// operand, and a shift to the right fills with zeros.
pub open spec fn applied(op: Operator, a: i32, b: i32) -> Option<i32> {
    match op {
        Operator::Add => Some(wrapped(a + b)),
        Operator::Sub => Some(wrapped(a - b)),
        Operator::Mul => Some(wrapped(a * b)),
        Operator::Div => if b != 0 {
            Some(wrapped(quotient(a as int, b as int)))
        } else {
            None
        },
        Operator::Mod => if b != 0 {
            Some(wrapped(a - b * quotient(a as int, b as int)))
        } else {
            None
        },
        Operator::BAnd => Some(a & b),
        Operator::BOr => Some(a | b),
        Operator::BXor => Some(a ^ b),
        Operator::Shl => Some(a << (b & 31)),
        Operator::Shr => Some(((a as u32) >> ((b & 31) as u32)) as i32),
        _ => None,
    }
}

/// Whether a comparison of two values of type `t` holds.
pub open spec fn compared(op: Operator, t: SemanticType, a: Value, b: Value) -> Option<bool> {
    match (a, b) {
        (Value::Int(x), Value::Int(y)) => match op {
            Operator::Le => Some(x <= y),
            Operator::Lt => Some(x < y),
            Operator::Ge => Some(x >= y),
            Operator::Gt => Some(x > y),
            _ => if equal_as_references(t) {
                None
            } else {
                Some((x == y) == (op is Eq))
            },
        },
        _ => if (op is Eq || op is Ne) && equal_as_references(t) && !(a is Int) && !(b is Int) {
            Some((a == b) == (op is Eq))
        } else {
            None
        },
    }
}

/// A repeated value: the value is found once and then the length, and the result is a new array of
/// that length with the value in every place. The value, the counter and the array are kept in
/// three local variables from the position on; finding the length leaves the first alone.
pub open spec fn repeat_value(env: Env, b: Binary, p: Pos, m: Memory) -> Option<(Value, Memory)>
    decreases b, 0nat,
{
    let q = p.step(2, 3);
    match expr_value(env, *b.l, q, m) {
        Some((v, m1)) => match expr_value(
            env,
            *b.r,
            q.past(env, *b.l),
            m1.set(p.slot(0), v),
        ) {
            Some((Value::Int(n), m2)) => if n >= 0 && p.local + 3 <= u8::MAX && m2.holds(
                p.slot(0),
                v,
            ) {
                Some(repeated(p, n, v, m2))
            } else {
                None
            },
            _ => None,
        },
        None => None,
    }
}

/// A new array with a value in every place, and the memory with it.
pub open spec fn repeated(p: Pos, n: i32, v: Value, m: Memory) -> (Value, Memory) {
    let r = Value::Ref(Some(m.unused()));
    (
        r,
        m.put(m.unused(), Thing::Array(Seq::new(n as nat, |k: int| v))).set(p.slot(2), r).set(
            p.slot(1),
            Value::Int(n),
        ),
    )
}

/// The right operand of `&&` counts only after true, that of `||` only after false.
pub open spec fn binary_value(env: Env, b: Binary, p: Pos, m: Memory) -> Option<(Value, Memory)>
    decreases b, 1nat,
{
    if b.op is Repeat {
        repeat_value(env, b, p, m)
    } else {
        let q = if b.op is And || b.op is Or {
            p.step(2, 0)
        } else {
            p
        };
        match expr_value(env, *b.l, q, m) {
            Some((x, m1)) => {
                let stops = match (b.op, x) {
                    (Operator::And, Value::Int(v)) => v == 0,
                    (Operator::Or, Value::Int(v)) => v != 0,
                    _ => false,
                };
                if stops {
                    Some((truth(b.op is Or), m1))
                } else {
                    match expr_value(env, *b.r, q.past(env, *b.l), m1) {
                        Some((y, m2)) => match operated(b.op, b.l.type_, x, y) {
                            Some(v) => Some((v, m2)),
                            None => None,
                        },
                        None => None,
                    }
                }
            },
            None => None,
        }
    }
}

/// What an operator makes of two values. The left operand of `&&` is true here, and that of `||`
/// is false.
pub open spec fn operated(op: Operator, t: SemanticType, x: Value, y: Value) -> Option<Value> {
    if op is And || op is Or {
        match (x, y) {
            (Value::Int(_), Value::Int(w)) => Some(truth(w != 0)),
            _ => None,
        }
    } else if is_comparison(op) {
        match compared(op, t, x, y) {
            Some(b) => Some(truth(b)),
            None => None,
        }
    } else {
        match (x, y) {
            (Value::Int(a), Value::Int(b)) => match applied(op, a, b) {
                Some(v) => Some(Value::Int(v)),
                None => None,
            },
            _ => None,
        }
    }
}

// ---------------------------------------------------------------------------------------------
// Steps
// ---------------------------------------------------------------------------------------------

/// From its start with the stack `st` and the memory `m`, the code of a part leads to its end with
/// one more value on the stack.
pub open spec fn yields(
    code: Seq<InsnView>,
    off: int,
    part: Seq<InsnView>,
    st: Seq<Value>,
    m: Memory,
    r: (Value, Memory),
) -> bool {
    leads(
        code,
        State { pc: off, stack: st, mem: m },
        State { pc: off + part.len(), stack: st.push(r.0), mem: r.1 },
    )
}

/// One more instruction that does not jump.
pub proof fn lemma_next(
    code: Seq<InsnView>,
    s: State,
    t: State,
    stack: Seq<Value>,
    mem: Memory,
)
    requires
        leads(code, s, t),
        0 <= t.pc < code.len(),
        target(code[t.pc]) is None,
        effect(code[t.pc], t.stack, t.mem) == Some((stack, mem)),
    ensures
        leads(code, s, (State { pc: t.pc + 1, stack, mem })),
{
    lemma_leads_step(code, s, t, State { pc: t.pc + 1, stack, mem });
}

/// One more jump that looks at `k` values: to the place `to` where it is taken, and else on to the
/// next instruction.
pub proof fn lemma_jump(code: Seq<InsnView>, s: State, t: State, k: int, yes: bool, to: int)
    requires
        lone(code),
        leads(code, s, t),
        0 <= t.pc < code.len(),
        target(code[t.pc]) is Some,
        taken(code[t.pc], t.stack) == Some((k, yes)),
        yes ==> 0 <= to < code.len() && marks(code[to], target(code[t.pc])->0),
        !yes ==> to == t.pc + 1,
    ensures
        leads(code, s, (State { pc: to, stack: under(t.stack, k), mem: t.mem })),
{
    if yes {
        lemma_place(code, target(code[t.pc])->0, to);
    }
    lemma_leads_step(code, s, t, State { pc: to, stack: under(t.stack, k), mem: t.mem });
}

/// The part is a choice: it leaves `yes` where its branch is taken, and `no` where it is not.
spec fn chooses(
    part: Seq<InsnView>,
    branch: InsnView,
    labels: (u16, u16),
    no: bool,
    yes: bool,
) -> bool {
    &&& part.len() == 6
    &&& part[0] == branch
    &&& part[1] is BoolConst && part[1]->BoolConst_0 == no
    &&& part[2] is Goto && part[2]->Goto_0 == labels.1
    &&& marks(part[3], labels.0)
    &&& part[4] is BoolConst && part[4]->BoolConst_0 == yes
    &&& marks(part[5], labels.1)
}

/// A choice that is entered where its branch leads to.
proof fn lemma_chosen(
    code: Seq<InsnView>,
    off: int,
    part: Seq<InsnView>,
    branch: InsnView,
    labels: (u16, u16),
    no: bool,
    yes: bool,
    s: State,
    st: Seq<Value>,
    m: Memory,
)
    requires
        located(code, off, part),
        chooses(part, branch, labels, no, yes),
        leads(code, s, (State { pc: off + 3, stack: st, mem: m })),
    ensures
        leads(code, s, (State { pc: off + 6, stack: st.push(truth(yes)), mem: m })),
{
    reveal(effect);
    let left = st.push(truth(yes));
    assert(part[3] == code[off + 3]);
    assert(part[4] == code[off + 4]);
    assert(part[5] == code[off + 5]);
    lemma_next(code, s, State { pc: off + 3, stack: st, mem: m }, st, m);
    lemma_next(code, s, State { pc: off + 4, stack: st, mem: m }, left, m);
    lemma_next(code, s, State { pc: off + 5, stack: left, mem: m }, left, m);
}

/// A choice leaves whether its branch is taken.
proof fn lemma_choice(
    code: Seq<InsnView>,
    off: int,
    part: Seq<InsnView>,
    branch: InsnView,
    labels: (u16, u16),
    no: bool,
    yes: bool,
    s: State,
    st: Seq<Value>,
    m: Memory,
    k: int,
    b: bool,
)
    requires
        lone(code),
        located(code, off, part),
        chooses(part, branch, labels, no, yes),
        target(branch) == Some(labels.0),
        taken(branch, st) == Some((k, b)),
        leads(code, s, (State { pc: off, stack: st, mem: m })),
    ensures
        leads(
            code,
            s,
            (State {
                pc: off + 6,
                stack: under(st, k).push(
                    truth(
                        if b {
                            yes
                        } else {
                            no
                        },
                    ),
                ),
                mem: m,
            }),
        ),
{
    reveal(effect);
    let t = State { pc: off, stack: st, mem: m };
    let rest = under(st, k);
    assert(part[0] == code[off]);
    assert(part[1] == code[off + 1]);
    assert(part[2] == code[off + 2]);
    assert(part[3] == code[off + 3]);
    assert(part[5] == code[off + 5]);
    if b {
        lemma_jump(code, s, t, k, true, off + 3);
        lemma_chosen(code, off, part, branch, labels, no, yes, s, rest, m);
    } else {
        let left = rest.push(truth(no));
        lemma_jump(code, s, t, k, false, off + 1);
        lemma_next(code, s, State { pc: off + 1, stack: rest, mem: m }, left, m);
        lemma_jump(code, s, State { pc: off + 2, stack: left, mem: m }, 0, true, off + 5);
        assert(under(left, 0) =~= left);
        lemma_next(code, s, State { pc: off + 5, stack: left, mem: m }, left, m);
    }
}

// ---------------------------------------------------------------------------------------------
// Laws
// ---------------------------------------------------------------------------------------------

/// The code of an expression that has a meaning, wherever it stands in a method, leaves the value
/// of the expression on top of the stack, and changes the memory as the expression does.
#[verifier::rlimit(30)]
pub proof fn law_expr_value(
    env: Env,
    e: Expr,
    p: Pos,
    code: Seq<InsnView>,
    off: int,
    st: Seq<Value>,
    m: Memory,
)
    requires
        expr_ok(env, e),
        lone(code),
        located(code, off, expr_code(env, e, p)),
        expr_value(env, e, p, m) is Some,
    ensures
        yields(code, off, expr_code(env, e, p), st, m, expr_value(env, e, p, m)->0),
    decreases e, 0nat,
{
    broadcast use group_stack;

    reveal(effect);
    let s = State { pc: off, stack: st, mem: m };
    let part = expr_code(env, e, p);
    lemma_leads_self(code, s);
    match e.kind {
        ExprKind::Identifier(i) => {
            lemma_identifier(env, i, p, code, off, st, m);
        },
        ExprKind::Indexed(i) => {
            let (a, x, m2) = indexed_place(env, i, p, m)->0;
            let v = m2.element(a, x)->0;
            let both = indexed_code(env, i, e.type_, true, p);
            assert(part == indexed_code(env, i, e.type_, false, p));
            assert(part == both.push(array_load_insn(e.type_)));
            lemma_located_push(code, off, both, array_load_insn(e.type_));
            lemma_indexed(env, i, e.type_, p, code, off, st, m);
            lemma_next(
                code,
                s,
                State { pc: off + both.len(), stack: st.push(a).push(x), mem: m2 },
                st.push(v),
                m2,
            );
        },
        ExprKind::Const(c) => {
            assert(part[0] == code[off]);
            lemma_next(code, s, s, st.push(const_value(c)), m);
        },
        ExprKind::Call(c) => {
            if c.is_arr_len {
                let (a, m2) = owner_value(env, c.owner, p, m)->0;
                let n = Value::Int(wrapped(m2.array(a)->0.len() as int));
                let owner = owner_code(env, c.owner, p);
                assert(call_ok(env, c));
                assert(part == call_code(env, c, p));
                assert(part == owner.push(Instruction::ArrayLength));
                lemma_located_push(code, off, owner, Instruction::ArrayLength);
                lemma_owner(env, c.owner, p, code, off, st, m);
                lemma_next(
                    code,
                    s,
                    State { pc: off + owner.len(), stack: st.push(a), mem: m2 },
                    st.push(n),
                    m2,
                );
            } else {
                assert(part == call_code(env, c, p));
                lemma_call(env, c, p, code, off, st, m);
            }
        },
        ExprKind::Unary(u) => {
            lemma_unary(env, u, p, code, off, st, m);
        },
        ExprKind::Binary(b) => {
            lemma_binary(env, b, p, code, off, st, m);
        },
        ExprKind::This => {
            assert(part[0] == code[off]);
            lemma_next(code, s, s, st.push(m.locals[0]), m);
        },
        ExprKind::NewClass(n) => {
            lemma_new_object(n.name@, code, off, s, st, m);
        },
        ExprKind::NewArray(n) => {
            let elem = *e.type_->Array_0;
            let new = new_array_insn(env.classes, elem);
            let len = expr_code(env, *n.len, p);
            let (v, m1) = expr_value(env, *n.len, p, m)->0;
            let (r, m2) = expr_value(env, e, p, m)->0;
            let zero = if new is ANewArray {
                Value::Ref(None)
            } else {
                Value::Int(0)
            };
            assert(zero == zero_value(elem));
            assert(new is NewIntArray || new is NewBoolArray || new is ANewArray);
            lemma_located_push(code, off, len, new);
            law_expr_value(env, *n.len, p, code, off, st, m);
            lemma_next(
                code,
                s,
                State { pc: off + len.len(), stack: st.push(v), mem: m1 },
                st.push(r),
                m2,
            );
        },
        ExprKind::TypeCast(t) => {
            let inner = expr_code(env, *t.expr, p);
            let (v, m1) = expr_value(env, *t.expr, p, m)->0;
            lemma_located_push(code, off, inner, Instruction::CheckCast(t.name@));
            law_expr_value(env, *t.expr, p, code, off, st, m);
            lemma_next(
                code,
                s,
                State { pc: off + inner.len(), stack: st.push(v), mem: m1 },
                st.push(v),
                m1,
            );
        },
        ExprKind::TypeTest(t) => {
            let inner = expr_code(env, *t.expr, p);
            let (v, m1) = expr_value(env, *t.expr, p, m)->0;
            lemma_located_push(code, off, inner, Instruction::InstanceOf(t.name@));
            law_expr_value(env, *t.expr, p, code, off, st, m);
            lemma_next(
                code,
                s,
                State { pc: off + inner.len(), stack: st.push(v), mem: m1 },
                st.push(truth(m1.instance(v, t.name@)->0)),
                m1,
            );
        },
        ExprKind::Default(_) => {},
    }
}

/// The code of a new object leaves a reference to it.
pub proof fn lemma_new_object(
    class: Seq<char>,
    code: Seq<InsnView>,
    off: int,
    s: State,
    st: Seq<Value>,
    m: Memory,
)
    requires
        located(code, off, new_object_code(class)),
        leads(code, s, (State { pc: off, stack: st, mem: m })),
    ensures
        leads(
            code,
            s,
            (State {
                pc: off + 3,
                stack: st.push(Value::Ref(Some(m.unused()))),
                mem: m.put(m.unused(), Thing::Object(class, Map::empty())),
            }),
        ),
{
    broadcast use group_stack;

    reveal(effect);
    let part = new_object_code(class);
    let r = Value::Ref(Some(m.unused()));
    let m1 = m.put(m.unused(), Thing::Object(class, Map::empty()));
    assert(part[0] == code[off]);
    assert(part[1] == code[off + 1]);
    assert(part[2] == code[off + 2]);
    lemma_next(code, s, State { pc: off, stack: st, mem: m }, st.push(r), m1);
    lemma_next(
        code,
        s,
        State { pc: off + 1, stack: st.push(r), mem: m1 },
        st.push(r).push(r),
        m1,
    );
    lemma_next(
        code,
        s,
        State { pc: off + 2, stack: st.push(r).push(r), mem: m1 },
        st.push(r),
        m1,
    );
}

pub proof fn lemma_owner(
    env: Env,
    owner: Option<Box<Expr>>,
    p: Pos,
    code: Seq<InsnView>,
    off: int,
    st: Seq<Value>,
    m: Memory,
)
    requires
        owner_ok(env, owner),
        lone(code),
        located(code, off, owner_code(env, owner, p)),
        owner_value(env, owner, p, m) is Some,
    ensures
        yields(code, off, owner_code(env, owner, p), st, m, owner_value(env, owner, p, m)->0),
    decreases owner, 0nat,
{
    if let Some(e) = owner {
        law_expr_value(env, *e, p, code, off, st, m);
    }
}

/// The code of expressions one after another leaves their values one above the other.
pub proof fn lemma_exprs(
    env: Env,
    es: Seq<Expr>,
    n: nat,
    p: Pos,
    code: Seq<InsnView>,
    off: int,
    st: Seq<Value>,
    m: Memory,
)
    requires
        n <= es.len(),
        exprs_ok(env, es, n),
        lone(code),
        located(code, off, exprs_code(env, es, n, p)),
        exprs_value(env, es, n, p, m) is Some,
    ensures
        ({
            let (vs, m2) = exprs_value(env, es, n, p, m)->0;
            vs.len() == n && leads(
                code,
                (State { pc: off, stack: st, mem: m }),
                (State {
                    pc: off + exprs_code(env, es, n, p).len(),
                    stack: st + vs,
                    mem: m2,
                }),
            )
        }),
    decreases es, n,
{
    let s = State { pc: off, stack: st, mem: m };
    lemma_leads_self(code, s);
    if n == 0 {
        assert(st + Seq::<Value>::empty() =~= st);
    } else {
        let k = (n - 1) as nat;
        let e = es[n - 1];
        let q = exprs_end(env, es, k, p);
        let (before, last) = (exprs_code(env, es, k, p), expr_code(env, e, q));
        let (vs, m1) = exprs_value(env, es, k, p, m)->0;
        let (v, m2) = expr_value(env, e, q, m1)->0;
        assert(exprs_code(env, es, n, p) == before + last);
        lemma_located_add(code, off, before, last);
        lemma_exprs(env, es, k, p, code, off, st, m);
        law_expr_value(env, e, q, code, off + before.len(), st + vs, m1);
        lemma_leads_trans(
            code,
            s,
            State { pc: off + before.len(), stack: st + vs, mem: m1 },
            State { pc: off + before.len() + last.len(), stack: (st + vs).push(v), mem: m2 },
        );
        assert((st + vs).push(v) =~= st + vs.push(v));
    }
}

/// The code of a call replaces nothing on the stack but what it has passed: it leaves the result
/// above what was there, if there is a result.
pub proof fn lemma_call(
    env: Env,
    c: Call,
    p: Pos,
    code: Seq<InsnView>,
    off: int,
    st: Seq<Value>,
    m: Memory,
)
    requires
        call_ok(env, c),
        !c.is_arr_len,
        lone(code),
        located(code, off, call_code(env, c, p)),
        call_value(env, c, p, m) is Some,
    ensures
        ({
            let (r, m2) = call_value(env, c, p, m)->0;
            leads(
                code,
                (State { pc: off, stack: st, mem: m }),
                (State {
                    pc: off + call_code(env, c, p).len(),
                    stack: match r {
                        Some(v) => st.push(v),
                        None => st,
                    },
                    mem: m2,
                }),
            )
        }),
    decreases c, 0nat,
{
    reveal(effect);
    let s = State { pc: off, stack: st, mem: m };
    let method = env.methods[c.method->0 as int];
    let i = invoke_insn(env, method);
    let q = owner_end(env, c.owner, p);
    let n = c.arg@.len();
    let (owner, args) = (owner_code(env, c.owner, p), exprs_code(env, c.arg@, n, q));
    let (passed, m1) = passed_value(env, c, p, m)->0;
    let (r, m2) = call_value(env, c, p, m)->0;
    let o1 = off + owner.len();
    let o2 = o1 + args.len();
    assert(call_code(env, c, p) == (owner + args).push(i));
    lemma_located_push(code, off, owner + args, i);
    lemma_located_add(code, off, owner, args);
    lemma_leads_self(code, s);
    if c.owner is Some {
        let (o, m0) = owner_value(env, c.owner, p, m)->0;
        let (vs, _) = exprs_value(env, c.arg@, n, q, m0)->0;
        lemma_owner(env, c.owner, p, code, off, st, m);
        lemma_exprs(env, c.arg@, n, q, code, o1, st.push(o), m0);
        lemma_leads_trans(
            code,
            s,
            State { pc: o1, stack: st.push(o), mem: m0 },
            State { pc: o2, stack: st.push(o) + vs, mem: m1 },
        );
        assert(st.push(o) + vs =~= st + passed);
    } else {
        lemma_exprs(env, c.arg@, n, q, code, off, st, m);
    }
    let full = st + passed;
    let left = match r {
        Some(v) => st.push(v),
        None => st,
    };
    let k = passed.len() as int;
    let void = method.ret_t == SemanticType::Basic(BasicType::Void);
    assert(java_type(env.classes, method.ret_t) is Void <==> void);
    assert(full.skip(full.len() - k) =~= passed);
    assert(under(full, k) =~= st);
    assert(called(i, k, void, full, m1) == Some((left, m2)));
    if !method.static_ {
        assert(top(full, k - 1) == passed[0]);
    }
    assert(effect(i, full, m1) == Some((left, m2)));
    lemma_next(code, s, State { pc: o2, stack: full, mem: m1 }, left, m2);
}

proof fn lemma_identifier(
    env: Env,
    i: Identifier,
    p: Pos,
    code: Seq<InsnView>,
    off: int,
    st: Seq<Value>,
    m: Memory,
)
    requires
        identifier_ok(env, i, false),
        lone(code),
        located(code, off, identifier_code(env, i, false, p)),
        identifier_value(env, i, p, m) is Some,
    ensures
        yields(
            code,
            off,
            identifier_code(env, i, false, p),
            st,
            m,
            identifier_value(env, i, p, m)->0,
        ),
    decreases i, 0nat,
{
    broadcast use group_stack;

    reveal(effect);
    let s = State { pc: off, stack: st, mem: m };
    let part = identifier_code(env, i, false, p);
    lemma_leads_self(code, s);
    match env.field_of(i.symbol) {
        Some(class) => {
            let (o, m2) = owner_value(env, i.owner, p, m)->0;
            let v = m2.field(o, env.class_name(class), env.var(i.symbol).name)->0;
            let owner = owner_code(env, i.owner, p);
            let get = env.get_field(class, env.var(i.symbol));
            lemma_located_push(code, off, owner, get);
            lemma_owner(env, i.owner, p, code, off, st, m);
            lemma_next(
                code,
                s,
                State { pc: off + owner.len(), stack: st.push(o), mem: m2 },
                st.push(v),
                m2,
            );
        },
        None => {
            assert(part[0] == code[off]);
            lemma_next(code, s, s, st.push(m.locals[p.var_slot(i.symbol)]), m);
        },
    }
}

/// The code of the place of an array element leaves the array and the index.
pub proof fn lemma_indexed(
    env: Env,
    i: Indexed,
    t: SemanticType,
    p: Pos,
    code: Seq<InsnView>,
    off: int,
    st: Seq<Value>,
    m: Memory,
)
    requires
        indexed_ok(env, i),
        lone(code),
        located(code, off, indexed_code(env, i, t, true, p)),
        indexed_place(env, i, p, m) is Some,
    ensures
        ({
            let (a, x, m2) = indexed_place(env, i, p, m)->0;
            leads(
                code,
                (State { pc: off, stack: st, mem: m }),
                (State {
                    pc: off + indexed_code(env, i, t, true, p).len(),
                    stack: st.push(a).push(x),
                    mem: m2,
                }),
            )
        }),
    decreases i, 0nat,
{
    let q = p.past(env, *i.arr);
    let (arr, idx) = (expr_code(env, *i.arr, p), expr_code(env, *i.idx, q));
    let (a, m1) = expr_value(env, *i.arr, p, m)->0;
    let (x, m2) = expr_value(env, *i.idx, q, m1)->0;
    lemma_located_add(code, off, arr, idx);
    law_expr_value(env, *i.arr, p, code, off, st, m);
    law_expr_value(env, *i.idx, q, code, off + arr.len(), st.push(a), m1);
    lemma_leads_trans(
        code,
        State { pc: off, stack: st, mem: m },
        State { pc: off + arr.len(), stack: st.push(a), mem: m1 },
        State { pc: off + arr.len() + idx.len(), stack: st.push(a).push(x), mem: m2 },
    );
}

/// Six instructions one after another, none of which jumps.
proof fn lemma_six(
    code: Seq<InsnView>,
    off: int,
    part: Seq<InsnView>,
    s: State,
    stack: Seq<Seq<Value>>,
    mem: Memory,
    end: Memory,
)
    requires
        located(code, off, part),
        part.len() == 6,
        stack.len() == 7,
        leads(code, s, (State { pc: off, stack: stack[0], mem })),
        forall|i: int| 0 <= i < 6 ==> target(#[trigger] part[i]) is None,
        effect(part[0], stack[0], mem) == Some((stack[1], mem)),
        effect(part[1], stack[1], mem) == Some((stack[2], mem)),
        effect(part[2], stack[2], mem) == Some((stack[3], mem)),
        effect(part[3], stack[3], mem) == Some((stack[4], mem)),
        effect(part[4], stack[4], mem) == Some((stack[5], mem)),
        effect(part[5], stack[5], mem) == Some((stack[6], end)),
    ensures
        leads(code, s, (State { pc: off + 6, stack: stack[6], mem: end })),
{
    lemma_next(code, s, State { pc: off, stack: stack[0], mem }, stack[1], mem);
    lemma_next(code, s, State { pc: off + 1, stack: stack[1], mem }, stack[2], mem);
    lemma_next(code, s, State { pc: off + 2, stack: stack[2], mem }, stack[3], mem);
    lemma_next(code, s, State { pc: off + 3, stack: stack[3], mem }, stack[4], mem);
    lemma_next(code, s, State { pc: off + 4, stack: stack[4], mem }, stack[5], mem);
    lemma_next(code, s, State { pc: off + 5, stack: stack[5], mem }, stack[6], end);
}

/// What an increment or a decrement of a field does with the object.
pub open spec fn field_tail(
    env: Env,
    class: usize,
    var: VarView,
    val: i32,
    new: bool,
) -> Seq<InsnView> {
    if new {
        seq![
            Instruction::Dup,
            env.get_field(class, var),
            Instruction::IntConst(val),
            Instruction::IAdd,
            Instruction::DupX1,
            env.put_field(class, var),
        ]
    } else {
        seq![
            Instruction::Dup,
            env.get_field(class, var),
            Instruction::DupX1,
            Instruction::IntConst(val),
            Instruction::IAdd,
            env.put_field(class, var),
        ]
    }
}

pub proof fn lemma_field_counter(
    env: Env,
    class: usize,
    var: VarView,
    val: i32,
    new: bool,
    code: Seq<InsnView>,
    off: int,
    s: State,
    st: Seq<Value>,
    o: Value,
    m: Memory,
)
    requires
        m.field(o, env.class_name(class), var.name) is Some,
        m.field(o, env.class_name(class), var.name)->0 is Int,
        leads(code, s, (State { pc: off, stack: st.push(o), mem: m })),
        located(code, off, field_tail(env, class, var, val, new)),
    ensures
        ({
            let v = m.field(o, env.class_name(class), var.name)->0;
            let w = Value::Int(wrapped(v->Int_0 + val));
            leads(
                code,
                s,
                (State {
                    pc: off + 6,
                    stack: st.push(
                        if new {
                            w
                        } else {
                            v
                        },
                    ),
                    mem: m.with_field(o, env.class_name(class), var.name, w)->0,
                }),
            )
        }),
{
    broadcast use group_stack;

    reveal(effect);
    let part = field_tail(env, class, var, val, new);
    let v = m.field(o, env.class_name(class), var.name)->0;
    let c = Value::Int(val);
    let w = Value::Int(wrapped(v->Int_0 + val));
    let m2 = m.with_field(o, env.class_name(class), var.name, w)->0;
    let one = st.push(o);
    let stack = if new {
        seq![
            one,
            one.push(o),
            one.push(v),
            one.push(v).push(c),
            one.push(w),
            st.push(w).push(o).push(w),
            st.push(w),
        ]
    } else {
        seq![
            one,
            one.push(o),
            one.push(v),
            st.push(v).push(o).push(v),
            st.push(v).push(o).push(v).push(c),
            st.push(v).push(o).push(w),
            st.push(v),
        ]
    };
    lemma_six(code, off, part, s, stack, m, m2);
}

/// What an increment or a decrement of an array element does with the array and the index.
pub open spec fn element_tail(val: i32, new: bool) -> Seq<InsnView> {
    if new {
        seq![
            Instruction::Dup2,
            Instruction::IALoad,
            Instruction::IntConst(val),
            Instruction::IAdd,
            Instruction::DupX2,
            Instruction::IAStore,
        ]
    } else {
        seq![
            Instruction::Dup2,
            Instruction::IALoad,
            Instruction::DupX2,
            Instruction::IntConst(val),
            Instruction::IAdd,
            Instruction::IAStore,
        ]
    }
}

pub proof fn lemma_element_counter(
    val: i32,
    new: bool,
    code: Seq<InsnView>,
    off: int,
    s: State,
    st: Seq<Value>,
    a: Value,
    x: Value,
    m: Memory,
)
    requires
        m.element(a, x) is Some,
        m.element(a, x)->0 is Int,
        leads(code, s, (State { pc: off, stack: st.push(a).push(x), mem: m })),
        located(code, off, element_tail(val, new)),
    ensures
        ({
            let v = m.element(a, x)->0;
            let w = Value::Int(wrapped(v->Int_0 + val));
            leads(
                code,
                s,
                (State {
                    pc: off + 6,
                    stack: st.push(
                        if new {
                            w
                        } else {
                            v
                        },
                    ),
                    mem: m.with_element(a, x, w)->0,
                }),
            )
        }),
{
    broadcast use group_stack;

    reveal(effect);
    let part = element_tail(val, new);
    let v = m.element(a, x)->0;
    let c = Value::Int(val);
    let w = Value::Int(wrapped(v->Int_0 + val));
    let m2 = m.with_element(a, x, w)->0;
    let two = st.push(a).push(x);
    let kept = st.push(v).push(a).push(x);
    let stack = if new {
        seq![
            two,
            two.push(a).push(x),
            two.push(v),
            two.push(v).push(c),
            two.push(w),
            st.push(w).push(a).push(x).push(w),
            st.push(w),
        ]
    } else {
        seq![
            two,
            two.push(a).push(x),
            two.push(v),
            kept.push(v),
            kept.push(v).push(c),
            kept.push(w),
            st.push(v),
        ]
    };
    lemma_six(code, off, part, s, stack, m, m2);
}

/// The operand of the instruction stands for the number that is added.
pub proof fn lemma_operand(val: i32)
    requires
        val == 1 || val == -1,
    ensures
        signed(inc_operand(val)) == val,
{
    assert(((-1i32) as u8) == 255u8) by (bit_vector);
}

/// The code of an increment or a decrement adds `val` in place, and leaves the new value or the
/// old one.
#[verifier::rlimit(30)]
pub proof fn lemma_counter(
    env: Env,
    e: Expr,
    val: i32,
    new: bool,
    p: Pos,
    code: Seq<InsnView>,
    off: int,
    st: Seq<Value>,
    m: Memory,
)
    requires
        counter_ok(env, e),
        val == 1 || val == -1,
        lone(code),
        located(
            code,
            off,
            if new {
                pre_inc_code(env, e, val, p)
            } else {
                post_inc_code(env, e, val, p)
            },
        ),
        counter_value(env, e, val, new, p, m) is Some,
    ensures
        yields(
            code,
            off,
            if new {
                pre_inc_code(env, e, val, p)
            } else {
                post_inc_code(env, e, val, p)
            },
            st,
            m,
            counter_value(env, e, val, new, p, m)->0,
        ),
    decreases e, 1nat,
{
    broadcast use group_stack;

    reveal(effect);
    let s = State { pc: off, stack: st, mem: m };
    let part = if new {
        pre_inc_code(env, e, val, p)
    } else {
        post_inc_code(env, e, val, p)
    };
    lemma_leads_self(code, s);
    match e.kind {
        ExprKind::Identifier(i) => match env.field_of(i.symbol) {
            Some(class) => {
                let owner = owner_code(env, i.owner, p);
                let rest = field_tail(env, class, env.var(i.symbol), val, new);
                let (o, m1) = owner_value(env, i.owner, p, m)->0;
                assert(part == owner + rest);
                lemma_located_add(code, off, owner, rest);
                lemma_owner(env, i.owner, p, code, off, st, m);
                lemma_field_counter(
                    env,
                    class,
                    env.var(i.symbol),
                    val,
                    new,
                    code,
                    off + owner.len(),
                    s,
                    st,
                    o,
                    m1,
                );
            },
            None => {
                let x = p.var_slot(i.symbol);
                let v = m.locals[x];
                let w = Value::Int(wrapped(v->Int_0 + val));
                lemma_operand(val);
                assert(part[0] == code[off]);
                assert(part[1] == code[off + 1]);
                if new {
                    lemma_next(code, s, s, st, m.set(x, w));
                    lemma_next(
                        code,
                        s,
                        State { pc: off + 1, stack: st, mem: m.set(x, w) },
                        st.push(w),
                        m.set(x, w),
                    );
                } else {
                    lemma_next(code, s, s, st.push(v), m);
                    lemma_next(
                        code,
                        s,
                        State { pc: off + 1, stack: st.push(v), mem: m },
                        st.push(v),
                        m.set(x, w),
                    );
                }
            },
        },
        ExprKind::Indexed(i) => {
            let both = indexed_code(env, i, e.type_, true, p);
            let rest = element_tail(val, new);
            let (a, x, m1) = indexed_place(env, i, p, m)->0;
            assert(part == both + rest);
            lemma_located_add(code, off, both, rest);
            lemma_indexed(env, i, e.type_, p, code, off, st, m);
            lemma_element_counter(val, new, code, off + both.len(), s, st, a, x, m1);
        },
        _ => {},
    }
}

proof fn lemma_unary(
    env: Env,
    u: Unary,
    p: Pos,
    code: Seq<InsnView>,
    off: int,
    st: Seq<Value>,
    m: Memory,
)
    requires
        unary_ok(env, u),
        lone(code),
        located(code, off, unary_code(env, u, p)),
        unary_value(env, u, p, m) is Some,
    ensures
        yields(code, off, unary_code(env, u, p), st, m, unary_value(env, u, p, m)->0),
    decreases u, 0nat,
{
    broadcast use group_stack;

    reveal(effect);
    let s = State { pc: off, stack: st, mem: m };
    let part = unary_code(env, u, p);
    match u.op {
        Operator::Neg => {
            let r = expr_code(env, *u.r, p);
            let (v, m2) = expr_value(env, *u.r, p, m)->0;
            lemma_located_push(code, off, r, Instruction::INeg);
            law_expr_value(env, *u.r, p, code, off, st, m);
            lemma_next(
                code,
                s,
                State { pc: off + r.len(), stack: st.push(v), mem: m2 },
                st.push(Value::Int(wrapped(-v->Int_0))),
                m2,
            );
        },
        Operator::Not => {
            let q = p.step(2, 0);
            let r = expr_code(env, *u.r, q);
            let branch = Instruction::IfEq(p.at(0));
            let rest = choice_code(branch, p.at(0), p.at(1));
            let (v, m2) = expr_value(env, *u.r, q, m)->0;
            lemma_located_add(code, off, r, rest);
            law_expr_value(env, *u.r, q, code, off, st, m);
            lemma_choice(
                code,
                off + r.len(),
                rest,
                branch,
                (p.at(0), p.at(1)),
                false,
                true,
                s,
                st.push(v),
                m2,
                1,
                v->Int_0 == 0,
            );
        },
        Operator::PreInc => {
            lemma_counter(env, *u.r, 1, true, p, code, off, st, m);
        },
        Operator::PreDec => {
            lemma_counter(env, *u.r, (-1) as i32, true, p, code, off, st, m);
        },
        Operator::PostInc => {
            lemma_counter(env, *u.r, 1, false, p, code, off, st, m);
        },
        Operator::PostDec => {
            lemma_counter(env, *u.r, (-1) as i32, false, p, code, off, st, m);
        },
        _ => {},
    }
}

/// The operands of an operator leave their values one above the other.
proof fn lemma_operands(
    env: Env,
    b: Binary,
    p: Pos,
    code: Seq<InsnView>,
    off: int,
    st: Seq<Value>,
    m: Memory,
    x: Value,
    m1: Memory,
    y: Value,
    m2: Memory,
)
    requires
        expr_ok(env, *b.l),
        expr_ok(env, *b.r),
        lone(code),
        located(
            code,
            off,
            expr_code(env, *b.l, p) + expr_code(env, *b.r, p.past(env, *b.l)),
        ),
        expr_value(env, *b.l, p, m) == Some((x, m1)),
        expr_value(env, *b.r, p.past(env, *b.l), m1) == Some((y, m2)),
    ensures
        leads(
            code,
            (State { pc: off, stack: st, mem: m }),
            (State {
                pc: off + expr_code(env, *b.l, p).len() + expr_code(
                    env,
                    *b.r,
                    p.past(env, *b.l),
                ).len(),
                stack: st.push(x).push(y),
                mem: m2,
            }),
        ),
    decreases b, 0nat,
{
    let q = p.past(env, *b.l);
    let (l, r) = (expr_code(env, *b.l, p), expr_code(env, *b.r, q));
    lemma_located_add(code, off, l, r);
    law_expr_value(env, *b.l, p, code, off, st, m);
    law_expr_value(env, *b.r, q, code, off + l.len(), st.push(x), m1);
    lemma_leads_trans(
        code,
        State { pc: off, stack: st, mem: m },
        State { pc: off + l.len(), stack: st.push(x), mem: m1 },
        State { pc: off + l.len() + r.len(), stack: st.push(x).push(y), mem: m2 },
    );
}

proof fn lemma_binary(
    env: Env,
    b: Binary,
    p: Pos,
    code: Seq<InsnView>,
    off: int,
    st: Seq<Value>,
    m: Memory,
)
    requires
        binary_ok(env, b),
        lone(code),
        located(code, off, binary_code(env, b, p)),
        binary_value(env, b, p, m) is Some,
    ensures
        yields(code, off, binary_code(env, b, p), st, m, binary_value(env, b, p, m)->0),
    decreases b, 1nat,
{
    broadcast use group_stack;

    reveal(effect);
    if b.op is Repeat {
        lemma_repeat(env, b, p, code, off, st, m);
    } else if b.op is And || b.op is Or {
        lemma_and_or(env, b, p, code, off, st, m);
    } else {
        let s = State { pc: off, stack: st, mem: m };
        let r = p.past(env, *b.l);
        let (x, m1) = expr_value(env, *b.l, p, m)->0;
        let (y, m2) = expr_value(env, *b.r, r, m1)->0;
        let q = r.past(env, *b.r);
        let operands = expr_code(env, *b.l, p) + expr_code(env, *b.r, r);
        let both = st.push(x).push(y);
        if is_comparison(b.op) {
            let branch = comparison_insn(b.op, b.l.type_, q.at(0));
            let rest = choice_code(branch, q.at(0), q.at(1));
            assert(binary_code(env, b, p) == operands + rest);
            lemma_located_add(code, off, operands, rest);
            lemma_operands(env, b, p, code, off, st, m, x, m1, y, m2);
            lemma_choice(
                code,
                off + operands.len(),
                rest,
                branch,
                (q.at(0), q.at(1)),
                false,
                true,
                s,
                both,
                m2,
                2,
                compared(b.op, b.l.type_, x, y)->0,
            );
        } else {
            let i = arithmetic_insn(b.op);
            let v = applied(b.op, x->Int_0, y->Int_0)->0;
            assert(binary_code(env, b, p) == operands.push(i));
            lemma_located_push(code, off, operands, i);
            lemma_operands(env, b, p, code, off, st, m, x, m1, y, m2);
            lemma_next(
                code,
                s,
                State { pc: off + operands.len(), stack: both, mem: m2 },
                st.push(Value::Int(v)),
                m2,
            );
        }
    }
}

proof fn lemma_repeat(
    env: Env,
    b: Binary,
    p: Pos,
    code: Seq<InsnView>,
    off: int,
    st: Seq<Value>,
    m: Memory,
)
    requires
        b.op is Repeat,
        binary_ok(env, b),
        lone(code),
        located(code, off, binary_code(env, b, p)),
        repeat_value(env, b, p, m) is Some,
    ensures
        yields(code, off, binary_code(env, b, p), st, m, repeat_value(env, b, p, m)->0),
    decreases b, 0nat,
{
    broadcast use group_stack;

    reveal(effect);
    let q = p.step(2, 3);
    let r = q.past(env, *b.l);
    let (left, right) = (expr_code(env, *b.l, q), expr_code(env, *b.r, r));
    let store = store_insn(b.l.type_, p.slot(0));
    let (labels, locals) = ((p.at(0), p.at(1)), (p.slot(0), p.slot(1), p.slot(2)));
    let fill = fill_code(env.classes, b.l.type_, labels, locals);
    let s = State { pc: off, stack: st, mem: m };
    let (v, m1) = expr_value(env, *b.l, q, m)->0;
    let kept = m1.set(p.slot(0), v);
    let (len, m2) = expr_value(env, *b.r, r, kept)->0;
    let n = len->Int_0;
    assert(binary_code(env, b, p) == left.push(store) + right + fill);
    lemma_located_add(code, off, left.push(store) + right, fill);
    lemma_located_add(code, off, left.push(store), right);
    lemma_located_push(code, off, left, store);
    let o1 = off + left.len();
    let o2 = o1 + 1 + right.len();
    law_expr_value(env, *b.l, q, code, off, st, m);
    lemma_next(code, s, State { pc: o1, stack: st.push(v), mem: m1 }, st, kept);
    law_expr_value(env, *b.r, r, code, o1 + 1, st, kept);
    let t = State { pc: o2, stack: st.push(Value::Int(n)), mem: m2 };
    lemma_leads_trans(code, s, State { pc: o1 + 1, stack: st, mem: kept }, t);
    law_fill_value(env.classes, b.l.type_, labels, locals, code, o2, st, m2, n, v);
    let (a, m3) = repeated(p, n, v, m2);
    lemma_leads_trans(
        code,
        s,
        t,
        State { pc: o2 + fill.len(), stack: st.push(a), mem: m3 },
    );
}

/// The second half of `&&` or `||`, from the test of the right operand on.
spec fn and_or_tail(and: bool, labels: (u16, u16)) -> Seq<InsnView> {
    if and {
        seq![
            Instruction::IfEq(labels.1),
            Instruction::BoolConst(true),
            Instruction::Goto(labels.0),
            Instruction::Label(labels.1),
            Instruction::BoolConst(false),
            Instruction::Label(labels.0),
        ]
    } else {
        seq![
            Instruction::IfNe(labels.1),
            Instruction::BoolConst(false),
            Instruction::Goto(labels.0),
            Instruction::Label(labels.1),
            Instruction::BoolConst(true),
            Instruction::Label(labels.0),
        ]
    }
}

proof fn lemma_and_or(
    env: Env,
    b: Binary,
    p: Pos,
    code: Seq<InsnView>,
    off: int,
    st: Seq<Value>,
    m: Memory,
)
    requires
        b.op is And || b.op is Or,
        binary_ok(env, b),
        lone(code),
        located(code, off, binary_code(env, b, p)),
        binary_value(env, b, p, m) is Some,
    ensures
        yields(code, off, binary_code(env, b, p), st, m, binary_value(env, b, p, m)->0),
    decreases b, 0nat,
{
    broadcast use group_stack;

    let and = b.op is And;
    let s = State { pc: off, stack: st, mem: m };
    let q = p.step(2, 0);
    let (l, r) = (expr_code(env, *b.l, q), expr_code(env, *b.r, q.past(env, *b.l)));
    let branch: InsnView = if and {
        Instruction::IfEq(p.at(1))
    } else {
        Instruction::IfNe(p.at(1))
    };
    let rest = and_or_tail(and, (p.at(0), p.at(1)));
    let (x, m1) = expr_value(env, *b.l, q, m)->0;
    let v = x->Int_0;
    let stops = if and {
        v == 0
    } else {
        v != 0
    };
    assert(binary_code(env, b, p) == l.push(branch) + r + rest);
    lemma_located_add(code, off, l.push(branch) + r, rest);
    lemma_located_add(code, off, l.push(branch), r);
    lemma_located_push(code, off, l, branch);
    law_expr_value(env, *b.l, q, code, off, st, m);
    let o1 = off + l.len();
    let o2 = o1 + 1 + r.len();
    assert(x is Int);
    assert(rest[3] == code[o2 + 3]);
    if stops {
        lemma_jump(code, s, State { pc: o1, stack: st.push(x), mem: m1 }, 1, true, o2 + 3);
        lemma_chosen(code, o2, rest, branch, (p.at(1), p.at(0)), and, !and, s, st, m1);
    } else {
        let (y, m2) = expr_value(env, *b.r, q.past(env, *b.l), m1)->0;
        lemma_jump(code, s, State { pc: o1, stack: st.push(x), mem: m1 }, 1, false, o1 + 1);
        law_expr_value(env, *b.r, q.past(env, *b.l), code, o1 + 1, st, m1);
        lemma_leads_trans(
            code,
            s,
            State { pc: o1 + 1, stack: st, mem: m1 },
            State { pc: o2, stack: st.push(y), mem: m2 },
        );
        let w = y->Int_0;
        lemma_choice(
            code,
            o2,
            rest,
            branch,
            (p.at(1), p.at(0)),
            and,
            !and,
            s,
            st.push(y),
            m2,
            1,
            if and {
                w == 0
            } else {
                w != 0
            },
        );
    }
}

} // verus!
