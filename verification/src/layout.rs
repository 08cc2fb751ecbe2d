//! In which order the code of a tree holds the code of its parts, and what stands between them.
//!
//! The code of a part stands in the code of the whole unchanged, once, and in the order in which
//! the machine is to run the parts, whatever the parts are. Where the machine may go another way, a
//! label stands where it goes.

use vstd::prelude::*;

use crate::ast::{
    Assign, Binary, Block, Call, DefaultIndexed, Expr, ExprKind, For, Foreach, Guarded, Identifier,
    If, Indexed, Simple, Stmt, Unary, VarAssign, While,
};
use crate::instr::{InsnView, Instruction, JType};
use crate::labels::target;
use crate::scheme::{
    assign_code, binary_code, binary_labels, block_code, block_end, block_slots, call_code,
    default_code, default_labels, expr_code, expr_labels, exprs_code, exprs_end, fill_code,
    for_code, foreach_array, foreach_body, foreach_code, foreach_cond, foreach_labels, guards_code,
    guards_end, guards_slots, identifier_code, if_code, indexed_code, owner_code, owner_end,
    place_code, post_inc_code, pre_inc_code, simple_code, simple_end, stmt_code, stmt_end,
    stmt_labels, stmt_slots, stmts_code, stmts_end, stmts_slots, unary_code, unary_labels,
    while_code, Env, Pos,
};
use crate::valid::{counter_ok, expr_ok, simple_ok, unary_ok};

verus! {

/// The code of the object that something belongs to, if there is one.
pub open spec fn object_code(env: Env, owner: Option<Box<Expr>>, p: Pos) -> Seq<InsnView> {
    if owner is Some {
        expr_code(env, *owner->0, p)
    } else {
        Seq::empty()
    }
}

/// The position behind the object that something belongs to, if there is one.
pub open spec fn object_end(env: Env, owner: Option<Box<Expr>>, p: Pos) -> Pos {
    if owner is Some {
        p.past(env, *owner->0)
    } else {
        p
    }
}

/// From here on the code leaves true where the branch is taken, and false where it is not.
pub open spec fn chooses(code: Seq<InsnView>, at: int) -> bool {
    &&& code.len() == at + 6
    &&& target(code[at]) is Some
    &&& code[at + 1] is BoolConst && !code[at + 1]->BoolConst_0
    &&& code[at + 2] is Goto
    &&& code[at + 3] is Label && Some(code[at + 3]->Label_0) == target(code[at])
    &&& code[at + 4] is BoolConst && code[at + 4]->BoolConst_0
    &&& code[at + 5] is Label && code[at + 5]->Label_0 == code[at + 2]->Goto_0
    &&& code[at + 5]->Label_0 != code[at + 3]->Label_0
}

/// A negated number is negated behind its code. A negated truth value is tested behind its code,
/// and true where it is 0.
pub proof fn law_negation_layout(env: Env, e: Expr, u: Unary, p: Pos)
    requires
        e.kind == ExprKind::Unary(u),
        p.label + expr_labels(env, e) <= u16::MAX,
    ensures
        u.op is Neg ==> expr_code(env, e, p) == expr_code(env, *u.r, p).push(Instruction::INeg),
        u.op is Not ==> {
            let code = expr_code(env, e, p);
            let n = expr_code(env, *u.r, p.step(2, 0)).len() as int;
            &&& chooses(code, n)
            &&& code.take(n) == expr_code(env, *u.r, p.step(2, 0))
            &&& code[n] is IfEq
        },
{
    let code = unary_code(env, u, p);
    assert(expr_code(env, e, p) == code);
    assert(expr_labels(env, e) == unary_labels(env, u));
    if u.op is Not {
        let r = expr_code(env, *u.r, p.step(2, 0));
        assert(code.take(r.len() as int) =~= r);
    }
}

/// An operator that counts does so behind the code of its operand: behind the object of a field, or
/// behind the array and the index of an element. The number that is added is 1, or -1.
pub proof fn law_counter_layout(env: Env, e: Expr, u: Unary, p: Pos)
    requires
        e.kind == ExprKind::Unary(u),
        u.op is PreInc || u.op is PreDec || u.op is PostInc || u.op is PostDec,
        expr_ok(env, e),
    ensures
        ({
            let code = expr_code(env, e, p);
            let n = code.len() - 6;
            let pre = u.op is PreInc || u.op is PreDec;
            let by = if u.op is PreInc || u.op is PostInc {
                1int
            } else {
                -1int
            };
            let field = u.r.kind is Identifier && u.r.kind->Identifier_0.symbol is VarDef
                && env.vars[u.r.kind->Identifier_0.symbol->VarDef_0 as int].scope is Class;
            &&& field ==> {
                &&& code.take(n) == object_code(env, u.r.kind->Identifier_0.owner, p)
                &&& code[n] is Dup
                &&& pre ==> code[n + 2] is IntConst && code[n + 2]->IntConst_0 == by
                    && code[n + 3] is IAdd && code[n + 4] is DupX1
                &&& !pre ==> code[n + 2] is DupX1 && code[n + 3] is IntConst
                    && code[n + 3]->IntConst_0 == by && code[n + 4] is IAdd
            }
            &&& u.r.kind matches ExprKind::Indexed(i) ==> {
                &&& code.take(n) == expr_code(env, *i.arr, p) + expr_code(
                    env,
                    *i.idx,
                    p.past(env, *i.arr),
                )
                &&& code[n] is Dup2
                &&& code[n + 1] is IALoad
                &&& pre ==> code[n + 2] is IntConst && code[n + 2]->IntConst_0 == by
                    && code[n + 3] is IAdd && code[n + 4] is DupX2
                &&& !pre ==> code[n + 2] is DupX2 && code[n + 3] is IntConst
                    && code[n + 3]->IntConst_0 == by && code[n + 4] is IAdd
                &&& code[n + 5] is IAStore
            }
        }),
{
    let code = unary_code(env, u, p);
    assert(expr_code(env, e, p) == code);
    assert(unary_ok(env, u));
    assert(counter_ok(env, *u.r));
    let r = *u.r;
    let val: i32 = if u.op is PreInc || u.op is PostInc {
        1
    } else {
        (-1) as i32
    };
    let n = code.len() - 6;
    assert(code == if u.op is PreInc || u.op is PreDec {
        pre_inc_code(env, r, val, p)
    } else {
        post_inc_code(env, r, val, p)
    });
    match r.kind {
        ExprKind::Identifier(i) => {
            if env.field_of(i.symbol) is Some {
                assert(owner_code(env, i.owner, p) == object_code(env, i.owner, p));
                assert(code.take(n) =~= owner_code(env, i.owner, p));
            }
        },
        ExprKind::Indexed(i) => {
            assert(code.take(n) =~= indexed_code(env, i, r.type_, true, p));
        },
        _ => {},
    }
}

/// An operator on two values stands behind the left and the right, in this order. A comparison then
/// leaves true or false.
pub proof fn law_operands_layout(env: Env, e: Expr, b: Binary, p: Pos)
    requires
        e.kind == ExprKind::Binary(b),
        !(b.op is Repeat || b.op is And || b.op is Or),
        p.label + expr_labels(env, e) <= u16::MAX,
    ensures
        ({
            let code = expr_code(env, e, p);
            let both = expr_code(env, *b.l, p) + expr_code(env, *b.r, p.past(env, *b.l));
            let n = both.len() as int;
            &&& code.take(n) == both
            &&& if b.op is Le || b.op is Lt || b.op is Ge || b.op is Gt || b.op is Eq
                || b.op is Ne {
                chooses(code, n)
            } else {
                code.len() == n + 1
            }
        }),
{
    let code = binary_code(env, b, p);
    let both = expr_code(env, *b.l, p) + expr_code(env, *b.r, p.past(env, *b.l));
    assert(expr_code(env, e, p) == code);
    assert(expr_labels(env, e) == binary_labels(env, b));
    assert(code.take(both.len() as int) =~= both);
}

/// `and` and `or` run the right operand only where the left does not decide: behind the left, and
/// behind the right, stands a branch to the place where the decided value is left.
pub proof fn law_junction_layout(env: Env, e: Expr, b: Binary, p: Pos)
    requires
        e.kind == ExprKind::Binary(b),
        b.op is And || b.op is Or,
        p.label + expr_labels(env, e) <= u16::MAX,
    ensures
        ({
            let code = expr_code(env, e, p);
            let q = p.step(2, 0);
            let l = expr_code(env, *b.l, q);
            let r = expr_code(env, *b.r, q.past(env, *b.l));
            let n = l.len() as int;
            let k = n + 1 + r.len();
            let (over, out) = (code[k + 3], code[k + 5]);
            &&& code.len() == k + 6
            &&& code.take(n) == l
            &&& code.subrange(n + 1, k) == r
            &&& b.op is And <==> code[n] is IfEq && code[k] is IfEq
            &&& b.op is Or <==> code[n] is IfNe && code[k] is IfNe
            &&& over is Label && out is Label && over != out
            &&& target(code[n]) == Some(over->Label_0)
            &&& target(code[k]) == Some(over->Label_0)
            &&& code[k + 1] is BoolConst && (code[k + 1]->BoolConst_0 <==> b.op is And)
            &&& code[k + 2] is Goto && target(code[k + 2]) == Some(out->Label_0)
            &&& code[k + 4] is BoolConst && (code[k + 4]->BoolConst_0 <==> b.op is Or)
        }),
{
    let code = binary_code(env, b, p);
    let q = p.step(2, 0);
    let l = expr_code(env, *b.l, q);
    let r = expr_code(env, *b.r, q.past(env, *b.l));
    let n = l.len() as int;
    assert(expr_code(env, e, p) == code);
    assert(expr_labels(env, e) == binary_labels(env, b));
    assert(code.take(n) =~= l);
    assert(code.subrange(n + 1, n + 1 + r.len()) =~= r);
}

/// A repeated value is found before the number of its repetitions; the loop that fills the array
/// with it comes last.
pub proof fn law_repeat_layout(env: Env, e: Expr, b: Binary, p: Pos)
    requires
        e.kind == ExprKind::Binary(b),
        b.op is Repeat,
    ensures
        ({
            let code = expr_code(env, e, p);
            let q = p.step(2, 3);
            let l = expr_code(env, *b.l, q);
            let r = expr_code(env, *b.r, q.past(env, *b.l));
            let n = l.len() as int;
            &&& code.len() == n + 1 + r.len() + 17
            &&& code.take(n) == l
            &&& code.subrange(n + 1, n + 1 + r.len()) == r
            &&& code.skip(n + 1 + r.len()) == fill_code(
                env.classes,
                b.l.type_,
                (p.at(0), p.at(1)),
                (p.slot(0), p.slot(1), p.slot(2)),
            )
        }),
{
    let code = binary_code(env, b, p);
    let q = p.step(2, 3);
    let l = expr_code(env, *b.l, q);
    let r = expr_code(env, *b.r, q.past(env, *b.l));
    let n = l.len() as int;
    assert(expr_code(env, e, p) == code);
    assert(code.take(n) =~= l);
    assert(code.subrange(n + 1, n + 1 + r.len()) =~= r);
    assert(code.skip(n + 1 + r.len()) =~= fill_code(
        env.classes,
        b.l.type_,
        (p.at(0), p.at(1)),
        (p.slot(0), p.slot(1), p.slot(2)),
    ));
}

/// An element with a default: the array, the index, and then the element where the index is neither
/// negative nor too large, and the default everywhere else.
pub proof fn law_default_layout(env: Env, e: Expr, d: DefaultIndexed, p: Pos)
    requires
        e.kind == ExprKind::Default(d),
        p.label + expr_labels(env, e) <= u16::MAX,
    ensures
        ({
            let code = expr_code(env, e, p);
            let q = p.step(2, 1);
            let r = q.past(env, *d.arr);
            let a = expr_code(env, *d.arr, q);
            let i = expr_code(env, *d.idx, r);
            let x = expr_code(env, *d.dft, r.past(env, *d.idx));
            let n = a.len() as int;
            let k = n + 1 + i.len();
            let (other, out) = (code[k + 11], code.last());
            &&& code.len() == k + 12 + x.len() + 1
            &&& code.take(n) == a
            &&& code[n] is AStore && code[n]->AStore_0 == p.local as u8
            &&& code.subrange(n + 1, k) == i
            &&& code[k] is Dup
            &&& code[k + 1] is IfLt
            &&& code[k + 2] is Dup
            &&& code[k + 3] == Instruction::<Seq<char>, Seq<JType>>::ALoad(p.local as u8)
            &&& code[k + 4] is ArrayLength
            &&& code[k + 5] is IfICmpGe
            &&& code[k + 6] is Dup
            &&& code[k + 7] == Instruction::<Seq<char>, Seq<JType>>::ALoad(p.local as u8)
            &&& code[k + 8] is Swap
            &&& code[k + 10] is Goto
            &&& code.subrange(k + 12, k + 12 + x.len()) == x
            &&& other is Label && out is Label && other != out
            &&& target(code[k + 1]) == Some(other->Label_0)
            &&& target(code[k + 5]) == Some(other->Label_0)
            &&& target(code[k + 10]) == Some(out->Label_0)
        }),
{
    let code = default_code(env, d, e.type_, p);
    let q = p.step(2, 1);
    let r = q.past(env, *d.arr);
    let a = expr_code(env, *d.arr, q);
    let i = expr_code(env, *d.idx, r);
    let x = expr_code(env, *d.dft, r.past(env, *d.idx));
    let n = a.len() as int;
    let k = n + 1 + i.len();
    assert(expr_code(env, e, p) == code);
    assert(expr_labels(env, e) == default_labels(env, d));
    assert(code.take(n) =~= a);
    assert(code.subrange(n + 1, k) =~= i);
    assert(code.subrange(k + 12, k + 12 + x.len()) =~= x);
}

/// A call runs its object and then its arguments, first to last, before the method.
pub proof fn law_call_layout(env: Env, e: Expr, c: Call, p: Pos, n: nat)
    requires
        e.kind == ExprKind::Call(c),
        !c.is_arr_len,
        0 < n <= c.arg@.len(),
    ensures
        ({
            let q = object_end(env, c.owner, p);
            let args = c.arg@;
            let before = exprs_code(env, args, (n - 1) as nat, q);
            &&& expr_code(env, e, p).drop_last() == object_code(env, c.owner, p) + exprs_code(
                env,
                args,
                args.len(),
                q,
            )
            &&& exprs_code(env, args, 0, q).len() == 0
            &&& exprs_code(env, args, n, q) == before + expr_code(
                env,
                args[n - 1],
                exprs_end(env, args, (n - 1) as nat, q),
            )
        }),
{
    lemma_object(env, c.owner, p);
    let code = call_code(env, c, p);
    let q = object_end(env, c.owner, p);
    assert(expr_code(env, e, p) == code);
    assert(code.drop_last() =~= object_code(env, c.owner, p) + exprs_code(
        env,
        c.arg@,
        c.arg@.len(),
        q,
    ));
}

/// A call without arguments runs its object and then the method.
pub proof fn law_bare_call_layout(env: Env, e: Expr, c: Call, p: Pos)
    requires
        e.kind == ExprKind::Call(c),
        c.is_arr_len || c.arg@.len() == 0,
    ensures
        expr_code(env, e, p).drop_last() == object_code(env, c.owner, p),
{
    lemma_object(env, c.owner, p);
    let code = call_code(env, c, p);
    assert(expr_code(env, e, p) == code);
    assert(code.drop_last() =~= object_code(env, c.owner, p));
}

proof fn lemma_object(env: Env, owner: Option<Box<Expr>>, p: Pos)
    ensures
        owner_code(env, owner, p) == object_code(env, owner, p),
        owner_end(env, owner, p) == object_end(env, owner, p),
{
}

/// An assignment runs what its target needs, then its source, and then stores. A variable needs the
/// object that stands before it, if there is one; an array element needs the array and the index.
pub proof fn law_assign_layout(env: Env, a: Assign, p: Pos)
    requires
        simple_ok(env, Simple::Assign(a)),
    ensures
        ({
            let code = simple_code(env, Simple::Assign(a), p);
            match a.dst.kind {
                ExprKind::Identifier(i) => code.drop_last() == object_code(env, i.owner, p)
                    + expr_code(env, a.src, object_end(env, i.owner, p)),
                ExprKind::Indexed(i) => code.drop_last() == expr_code(env, *i.arr, p) + expr_code(
                    env,
                    *i.idx,
                    p.past(env, *i.arr),
                ) + expr_code(env, a.src, p.past(env, *i.arr).past(env, *i.idx)),
                _ => false,
            }
        }),
{
    let code = assign_code(env, a, p);
    assert(simple_code(env, Simple::Assign(a), p) == code);
    match a.dst.kind {
        ExprKind::Identifier(i) => {
            lemma_object(env, i.owner, p);
            assert(place_code(env, a.dst, p) == identifier_code(env, i, true, p));
            assert(code.drop_last() =~= object_code(env, i.owner, p) + expr_code(
                env,
                a.src,
                object_end(env, i.owner, p),
            ));
        },
        ExprKind::Indexed(i) => {
            let q = p.past(env, *i.arr).past(env, *i.idx);
            assert(place_code(env, a.dst, p) == indexed_code(env, i, a.dst.type_, true, p));
            assert(code.drop_last() =~= expr_code(env, *i.arr, p) + expr_code(
                env,
                *i.idx,
                p.past(env, *i.arr),
            ) + expr_code(env, a.src, q));
        },
        _ => {},
    }
}

/// A `break` jumps behind the innermost loop; a statement that does nothing has no code.
pub proof fn law_break_layout(env: Env, brk: u16, p: Pos)
    ensures
        stmt_code(env, Stmt::Break, brk, p) == seq![
            Instruction::<Seq<char>, Seq<JType>>::Goto(brk),
        ],
        stmt_code(env, Stmt::Simple(Simple::Skip), brk, p).len() == 0,
{
}

/// A block runs its statements first to last, each in the position that the one before left. A
/// `break` in it leaves the loop that the block stands in.
pub proof fn law_block_layout(env: Env, b: Block, brk: u16, p: Pos, n: nat)
    requires
        0 < n <= b.stmt@.len(),
    ensures
        ({
            let ss = b.stmt@;
            let m = (n - 1) as nat;
            let here = stmts_end(env, ss, m, p);
            &&& stmt_code(env, Stmt::Block(b), brk, p) == block_code(env, b, brk, p)
            &&& block_code(env, b, brk, p) == stmts_code(env, ss, ss.len(), brk, p)
            &&& stmts_code(env, ss, 0, brk, p).len() == 0
            &&& stmts_code(env, ss, n, brk, p) == stmts_code(env, ss, m, brk, p) + stmt_code(
                env,
                ss[n - 1],
                brk,
                here,
            )
            &&& stmts_end(env, ss, 0, p) == p
            &&& stmts_end(env, ss, n, p) == stmt_end(env, ss[n - 1], here)
            &&& block_end(env, b, p) == stmts_end(env, ss, ss.len(), p)
        }),
{
    let here = stmts_end(env, b.stmt@, (n - 1) as nat, p);
    assert(stmts_slots(env, b.stmt@, n, p) == stmt_slots(env, b.stmt@[n - 1], here));
}

/// The code tests the condition, and goes on at a label of its own where it does not hold: behind
/// the first block, where the second stands, if there is one. The first block goes on behind the
/// second.
pub proof fn law_if_layout(env: Env, x: If, brk: u16, p: Pos)
    requires
        p.label + stmt_labels(env, Stmt::If(x)) <= u16::MAX,
    ensures
        ({
            let q = p.step(2, 0);
            let r = q.past(env, x.cond);
            let code = stmt_code(env, Stmt::If(x), brk, p);
            let c = expr_code(env, x.cond, q);
            let a = block_code(env, x.on_true, brk, r);
            let b = if x.on_false is Some {
                block_code(env, x.on_false->0, brk, block_end(env, x.on_true, r))
            } else {
                Seq::empty()
            };
            let n = c.len() as int;
            let k = n + 1 + a.len();
            let (other, out) = (code[k + 1], code.last());
            &&& code.len() == k + 2 + b.len() + 1
            &&& code.take(n) == c
            &&& code[n] is IfEq
            &&& code.subrange(n + 1, k) == a
            &&& code[k] is Goto
            &&& code.subrange(k + 2, k + 2 + b.len()) == b
            &&& other is Label && out is Label && other != out
            &&& target(code[n]) == Some(other->Label_0)
            &&& target(code[k]) == Some(out->Label_0)
        }),
{
    let q = p.step(2, 0);
    let r = q.past(env, x.cond);
    let code = if_code(env, x, brk, p);
    let c = expr_code(env, x.cond, q);
    let a = block_code(env, x.on_true, brk, r);
    let b = if x.on_false is Some {
        block_code(env, x.on_false->0, brk, block_end(env, x.on_true, r))
    } else {
        Seq::empty()
    };
    let n = c.len() as int;
    let k = n + 1 + a.len();
    assert(stmt_code(env, Stmt::If(x), brk, p) == code);
    assert(code.take(n) =~= c);
    assert(code.subrange(n + 1, k) =~= a);
    assert(code.subrange(k + 2, k + 2 + b.len()) =~= b);
}

/// A loop tests its condition before each round, and goes on behind itself where it does not hold;
/// a `break` in its body goes there too.
pub proof fn law_while_layout(env: Env, x: While, brk: u16, p: Pos)
    requires
        p.label + stmt_labels(env, Stmt::While(x)) <= u16::MAX,
    ensures
        ({
            let q = p.step(2, 0);
            let code = stmt_code(env, Stmt::While(x), brk, p);
            let (top, out) = (code[0], code.last());
            let c = expr_code(env, x.cond, q);
            let a = block_code(env, x.body, out->Label_0, q.past(env, x.cond));
            let n = 1 + c.len() as int;
            let k = n + 1 + a.len();
            &&& code.len() == k + 2
            &&& code.subrange(1, n) == c
            &&& code[n] is IfEq
            &&& code.subrange(n + 1, k) == a
            &&& code[k] is Goto
            &&& top is Label && out is Label && top != out
            &&& target(code[n]) == Some(out->Label_0)
            &&& target(code[k]) == Some(top->Label_0)
        }),
{
    let q = p.step(2, 0);
    let code = while_code(env, x, p);
    let c = expr_code(env, x.cond, q);
    let a = block_code(env, x.body, p.at(1), q.past(env, x.cond));
    let n = 1 + c.len() as int;
    assert(stmt_code(env, Stmt::While(x), brk, p) == code);
    assert(code.subrange(1, n) =~= c);
    assert(code.subrange(n + 1, n + 1 + a.len()) =~= a);
}

/// A counting loop starts with its first step, and runs its last step behind each round.
pub proof fn law_for_layout(env: Env, x: For, brk: u16, p: Pos)
    requires
        p.label + stmt_labels(env, Stmt::For(x)) <= u16::MAX,
    ensures
        ({
            let q = p.step(2, 0);
            let r = simple_end(env, x.init, q);
            let t = r.past(env, x.cond);
            let code = stmt_code(env, Stmt::For(x), brk, p);
            let i = simple_code(env, x.init, q);
            let c = expr_code(env, x.cond, r);
            let out = code.last();
            let a = block_code(env, x.body, out->Label_0, t);
            let u = simple_code(env, x.update, block_end(env, x.body, t));
            let top = code[i.len() as int];
            let n = i.len() + 1 + c.len() as int;
            let k = n + 1 + a.len();
            &&& code.len() == k + u.len() + 2
            &&& code.take(i.len() as int) == i
            &&& code.subrange(1 + i.len() as int, n) == c
            &&& code[n] is IfEq
            &&& code.subrange(n + 1, k) == a
            &&& code.subrange(k, k + u.len()) == u
            &&& code[k + u.len()] is Goto
            &&& top is Label && out is Label && top != out
            &&& target(code[n]) == Some(out->Label_0)
            &&& target(code[k + u.len()]) == Some(top->Label_0)
        }),
{
    let q = p.step(2, 0);
    let r = simple_end(env, x.init, q);
    let t = r.past(env, x.cond);
    let code = for_code(env, x, p);
    let i = simple_code(env, x.init, q);
    let c = expr_code(env, x.cond, r);
    let a = block_code(env, x.body, p.at(1), t);
    let u = simple_code(env, x.update, block_end(env, x.body, t));
    let n = i.len() + 1 + c.len() as int;
    let k = n + 1 + a.len();
    assert(stmt_code(env, Stmt::For(x), brk, p) == code);
    assert(code.take(i.len() as int) =~= i);
    assert(code.subrange(1 + i.len() as int, n) =~= c);
    assert(code.subrange(n + 1, k) =~= a);
    assert(code.subrange(k, k + u.len()) =~= u);
}

/// A walk over an array counts from 0 in a local variable of its own, holds the array in another,
/// and leaves where the count is the length, where its condition does not hold, or by a `break`.
/// Behind each round it counts one more.
pub proof fn law_foreach_layout(env: Env, f: Foreach, brk: u16, p: Pos)
    requires
        p.label + stmt_labels(env, Stmt::Foreach(f)) <= u16::MAX,
    ensures
        ({
            let code = stmt_code(env, Stmt::Foreach(f), brk, p);
            let d = if env.vars[f.def as int].scope is Class {
                p
            } else {
                p.bind(f.def, p.local as u8).step(0, 1)
            };
            let q = d.step(0, 2);
            let (it, arr) = (d.local as u8, (d.local + 1) as u8);
            let r = q.past(env, f.arr).step(2, 0);
            let c = if f.cond is Some {
                expr_code(env, f.cond->0, r)
            } else {
                Seq::empty()
            };
            let s = if f.cond is Some {
                r.past(env, f.cond->0)
            } else {
                r
            };
            let out = code.last();
            let test: int = if f.cond is Some {
                1
            } else {
                0
            };
            let a = expr_code(env, f.arr, q);
            let b = block_code(env, f.body, out->Label_0, s);
            let n = 2 + a.len() as int;
            let k = n + 10 + c.len() + test;
            let top = code[n + 1];
            &&& code.len() == k + b.len() + 3
            &&& code[0] == Instruction::<Seq<char>, Seq<JType>>::IntConst(0)
            &&& code[1] == Instruction::<Seq<char>, Seq<JType>>::IStore(it)
            &&& code.subrange(2, n) == a
            &&& code[n] == Instruction::<Seq<char>, Seq<JType>>::AStore(arr)
            &&& code[n + 2] == Instruction::<Seq<char>, Seq<JType>>::ILoad(it)
            &&& code[n + 3] == Instruction::<Seq<char>, Seq<JType>>::ALoad(arr)
            &&& code[n + 4] is ArrayLength
            &&& code[n + 5] is IfICmpGe
            &&& code[n + 6] == Instruction::<Seq<char>, Seq<JType>>::ALoad(arr)
            &&& code[n + 7] == Instruction::<Seq<char>, Seq<JType>>::ILoad(it)
            &&& code.subrange(n + 10, n + 10 + c.len()) == c
            &&& f.cond is Some ==> code[k - 1] is IfEq && target(code[k - 1]) == Some(
                out->Label_0,
            )
            &&& code.subrange(k, k + b.len()) == b
            &&& code[k + b.len()] == Instruction::<Seq<char>, Seq<JType>>::IInc(it, 1)
            &&& code[k + b.len() + 1] is Goto
            &&& top is Label && out is Label && top != out
            &&& target(code[n + 5]) == Some(out->Label_0)
            &&& target(code[k + b.len() + 1]) == Some(top->Label_0)
        }),
{
    let code = foreach_code(env, f, p);
    let q = foreach_array(env, f, p);
    let r = foreach_cond(env, f, p);
    let c = if f.cond is Some {
        expr_code(env, f.cond->0, r)
    } else {
        Seq::empty()
    };
    let test: int = if f.cond is Some {
        1
    } else {
        0
    };
    let a = expr_code(env, f.arr, q);
    let b = block_code(env, f.body, q.past(env, f.arr).at(1), foreach_body(env, f, p));
    let n = 2 + a.len() as int;
    let k = n + 10 + c.len() + test;
    assert(stmt_code(env, Stmt::Foreach(f), brk, p) == code);
    assert(stmt_labels(env, Stmt::Foreach(f)) == foreach_labels(env, f));
    assert(code.len() == k + b.len() + 3);
    assert(code.subrange(2, n) =~= a);
    assert(code.subrange(n + 10, n + 10 + c.len()) =~= c);
    assert(code.subrange(k, k + b.len()) =~= b);
}

/// Guarded blocks stand one behind the other. Each is passed over where its own condition does not
/// hold, and the next is looked at in any case. A `break` in one leaves the loop around them all.
pub proof fn law_guards_layout(env: Env, g: Guarded, brk: u16, p: Pos, n: nat)
    requires
        0 < n <= g.guarded@.len(),
    ensures
        ({
            let gs = g.guarded@;
            let m = (n - 1) as nat;
            let here = guards_end(env, gs, m, p);
            let before = guards_code(env, gs, m, brk, p);
            let code = guards_code(env, gs, n, brk, p);
            let c = expr_code(env, gs[n - 1].0, here.step(1, 0));
            let a = block_code(env, gs[n - 1].1, brk, here.step(1, 0).past(env, gs[n - 1].0));
            let k = before.len() + c.len() as int;
            &&& stmt_code(env, Stmt::Guarded(g), brk, p) == guards_code(env, gs, gs.len(), brk, p)
            &&& guards_code(env, gs, 0, brk, p).len() == 0
            &&& code.len() == k + 1 + a.len() + 1
            &&& code.take(before.len() as int) == before
            &&& code.subrange(before.len() as int, k) == c
            &&& code[k] is IfEq
            &&& code.subrange(k + 1, k + 1 + a.len()) == a
            &&& code.last() is Label
            &&& target(code[k]) == Some(code.last()->Label_0)
            &&& guards_end(env, gs, 0, p) == p
            &&& guards_end(env, gs, n, p).slots == block_end(
                env,
                gs[n - 1].1,
                here.step(1, 0).past(env, gs[n - 1].0),
            ).slots
        }),
{
    let gs = g.guarded@;
    let m = (n - 1) as nat;
    let here = guards_end(env, gs, m, p);
    let before = guards_code(env, gs, m, brk, p);
    let code = guards_code(env, gs, n, brk, p);
    let c = expr_code(env, gs[n - 1].0, here.step(1, 0));
    let a = block_code(env, gs[n - 1].1, brk, here.step(1, 0).past(env, gs[n - 1].0));
    let k = before.len() + c.len() as int;
    assert(code.take(before.len() as int) =~= before);
    assert(code.subrange(before.len() as int, k) =~= c);
    assert(code.subrange(k + 1, k + 1 + a.len()) =~= a);
    assert(guards_slots(env, gs, n, p) == block_slots(
        env,
        gs[n - 1].1,
        here.step(1, 0).past(env, gs[n - 1].0),
    ));
}

/// Where variables are held behind a statement: a declared variable in the local variable that was
/// next, all others where the blocks of the statement have left them, one after the other.
pub proof fn law_slots_left(env: Env, s: Stmt, p: Pos)
    requires
        p.slots.len() == env.vars.len(),
    ensures
        ({
            let left = stmt_end(env, s, p).slots;
            match s {
                Stmt::Simple(Simple::VarAssign(v)) => v.var < p.slots.len() ==> left
                    == p.slots.update(v.var as int, p.local as u8),
                Stmt::If(x) => {
                    let r = p.step(2, 0).past(env, x.cond);
                    let t = block_end(env, x.on_true, r);
                    left == if x.on_false is Some {
                        block_end(env, x.on_false->0, t).slots
                    } else {
                        t.slots
                    }
                },
                Stmt::While(x) => left == block_end(
                    env,
                    x.body,
                    p.step(2, 0).past(env, x.cond),
                ).slots,
                Stmt::For(x) => left == stmt_end(
                    env,
                    Stmt::Simple(x.update),
                    block_end(
                        env,
                        x.body,
                        stmt_end(env, Stmt::Simple(x.init), p.step(2, 0)).past(env, x.cond),
                    ),
                ).slots,
                Stmt::Foreach(x) => left == block_end(env, x.body, foreach_body(env, x, p)).slots,
                Stmt::Guarded(g) => left == guards_end(
                    env,
                    g.guarded@,
                    g.guarded@.len(),
                    p,
                ).slots,
                Stmt::Block(b) => left == block_end(env, b, p).slots,
                _ => left == p.slots,
            }
        }),
{
    if let Stmt::For(x) = s {
        assert(stmt_end(env, Stmt::Simple(x.init), p.step(2, 0)) == simple_end(
            env,
            x.init,
            p.step(2, 0),
        ));
    }
}

} // verus!
