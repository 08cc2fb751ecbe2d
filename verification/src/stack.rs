//! The operand stack: an expression leaves one value, a statement leaves nothing, and every
//! instruction is reached with the same number of values whatever way leads to it.

use vstd::prelude::*;

use crate::ast::{
    Assign, BasicType, Binary, Block, Call, ClassDef, DefaultIndexed, Expr, ExprKind, FieldDef, For,
    Foreach, Identifier, If, Indexed, MethodView, Program, SCopy, SemanticType, Simple, Stmt, Unary,
    While,
};
use crate::instr::{InsnView, Instruction, JType};
use crate::labels::target;
use crate::program::{
    body_ok, body_start, constructor, enter_method, lemma_params_end, lemma_program_method,
    method_code, parent_name, program_class, program_ok, tail_code, world_before,
};
use crate::scheme::{
    arithmetic_insn, assign_code, binary_code, binary_labels, block_code, block_end, block_labels,
    call_code, call_labels, choice_code, comparison_insn, const_insn, copy_code, counter_labels,
    default_code, default_labels, expr_code, expr_labels, exprs_code, exprs_end, exprs_labels,
    fill_code, for_code, foreach_array, foreach_body, foreach_code, foreach_cond, foreach_labels,
    foreach_slots, guards_code, guards_end, guards_labels, identifier_code, identifier_labels,
    if_code, inc_operand, indexed_code, invoke_insn, is_comparison, is_void_call, new_object_code,
    owner_code, owner_end, owner_labels, place_code, place_labels, place_locals, place_store,
    post_inc_code, pre_inc_code, print_code, print_insn, print_stream, s_copy_code, simple_code,
    simple_end, simple_labels, stmt_code, stmt_labels, stmts_code, stmts_end, stmts_labels,
    unary_code, unary_labels, while_code, Env, Pos,
};
use crate::types::{
    array_load_insn, java_type, load_insn, new_array_insn, return_insn, store_insn, zero_insn,
};
use crate::valid::{
    assign_ok, binary_ok, block_ok, call_ok, counter_ok, default_ok, expr_ok, exprs_ok, foreach_ok,
    guards_ok, identifier_ok, indexed_ok, owner_ok, simple_ok, stmt_ok, stmts_ok, unary_ok,
};

verus! {

// ---------------------------------------------------------------------------------------------
// What instructions do to the stack
// ---------------------------------------------------------------------------------------------

/// How many values a result of the type is.
pub open spec fn results(ret: JType) -> int {
    if ret is Void {
        0
    } else {
        1
    }
}

/// How many values the instruction takes from the stack.
pub open spec fn pops(i: InsnView) -> int {
    match i {
        Instruction::ILoad(_) | Instruction::ALoad(_) | Instruction::IInc(_, _) => 0,
        Instruction::IStore(_) | Instruction::AStore(_) => 1,
        Instruction::IntConst(_) | Instruction::BoolConst(_) | Instruction::StringConst(_) => 0,
        Instruction::AConstNull => 0,
        Instruction::Dup | Instruction::Pop => 1,
        Instruction::DupX1 | Instruction::Dup2 | Instruction::Swap => 2,
        Instruction::DupX2 => 3,
        Instruction::IAdd | Instruction::ISub | Instruction::IMul | Instruction::IDiv => 2,
        Instruction::IRem | Instruction::IAnd | Instruction::IOr | Instruction::IXor => 2,
        Instruction::IShl | Instruction::IUShr => 2,
        Instruction::INeg => 1,
        Instruction::IALoad | Instruction::BALoad | Instruction::AALoad => 2,
        Instruction::IAStore | Instruction::BAStore | Instruction::AAStore => 3,
        Instruction::ArrayLength | Instruction::NewIntArray | Instruction::NewBoolArray => 1,
        Instruction::ANewArray(_) => 1,
        Instruction::New(_) | Instruction::GetStatic { .. } => 0,
        Instruction::GetField { .. } => 1,
        Instruction::PutField { .. } => 2,
        Instruction::InvokeSpecial { args, .. } => args.len() + 1int,
        Instruction::InvokeVirtual { args, .. } => args.len() + 1int,
        Instruction::InvokeStatic { args, .. } => args.len() as int,
        Instruction::CheckCast(_) | Instruction::InstanceOf(_) => 1,
        Instruction::Label(_) | Instruction::Goto(_) => 0,
        Instruction::IfEq(_) | Instruction::IfNe(_) | Instruction::IfLt(_) => 1,
        Instruction::IfICmpEq(_) | Instruction::IfICmpNe(_) | Instruction::IfICmpLt(_) => 2,
        Instruction::IfICmpGe(_) | Instruction::IfICmpGt(_) | Instruction::IfICmpLe(_) => 2,
        Instruction::IfACmpEq(_) | Instruction::IfACmpNe(_) => 2,
        Instruction::IReturn | Instruction::AReturn => 1,
        Instruction::Return => 0,
    }
}

/// How many values the instruction puts on the stack.
pub open spec fn pushes(i: InsnView) -> int {
    match i {
        Instruction::ILoad(_) | Instruction::ALoad(_) => 1,
        Instruction::IntConst(_) | Instruction::BoolConst(_) | Instruction::StringConst(_) => 1,
        Instruction::AConstNull => 1,
        Instruction::Dup | Instruction::Swap => 2,
        Instruction::DupX1 => 3,
        Instruction::DupX2 | Instruction::Dup2 => 4,
        Instruction::IAdd | Instruction::ISub | Instruction::IMul | Instruction::IDiv => 1,
        Instruction::IRem | Instruction::IAnd | Instruction::IOr | Instruction::IXor => 1,
        Instruction::IShl | Instruction::IUShr | Instruction::INeg => 1,
        Instruction::IALoad | Instruction::BALoad | Instruction::AALoad => 1,
        Instruction::ArrayLength | Instruction::NewIntArray | Instruction::NewBoolArray => 1,
        Instruction::ANewArray(_) | Instruction::New(_) => 1,
        Instruction::GetField { .. } | Instruction::GetStatic { .. } => 1,
        Instruction::InvokeSpecial { ret, .. } => results(ret),
        Instruction::InvokeVirtual { ret, .. } => results(ret),
        Instruction::InvokeStatic { ret, .. } => results(ret),
        Instruction::CheckCast(_) | Instruction::InstanceOf(_) => 1,
        _ => 0,
    }
}

/// The next instruction may be executed after this one.
pub open spec fn falls_through(i: InsnView) -> bool {
    !(i is Goto || i is IReturn || i is AReturn || i is Return)
}

/// The instruction is right where the stack holds `before` values, and `after` before the next
/// instruction: it takes no value below `floor`, and leads nowhere with another number of values.
pub open spec fn step_fits(
    i: InsnView,
    before: int,
    after: int,
    at: Map<u16, int>,
    floor: int,
) -> bool {
    &&& before - pops(i) >= floor
    &&& falls_through(i) ==> after == before - pops(i) + pushes(i)
    &&& match target(i) {
        Some(l) => at.dom().contains(l) && at[l] == before - pops(i),
        None => true,
    }
    &&& match i {
        Instruction::Label(l) => at.dom().contains(l) && at[l] == before,
        _ => true,
    }
}

/// The first `n` instructions are right with so many values on the stack before each of them, and
/// so many at each label.
pub open spec fn fits(
    code: Seq<InsnView>,
    n: nat,
    depth: Seq<int>,
    at: Map<u16, int>,
    floor: int,
) -> bool
    decreases n,
{
    n == 0 || (fits(code, (n - 1) as nat, depth, at, floor) && step_fits(
        code[n - 1],
        depth[n - 1],
        depth[n as int],
        at,
        floor,
    ))
}

/// The code, entered with `from` values on the stack, is left at its end with `to` values, and
/// takes no value below `floor`.
#[verifier::opaque]
pub open spec fn moves(
    code: Seq<InsnView>,
    from: int,
    to: int,
    at: Map<u16, int>,
    floor: int,
) -> bool {
    exists|depth: Seq<int>|
        {
            &&& depth.len() == code.len() + 1
            &&& depth[0] == from
            &&& depth[code.len() as int] == to
            &&& #[trigger] fits(code, code.len(), depth, at, floor)
        }
}

/// Each instruction of the method is reached with one number of values on the stack, the first
/// with none.
pub open spec fn steady(code: Seq<InsnView>) -> bool {
    exists|depth: Seq<int>, at: Map<u16, int>|
        {
            &&& depth.len() == code.len() + 1
            &&& depth[0] == 0
            &&& #[trigger] fits(code, code.len(), depth, at, 0)
        }
}

proof fn lemma_fits_part(
    a: Seq<InsnView>,
    b: Seq<InsnView>,
    off: nat,
    n: nat,
    da: Seq<int>,
    db: Seq<int>,
    at: Map<u16, int>,
    floor: int,
)
    requires
        forall|i: int| 0 <= i < n ==> b[i] == a[off + i],
        forall|i: int| 0 <= i <= n ==> db[i] == da[off + i],
        fits(b, n, db, at, floor),
        fits(a, off, da, at, floor),
    ensures
        fits(a, off + n, da, at, floor),
    decreases n,
{
    if n > 0 {
        lemma_fits_part(a, b, off, (n - 1) as nat, da, db, at, floor);
        assert(b[n - 1] == a[off + n - 1]);
        assert(db[n - 1] == da[off + n - 1]);
        assert(db[n as int] == da[(off + n) as int]);
    }
}

proof fn lemma_fits_grows(
    code: Seq<InsnView>,
    n: nat,
    depth: Seq<int>,
    at: Map<u16, int>,
    floor: int,
    at2: Map<u16, int>,
    floor2: int,
)
    requires
        fits(code, n, depth, at, floor),
        extends(at2, at),
        floor2 <= floor,
    ensures
        fits(code, n, depth, at2, floor2),
    decreases n,
{
    if n > 0 {
        lemma_fits_grows(code, (n - 1) as nat, depth, at, floor, at2, floor2);
    }
}

/// Every label of `b` has the same number of values in `a`.
pub open spec fn extends(a: Map<u16, int>, b: Map<u16, int>) -> bool {
    forall|l: u16| #[trigger] b.dom().contains(l) ==> a.dom().contains(l) && a[l] == b[l]
}

proof fn lemma_moves_grow(
    code: Seq<InsnView>,
    from: int,
    to: int,
    at: Map<u16, int>,
    floor: int,
    at2: Map<u16, int>,
    floor2: int,
)
    requires
        moves(code, from, to, at, floor),
        extends(at2, at),
        floor2 <= floor,
    ensures
        moves(code, from, to, at2, floor2),
{
    reveal(moves);
    let depth = choose|depth: Seq<int>|
        {
            &&& depth.len() == code.len() + 1
            &&& depth[0] == from
            &&& depth[code.len() as int] == to
            &&& #[trigger] fits(code, code.len(), depth, at, floor)
        };
    lemma_fits_grows(code, code.len(), depth, at, floor, at2, floor2);
}

proof fn lemma_moves_empty(d: int, at: Map<u16, int>, floor: int)
    ensures
        moves(Seq::empty(), d, d, at, floor),
{
    reveal(moves);
    let code = Seq::<InsnView>::empty();
    let depth = seq![d];
    assert(fits(code, code.len(), depth, at, floor));
}

proof fn lemma_moves_add(
    a: Seq<InsnView>,
    b: Seq<InsnView>,
    from: int,
    mid: int,
    to: int,
    at: Map<u16, int>,
    floor: int,
)
    requires
        moves(a, from, mid, at, floor),
        moves(b, mid, to, at, floor),
    ensures
        moves(a + b, from, to, at, floor),
{
    reveal(moves);
    let da = choose|depth: Seq<int>|
        {
            &&& depth.len() == a.len() + 1
            &&& depth[0] == from
            &&& depth[a.len() as int] == mid
            &&& #[trigger] fits(a, a.len(), depth, at, floor)
        };
    let db = choose|depth: Seq<int>|
        {
            &&& depth.len() == b.len() + 1
            &&& depth[0] == mid
            &&& depth[b.len() as int] == to
            &&& #[trigger] fits(b, b.len(), depth, at, floor)
        };
    let d = da.drop_last() + db;
    assert(fits(a + b, 0, d, at, floor));
    lemma_fits_part(a + b, a, 0, a.len(), d, da, at, floor);
    lemma_fits_part(a + b, b, a.len(), b.len(), d, db, at, floor);
    assert((a + b).len() == a.len() + b.len());
}

proof fn lemma_moves_step(i: InsnView, from: int, to: int, at: Map<u16, int>, floor: int)
    requires
        step_fits(i, from, to, at, floor),
    ensures
        moves(seq![i], from, to, at, floor),
{
    reveal(moves);
    let code = seq![i];
    let depth = seq![from, to];
    reveal_with_fuel(fits, 2);
    assert(fits(code, code.len(), depth, at, floor));
}

proof fn lemma_moves_push(
    a: Seq<InsnView>,
    i: InsnView,
    from: int,
    mid: int,
    to: int,
    at: Map<u16, int>,
    floor: int,
)
    requires
        moves(a, from, mid, at, floor),
        step_fits(i, mid, to, at, floor),
    ensures
        moves(a.push(i), from, to, at, floor),
{
    lemma_moves_step(i, mid, to, at, floor);
    lemma_moves_add(a, seq![i], from, mid, to, at, floor);
    assert(a.push(i) =~= a + seq![i]);
}

/// A short piece of code, given with the number of values before each instruction.
proof fn lemma_moves_short(
    code: Seq<InsnView>,
    depth: Seq<int>,
    at: Map<u16, int>,
    floor: int,
)
    requires
        depth.len() == code.len() + 1,
        fits(code, code.len(), depth, at, floor),
    ensures
        moves(code, depth[0], depth[code.len() as int], at, floor),
{
    reveal(moves);
}

// ---------------------------------------------------------------------------------------------
// Labels of parts
// ---------------------------------------------------------------------------------------------

/// All labels are among the `n` labels from `first`.
pub open spec fn within(at: Map<u16, int>, first: nat, n: nat) -> bool {
    forall|l: u16| #[trigger] at.dom().contains(l) ==> first <= l < first + n
}

spec fn join(a: Map<u16, int>, b: Map<u16, int>) -> Map<u16, int> {
    a.union_prefer_right(b)
}

proof fn lemma_join(
    a: Map<u16, int>,
    b: Map<u16, int>,
    first: nat,
    n: nat,
    first2: nat,
    n2: nat,
)
    requires
        within(a, first, n),
        within(b, first2, n2),
        first + n <= first2,
    ensures
        extends(join(a, b), a),
        extends(join(a, b), b),
        within(join(a, b), first, (first2 + n2 - first) as nat),
{
}

/// Two pieces of code one after the other, with labels of their own.
proof fn lemma_cat(
    a: Seq<InsnView>,
    b: Seq<InsnView>,
    depth: (int, int, int),
    at_a: Map<u16, int>,
    at_b: Map<u16, int>,
    floor: int,
    floor_b: int,
    first: nat,
    n: nat,
    n2: nat,
) -> (at: Map<u16, int>)
    requires
        moves(a, depth.0, depth.1, at_a, floor),
        moves(b, depth.1, depth.2, at_b, floor_b),
        floor <= floor_b,
        within(at_a, first, n),
        within(at_b, first + n, n2),
    ensures
        moves(a + b, depth.0, depth.2, at, floor),
        within(at, first, n + n2),
        extends(at, at_a),
        extends(at, at_b),
{
    let at = join(at_a, at_b);
    lemma_join(at_a, at_b, first, n, first + n, n2);
    lemma_moves_grow(a, depth.0, depth.1, at_a, floor, at, floor);
    lemma_moves_grow(b, depth.1, depth.2, at_b, floor_b, at, floor);
    lemma_moves_add(a, b, depth.0, depth.1, depth.2, at, floor);
    at
}

// ---------------------------------------------------------------------------------------------
// Trees whose parts have the values that they need
// ---------------------------------------------------------------------------------------------

/// The expression stands for exactly one value: no part of it is a call without a result, and every
/// call has the arguments that the method takes. An element with a default is not among them,
/// because it leaves the index below its value.
pub open spec fn single(env: Env, e: Expr) -> bool
    decreases e, 0nat,
{
    match e.kind {
        ExprKind::Identifier(i) => env.field_of(i.symbol) is Some ==> owner_single(
            env,
            i.owner,
        ),
        ExprKind::Indexed(i) => single(env, *i.arr) && single(env, *i.idx),
        ExprKind::Const(_) => true,
        ExprKind::Call(c) => call_fits(env, c) && call_results(env, c) == 1,
        ExprKind::Unary(u) => if u.op is Neg || u.op is Not {
            single(env, *u.r)
        } else {
            counter_single(env, *u.r)
        },
        ExprKind::Binary(b) => single(env, *b.l) && single(env, *b.r),
        ExprKind::This => true,
        ExprKind::NewClass(_) => true,
        ExprKind::NewArray(n) => single(env, *n.len),
        ExprKind::TypeCast(t) => single(env, *t.expr),
        ExprKind::TypeTest(t) => single(env, *t.expr),
        ExprKind::Default(_) => false,
    }
}

/// The parts of an element with a default stand for one value each.
pub open spec fn default_single(env: Env, d: DefaultIndexed) -> bool {
    single(env, *d.arr) && single(env, *d.idx) && single(env, *d.dft)
}

pub open spec fn owner_single(env: Env, owner: Option<Box<Expr>>) -> bool
    decreases owner, 0nat,
{
    match owner {
        Some(e) => single(env, *e),
        None => false,
    }
}

pub open spec fn exprs_single(env: Env, es: Seq<Expr>, n: nat) -> bool
    decreases es, n,
{
    n == 0 || n > es.len() || (exprs_single(env, es, (n - 1) as nat) && single(env, es[n - 1]))
}

/// How many values a call leaves.
pub open spec fn call_results(env: Env, c: Call) -> int {
    if !c.is_arr_len && env.methods[c.method->0 as int].ret_t == SemanticType::Basic(
        BasicType::Void,
    ) {
        0
    } else {
        1
    }
}

/// The call has the arguments that the method takes.
pub open spec fn call_fits(env: Env, c: Call) -> bool
    decreases c, 0nat,
{
    if c.is_arr_len {
        owner_single(env, c.owner)
    } else {
        let m = env.methods[c.method->0 as int];
        exprs_single(env, c.arg@, c.arg@.len()) && if m.static_ {
            c.owner is None && c.arg@.len() == m.param.len()
        } else {
            owner_single(env, c.owner) && c.arg@.len() + 1 == m.param.len()
        }
    }
}

pub open spec fn counter_single(env: Env, e: Expr) -> bool
    decreases e, 1nat,
{
    match e.kind {
        ExprKind::Identifier(i) => env.field_of(i.symbol) is Some ==> owner_single(env, i.owner),
        ExprKind::Indexed(i) => single(env, *i.arr) && single(env, *i.idx),
        _ => true,
    }
}

// ---------------------------------------------------------------------------------------------
// Expressions
// ---------------------------------------------------------------------------------------------

/// A choice between two truth values, entered with the operands of its branch.
proof fn lemma_choice(code: Seq<InsnView>, d: int, at: Map<u16, int>, yes: u16, out: u16)
    requires
        code.len() == 6,
        target(code[0]) == Some(yes),
        pushes(code[0]) == 0,
        falls_through(code[0]),
        !(code[0] is Label),
        code[1] is BoolConst,
        code[2] is Goto && code[2]->Goto_0 == out,
        code[3] is Label && code[3]->Label_0 == yes,
        code[4] is BoolConst,
        code[5] is Label && code[5]->Label_0 == out,
        at.dom().contains(yes) && at[yes] == d,
        at.dom().contains(out) && at[out] == d + 1,
    ensures
        moves(code, d + pops(code[0]), d + 1, at, d),
{
    let depth = seq![d + pops(code[0]), d, d + 1, d, d, d + 1, d + 1];
    reveal_with_fuel(fits, 7);
    lemma_moves_short(code, depth, at, d);
}

/// An expression that stands for one value leaves exactly that value on the stack, and touches no
/// value below it.
proof fn lemma_expr(env: Env, e: Expr, p: Pos, d: int) -> (at: Map<u16, int>)
    requires
        expr_ok(env, e),
        single(env, e),
        p.label + expr_labels(env, e) <= u16::MAX,
    ensures
        within(at, p.label, expr_labels(env, e)),
        moves(expr_code(env, e, p), d, d + 1, at, d),
    decreases e, 0nat,
{
    let none = Map::<u16, int>::empty();
    match e.kind {
        ExprKind::Identifier(i) => lemma_identifier(env, i, p, d),
        ExprKind::Indexed(i) => {
            let at = lemma_indexed(env, i, e.type_, p, d);
            let place = indexed_code(env, i, e.type_, true, p);
            lemma_moves_push(
                place,
                array_load_insn(e.type_),
                d,
                d + 2,
                d + 1,
                at,
                d,
            );
            assert(indexed_code(env, i, e.type_, false, p) == place.push(
                array_load_insn(e.type_),
            ));
            at
        },
        ExprKind::Const(c) => {
            lemma_moves_step(const_insn(c), d, d + 1, none, d);
            none
        },
        ExprKind::Call(c) => lemma_call(env, c, p, d),
        ExprKind::Unary(u) => lemma_unary(env, u, p, d),
        ExprKind::Binary(b) => lemma_binary(env, b, p, d),
        ExprKind::This => {
            lemma_moves_step(Instruction::ALoad(0), d, d + 1, none, d);
            none
        },
        ExprKind::NewClass(n) => {
            lemma_new_object(n.name@, d);
            none
        },
        ExprKind::NewArray(n) => {
            let at = lemma_expr(env, *n.len, p, d);
            let i = new_array_insn(env.classes, *e.type_->Array_0);
            lemma_moves_push(expr_code(env, *n.len, p), i, d, d + 1, d + 1, at, d);
            at
        },
        ExprKind::TypeCast(t) => {
            let at = lemma_expr(env, *t.expr, p, d);
            let i = Instruction::CheckCast(t.name@);
            lemma_moves_push(expr_code(env, *t.expr, p), i, d, d + 1, d + 1, at, d);
            at
        },
        ExprKind::TypeTest(t) => {
            let at = lemma_expr(env, *t.expr, p, d);
            let i = Instruction::InstanceOf(t.name@);
            lemma_moves_push(expr_code(env, *t.expr, p), i, d, d + 1, d + 1, at, d);
            at
        },
        ExprKind::Default(_) => none,
    }
}

proof fn lemma_new_object(class: Seq<char>, d: int)
    ensures
        moves(new_object_code(class), d, d + 1, Map::empty(), d),
{
    let depth = seq![d, d + 1, d + 2, d + 1];
    reveal_with_fuel(fits, 4);
    lemma_moves_short(new_object_code(class), depth, Map::empty(), d);
}

proof fn lemma_owner(env: Env, owner: Option<Box<Expr>>, p: Pos, d: int) -> (at: Map<u16, int>)
    requires
        owner_ok(env, owner),
        owner is Some ==> owner_single(env, owner),
        p.label + owner_labels(env, owner) <= u16::MAX,
    ensures
        within(at, p.label, owner_labels(env, owner)),
        owner is Some ==> moves(owner_code(env, owner, p), d, d + 1, at, d),
        owner is None ==> moves(owner_code(env, owner, p), d, d, at, d),
    decreases owner, 0nat,
{
    match owner {
        Some(e) => lemma_expr(env, *e, p, d),
        None => {
            lemma_moves_empty(d, Map::empty(), d);
            Map::empty()
        },
    }
}

proof fn lemma_identifier(env: Env, i: Identifier, p: Pos, d: int) -> (at: Map<u16, int>)
    requires
        identifier_ok(env, i, false),
        env.field_of(i.symbol) is Some ==> owner_single(env, i.owner),
        p.label + identifier_labels(env, i, false) <= u16::MAX,
    ensures
        within(at, p.label, identifier_labels(env, i, false)),
        moves(identifier_code(env, i, false, p), d, d + 1, at, d),
    decreases i, 0nat,
{
    match env.field_of(i.symbol) {
        Some(class) => {
            let at = lemma_owner(env, i.owner, p, d);
            lemma_moves_push(
                owner_code(env, i.owner, p),
                env.get_field(class, env.var(i.symbol)),
                d,
                d + 1,
                d + 1,
                at,
                d,
            );
            at
        },
        None => {
            let load = load_insn(env.var(i.symbol).type_, p.var_slot(i.symbol));
            lemma_moves_step(load, d, d + 1, Map::empty(), d);
            Map::empty()
        },
    }
}

proof fn lemma_indexed(env: Env, i: Indexed, t: SemanticType, p: Pos, d: int) -> (at: Map<
    u16,
    int,
>)
    requires
        indexed_ok(env, i),
        single(env, *i.arr),
        single(env, *i.idx),
        p.label + expr_labels(env, *i.arr) + expr_labels(env, *i.idx) <= u16::MAX,
    ensures
        within(at, p.label, expr_labels(env, *i.arr) + expr_labels(env, *i.idx)),
        moves(indexed_code(env, i, t, true, p), d, d + 2, at, d),
    decreases i, 0nat,
{
    let q = p.past(env, *i.arr);
    let a = lemma_expr(env, *i.arr, p, d);
    let b = lemma_expr(env, *i.idx, q, d + 1);
    lemma_cat(
        expr_code(env, *i.arr, p),
        expr_code(env, *i.idx, q),
        (d, d + 1, d + 2),
        a,
        b,
        d,
        d + 1,
        p.label,
        expr_labels(env, *i.arr),
        expr_labels(env, *i.idx),
    )
}

proof fn lemma_exprs(env: Env, es: Seq<Expr>, n: nat, p: Pos, d: int) -> (at: Map<u16, int>)
    requires
        n <= es.len(),
        exprs_ok(env, es, n),
        exprs_single(env, es, n),
        p.label + exprs_labels(env, es, n) <= u16::MAX,
    ensures
        within(at, p.label, exprs_labels(env, es, n)),
        moves(exprs_code(env, es, n, p), d, d + n, at, d),
    decreases es, n,
{
    if n == 0 {
        lemma_moves_empty(d, Map::empty(), d);
        Map::empty()
    } else {
        let m = (n - 1) as nat;
        let q = exprs_end(env, es, m, p);
        let a = lemma_exprs(env, es, m, p, d);
        let b = lemma_expr(env, es[n - 1], q, d + m);
        lemma_cat(
            exprs_code(env, es, m, p),
            expr_code(env, es[n - 1], q),
            (d, d + m, d + n),
            a,
            b,
            d,
            d + m,
            p.label,
            exprs_labels(env, es, m),
            expr_labels(env, es[n - 1]),
        )
    }
}

proof fn lemma_call(env: Env, c: Call, p: Pos, d: int) -> (at: Map<u16, int>)
    requires
        call_ok(env, c),
        call_fits(env, c),
        p.label + call_labels(env, c) <= u16::MAX,
    ensures
        within(at, p.label, call_labels(env, c)),
        moves(call_code(env, c, p), d, d + call_results(env, c), at, d),
    decreases c, 0nat,
{
    let a = lemma_owner(env, c.owner, p, d);
    if c.is_arr_len {
        lemma_moves_push(
            owner_code(env, c.owner, p),
            Instruction::ArrayLength,
            d,
            d + 1,
            d + 1,
            a,
            d,
        );
        a
    } else {
        let k: int = if c.owner is Some {
            1
        } else {
            0
        };
        let n = c.arg@.len();
        let q = owner_end(env, c.owner, p);
        let b = lemma_exprs(env, c.arg@, n, q, d + k);
        let at = lemma_cat(
            owner_code(env, c.owner, p),
            exprs_code(env, c.arg@, n, q),
            (d, d + k, d + k + n),
            a,
            b,
            d,
            d + k,
            p.label,
            owner_labels(env, c.owner),
            exprs_labels(env, c.arg@, n),
        );
        lemma_moves_push(
            owner_code(env, c.owner, p) + exprs_code(env, c.arg@, n, q),
            invoke_insn(env, env.methods[c.method->0 as int]),
            d,
            d + k + n,
            d + call_results(env, c),
            at,
            d,
        );
        at
    }
}

proof fn lemma_counter(env: Env, e: Expr, val: i32, pre: bool, p: Pos, d: int) -> (at: Map<
    u16,
    int,
>)
    requires
        counter_ok(env, e),
        counter_single(env, e),
        p.label + counter_labels(env, e) <= u16::MAX,
    ensures
        within(at, p.label, counter_labels(env, e)),
        pre ==> moves(pre_inc_code(env, e, val, p), d, d + 1, at, d),
        !pre ==> moves(post_inc_code(env, e, val, p), d, d + 1, at, d),
    decreases e, 1nat,
{
    reveal_with_fuel(fits, 7);
    let none = Map::<u16, int>::empty();
    match e.kind {
        ExprKind::Identifier(i) => match env.field_of(i.symbol) {
            Some(class) => {
                assert(identifier_labels(env, i, false) == owner_labels(env, i.owner));
                let at = lemma_owner(env, i.owner, p, d);
                let get = env.get_field(class, env.var(i.symbol));
                let put = env.put_field(class, env.var(i.symbol));
                let owner = owner_code(env, i.owner, p);
                if pre {
                    let rest = seq![
                        Instruction::Dup,
                        get,
                        Instruction::IntConst(val),
                        Instruction::IAdd,
                        Instruction::DupX1,
                        put,
                    ];
                    let depth = seq![d + 1, d + 2, d + 2, d + 3, d + 2, d + 3, d + 1];
                    lemma_moves_short(rest, depth, at, d);
                    lemma_moves_add(owner, rest, d, d + 1, d + 1, at, d);
                } else {
                    let rest = seq![
                        Instruction::Dup,
                        get,
                        Instruction::DupX1,
                        Instruction::IntConst(val),
                        Instruction::IAdd,
                        put,
                    ];
                    let depth = seq![d + 1, d + 2, d + 2, d + 3, d + 4, d + 3, d + 1];
                    lemma_moves_short(rest, depth, at, d);
                    lemma_moves_add(owner, rest, d, d + 1, d + 1, at, d);
                }
                at
            },
            None => {
                let inc = Instruction::IInc(
                    p.var_slot(i.symbol),
                    inc_operand(val),
                );
                let load = Instruction::ILoad(p.var_slot(i.symbol));
                if pre {
                    lemma_moves_short(seq![inc, load], seq![d, d, d + 1], none, d);
                } else {
                    lemma_moves_short(seq![load, inc], seq![d, d + 1, d + 1], none, d);
                }
                none
            },
        },
        ExprKind::Indexed(i) => {
            assert(indexed_ok(env, i));
            let at = lemma_indexed(env, i, e.type_, p, d);
            let place = indexed_code(env, i, e.type_, true, p);
            if pre {
                let rest = seq![
                    Instruction::Dup2,
                    Instruction::IALoad,
                    Instruction::IntConst(val),
                    Instruction::IAdd,
                    Instruction::DupX2,
                    Instruction::IAStore,
                ];
                let depth = seq![d + 2, d + 4, d + 3, d + 4, d + 3, d + 4, d + 1];
                lemma_moves_short(rest, depth, at, d);
                lemma_moves_add(place, rest, d, d + 2, d + 1, at, d);
            } else {
                let rest = seq![
                    Instruction::Dup2,
                    Instruction::IALoad,
                    Instruction::DupX2,
                    Instruction::IntConst(val),
                    Instruction::IAdd,
                    Instruction::IAStore,
                ];
                let depth = seq![d + 2, d + 4, d + 3, d + 4, d + 5, d + 4, d + 1];
                lemma_moves_short(rest, depth, at, d);
                lemma_moves_add(place, rest, d, d + 2, d + 1, at, d);
            }
            at
        },
        _ => none,
    }
}

proof fn lemma_unary(env: Env, u: Unary, p: Pos, d: int) -> (at: Map<u16, int>)
    requires
        unary_ok(env, u),
        u.op is Neg || u.op is Not ==> single(env, *u.r),
        !(u.op is Neg || u.op is Not) ==> counter_single(env, *u.r),
        p.label + unary_labels(env, u) <= u16::MAX,
    ensures
        within(at, p.label, unary_labels(env, u)),
        moves(unary_code(env, u, p), d, d + 1, at, d),
    decreases u, 0nat,
{
    if u.op is Neg {
        let at = lemma_expr(env, *u.r, p, d);
        lemma_moves_push(
            expr_code(env, *u.r, p),
            Instruction::INeg,
            d,
            d + 1,
            d + 1,
            at,
            d,
        );
        at
    } else if u.op is Not {
        let q = p.step(2, 0);
        let a = lemma_expr(env, *u.r, q, d);
        let at = a.insert(p.at(0), d).insert(p.at(1), d + 1);
        let choice = choice_code(Instruction::IfEq(p.at(0)), p.at(0), p.at(1));
        lemma_choice(choice, d, at, p.at(0), p.at(1));
        lemma_moves_grow(expr_code(env, *u.r, q), d, d + 1, a, d, at, d);
        lemma_moves_add(expr_code(env, *u.r, q), choice, d, d + 1, d + 1, at, d);
        at
    } else if u.op is PreInc {
        lemma_counter(env, *u.r, 1, true, p, d)
    } else if u.op is PreDec {
        lemma_counter(env, *u.r, (-1) as i32, true, p, d)
    } else if u.op is PostInc {
        lemma_counter(env, *u.r, 1, false, p, d)
    } else {
        lemma_counter(env, *u.r, (-1) as i32, false, p, d)
    }
}

proof fn lemma_fill(
    classes: Seq<ClassDef>,
    elem: SemanticType,
    labels: (u16, u16),
    locals: (u8, u8, u8),
    at: Map<u16, int>,
    d: int,
)
    requires
        at.dom().contains(labels.0) && at[labels.0] == d,
        at.dom().contains(labels.1) && at[labels.1] == d,
    ensures
        moves(fill_code(classes, elem, labels, locals), d + 1, d + 1, at, d),
{
    let depth = seq![
        d + 1,
        d + 1,
        d,
        d + 1,
        d,
        d,
        d + 1,
        d + 2,
        d + 2,
        d,
        d + 1,
        d + 2,
        d + 3,
        d,
        d,
        d,
        d,
        d + 1,
    ];
    reveal_with_fuel(fits, 18);
    lemma_moves_short(fill_code(classes, elem, labels, locals), depth, at, d);
}

proof fn lemma_binary(env: Env, b: Binary, p: Pos, d: int) -> (at: Map<u16, int>)
    requires
        binary_ok(env, b),
        single(env, *b.l),
        single(env, *b.r),
        p.label + binary_labels(env, b) <= u16::MAX,
    ensures
        within(at, p.label, binary_labels(env, b)),
        moves(binary_code(env, b, p), d, d + 1, at, d),
    decreases b, 0nat,
{
    let (n, n2) = (expr_labels(env, *b.l), expr_labels(env, *b.r));
    if b.op is Repeat {
        let q = p.step(2, 3);
        let (l, r) = (expr_code(env, *b.l, q), expr_code(env, *b.r, q.past(env, *b.l)));
        let at_l = lemma_expr(env, *b.l, q, d);
        let at_r = lemma_expr(env, *b.r, q.past(env, *b.l), d);
        let store = store_insn(b.l.type_, p.slot(0));
        lemma_moves_push(l, store, d, d + 1, d, at_l, d);
        let a = lemma_cat(l.push(store), r, (d, d, d + 1), at_l, at_r, d, d, q.label, n, n2);
        let at = a.insert(p.at(0), d).insert(p.at(1), d);
        let fill = fill_code(
            env.classes,
            b.l.type_,
            (p.at(0), p.at(1)),
            (p.slot(0), p.slot(1), p.slot(2)),
        );
        lemma_fill(
            env.classes,
            b.l.type_,
            (p.at(0), p.at(1)),
            (p.slot(0), p.slot(1), p.slot(2)),
            at,
            d,
        );
        lemma_moves_grow(l.push(store) + r, d, d + 1, a, d, at, d);
        lemma_moves_add(l.push(store) + r, fill, d, d + 1, d + 1, at, d);
        at
    } else if b.op is And || b.op is Or {
        let q = p.step(2, 0);
        let (l, r) = (expr_code(env, *b.l, q), expr_code(env, *b.r, q.past(env, *b.l)));
        let at_l = lemma_expr(env, *b.l, q, d);
        let at_r = lemma_expr(env, *b.r, q.past(env, *b.l), d);
        let branch: InsnView = if b.op is And {
            Instruction::IfEq(p.at(1))
        } else {
            Instruction::IfNe(p.at(1))
        };
        let rest: Seq<InsnView> = seq![
            branch,
            Instruction::BoolConst(b.op is And),
            Instruction::Goto(p.at(0)),
            Instruction::Label(p.at(1)),
            Instruction::BoolConst(b.op is Or),
            Instruction::Label(p.at(0)),
        ];
        let own = Map::<u16, int>::empty().insert(p.at(1), d).insert(p.at(0), d + 1);
        let at2 = join(own, at_l);
        lemma_join(own, at_l, p.label, 2, q.label, n);
        lemma_moves_grow(l, d, d + 1, at_l, d, at2, d);
        lemma_moves_push(l, branch, d, d + 1, d, at2, d);
        let at = lemma_cat(
            l.push(branch),
            r,
            (d, d, d + 1),
            at2,
            at_r,
            d,
            d,
            p.label,
            2 + n,
            n2,
        );
        assert(own.dom().contains(p.at(1)) && own.dom().contains(p.at(0)));
        assert(at2.dom().contains(p.at(1)) && at2.dom().contains(p.at(0)));
        lemma_choice(rest, d, at, p.at(1), p.at(0));
        lemma_moves_add(l.push(branch) + r, rest, d, d + 1, d + 1, at, d);
        assert(binary_code(env, b, p) =~= l.push(branch) + r + rest);
        at
    } else {
        let q = p.past(env, *b.l);
        let (l, r) = (expr_code(env, *b.l, p), expr_code(env, *b.r, q));
        let at_l = lemma_expr(env, *b.l, p, d);
        let at_r = lemma_expr(env, *b.r, q, d + 1);
        let a = lemma_cat(
            l,
            r,
            (d, d + 1, d + 2),
            at_l,
            at_r,
            d,
            d + 1,
            p.label,
            n,
            n2,
        );
        if is_comparison(b.op) {
            let s = q.past(env, *b.r);
            let at = a.insert(s.at(0), d).insert(s.at(1), d + 1);
            let branch = comparison_insn(b.op, b.l.type_, s.at(0));
            let choice = choice_code(branch, s.at(0), s.at(1));
            lemma_choice(choice, d, at, s.at(0), s.at(1));
            lemma_moves_grow(l + r, d, d + 2, a, d, at, d);
            lemma_moves_add(l + r, choice, d, d + 2, d + 1, at, d);
            at
        } else {
            let i = arithmetic_insn(b.op);
            lemma_moves_push(l + r, i, d, d + 2, d + 1, a, d);
            a
        }
    }
}

proof fn lemma_default(env: Env, x: DefaultIndexed, t: SemanticType, p: Pos, d: int) -> (at: Map<
    u16,
    int,
>)
    requires
        default_ok(env, x),
        default_single(env, x),
        p.label + default_labels(env, x) <= u16::MAX,
    ensures
        within(at, p.label, default_labels(env, x)),
        moves(default_code(env, x, t, p), d, d + 2, at, d),
{
    let q = p.step(2, 1);
    let r = q.past(env, *x.arr);
    let s = r.past(env, *x.idx);
    let (na, ni) = (expr_labels(env, *x.arr), expr_labels(env, *x.idx));
    let a = lemma_expr(env, *x.arr, q, d);
    let i = lemma_expr(env, *x.idx, r, d);
    let e = lemma_expr(env, *x.dft, s, d + 1);
    let own = Map::<u16, int>::empty().insert(p.at(0), d + 1).insert(p.at(1), d + 2);
    let j0 = join(own, a);
    let j1 = join(j0, i);
    let at = join(j1, e);
    lemma_join(own, a, p.label, 2, q.label, na);
    lemma_join(j0, i, p.label, 2 + na, r.label, ni);
    lemma_join(j1, e, p.label, 2 + na + ni, s.label, expr_labels(env, *x.dft));
    assert(own.dom().contains(p.at(0)) && own.dom().contains(p.at(1)));
    assert(extends(at, own));
    assert(extends(at, a));
    assert(extends(at, i));
    let arr = expr_code(env, *x.arr, q);
    let idx = expr_code(env, *x.idx, r);
    let dft = expr_code(env, *x.dft, s);
    let keep = Instruction::AStore(p.slot(0));
    let end = Instruction::Label(p.at(1));
    lemma_moves_grow(arr, d, d + 1, a, d, at, d);
    lemma_moves_grow(idx, d, d + 1, i, d, at, d);
    lemma_moves_grow(dft, d + 1, d + 2, e, d + 1, at, d);
    lemma_moves_push(arr, keep, d, d + 1, d, at, d);
    lemma_moves_push(dft, end, d + 1, d + 2, d + 2, at, d);
    lemma_moves_add(arr.push(keep), idx, d, d, d + 1, at, d);
    let element = default_element(t, p.slot(0), (p.at(0), p.at(1)));
    lemma_default_element(t, p.slot(0), (p.at(0), p.at(1)), at, d);
    lemma_moves_add(arr.push(keep) + idx, element, d, d + 1, d + 1, at, d);
    lemma_moves_add(arr.push(keep) + idx + element, dft.push(end), d, d + 1, d + 2, at, d);
    at
}

/// What an element with a default does with its index: take the element, or go on to the default.
spec fn default_element(t: SemanticType, arr: u8, labels: (u16, u16)) -> Seq<InsnView> {
    seq![
        Instruction::Dup,
        Instruction::IfLt(labels.0),
        Instruction::Dup,
        Instruction::ALoad(arr),
        Instruction::ArrayLength,
        Instruction::IfICmpGe(labels.0),
        Instruction::Dup,
        Instruction::ALoad(arr),
        Instruction::Swap,
        array_load_insn(t),
        Instruction::Goto(labels.1),
        Instruction::Label(labels.0),
    ]
}

proof fn lemma_default_element(
    t: SemanticType,
    arr: u8,
    labels: (u16, u16),
    at: Map<u16, int>,
    d: int,
)
    requires
        at.dom().contains(labels.0) && at[labels.0] == d + 1,
        at.dom().contains(labels.1) && at[labels.1] == d + 2,
    ensures
        moves(default_element(t, arr, labels), d + 1, d + 1, at, d),
{
    let code = default_element(t, arr, labels);
    let depth = seq![
        d + 1,
        d + 2,
        d + 1,
        d + 2,
        d + 3,
        d + 3,
        d + 1,
        d + 2,
        d + 3,
        d + 3,
        d + 2,
        d + 1,
        d + 1,
    ];
    assert(fits(code, code.len(), depth, at, d)) by {
        reveal_with_fuel(fits, 13);
    }
    lemma_moves_short(code, depth, at, d);
}

// ---------------------------------------------------------------------------------------------
// Statements
// ---------------------------------------------------------------------------------------------

/// The target of an assignment has exactly the values that the store takes: the owner of a field,
/// or an array and an index, or nothing for a local variable.
pub open spec fn place_tidy(env: Env, e: Expr) -> bool {
    match e.kind {
        ExprKind::Identifier(i) => if env.field_of(i.symbol) is Some {
            owner_single(env, i.owner)
        } else {
            i.owner is None
        },
        ExprKind::Indexed(i) => single(env, *i.arr) && single(env, *i.idx),
        _ => true,
    }
}

pub open spec fn simple_tidy(env: Env, s: Simple) -> bool {
    match s {
        Simple::Assign(a) => place_tidy(env, a.dst) && single(env, a.src),
        Simple::VarAssign(v) => match v.src {
            Some(e) => single(env, e),
            None => true,
        },
        Simple::Expr(e) => match e.kind {
            ExprKind::Call(c) => call_fits(env, c) && (c.is_arr_len ==> !is_void_call(env, e)),
            _ => single(env, e),
        },
        Simple::Skip => true,
    }
}

/// Every expression in the statement stands for one value, but for a call without a result used as
/// a statement.
pub open spec fn stmt_tidy(env: Env, s: Stmt) -> bool
    decreases s, 0nat,
{
    match s {
        Stmt::Simple(s) => simple_tidy(env, s),
        Stmt::If(i) => single(env, i.cond) && block_tidy(env, i.on_true) && match i.on_false {
            Some(b) => block_tidy(env, b),
            None => true,
        },
        Stmt::While(w) => single(env, w.cond) && block_tidy(env, w.body),
        Stmt::For(f) => simple_tidy(env, f.init) && single(env, f.cond) && simple_tidy(
            env,
            f.update,
        ) && block_tidy(env, f.body),
        Stmt::Return(r) => match r.expr {
            Some(e) => match e.kind {
                ExprKind::Default(d) => default_single(env, d),
                _ => single(env, e),
            },
            None => true,
        },
        Stmt::Print(p) => exprs_single(env, p.print@, p.print@.len()),
        Stmt::Break => true,
        Stmt::SCopy(c) => single(env, c.src),
        Stmt::Foreach(f) => foreach_tidy(env, f),
        Stmt::Guarded(g) => guards_tidy(env, g.guarded@, g.guarded@.len()),
        Stmt::Block(b) => block_tidy(env, b),
    }
}

pub open spec fn foreach_tidy(env: Env, f: Foreach) -> bool
    decreases f, 0nat,
{
    single(env, f.arr) && block_tidy(env, f.body) && match f.cond {
        Some(e) => single(env, e),
        None => true,
    }
}

pub open spec fn block_tidy(env: Env, b: Block) -> bool
    decreases b, 0nat,
{
    stmts_tidy(env, b.stmt@, b.stmt@.len())
}

pub open spec fn stmts_tidy(env: Env, ss: Seq<Stmt>, n: nat) -> bool
    decreases ss, n,
{
    n == 0 || n > ss.len() || (stmts_tidy(env, ss, (n - 1) as nat) && stmt_tidy(env, ss[n - 1]))
}

pub open spec fn guards_tidy(env: Env, gs: Seq<(Expr, Block)>, n: nat) -> bool
    decreases gs, n,
{
    n == 0 || n > gs.len() || (guards_tidy(env, gs, (n - 1) as nat) && single(env, gs[n - 1].0)
        && block_tidy(env, gs[n - 1].1))
}

/// The labels of a statement, and the one behind the loop that it stands in.
spec fn with_brk(at: Map<u16, int>, in_loop: bool, brk: u16, d: int) -> Map<u16, int> {
    if in_loop {
        at.insert(brk, d)
    } else {
        at
    }
}

/// The label behind the loop is none of the statement's own.
spec fn outside(in_loop: bool, brk: u16, first: nat, n: nat) -> bool {
    in_loop ==> brk < first || first + n <= brk
}

proof fn lemma_simple(env: Env, s: Simple, p: Pos, d: int) -> (at: Map<u16, int>)
    requires
        simple_ok(env, s),
        simple_tidy(env, s),
        p.label + simple_labels(env, s) <= u16::MAX,
    ensures
        within(at, p.label, simple_labels(env, s)),
        moves(simple_code(env, s, p), d, d, at, d),
{
    let none = Map::<u16, int>::empty();
    match s {
        Simple::Assign(a) => lemma_assign(env, a, p, d),
        Simple::VarAssign(v) => {
            let t = env.vars[v.var as int].type_;
            let store = store_insn(t, p.slot(0));
            match v.src {
                Some(e) => {
                    let q = p.bind(v.var, p.slot(0)).step(0, 1);
                    let at = lemma_expr(env, e, q, d);
                    lemma_moves_push(expr_code(env, e, q), store, d, d + 1, d, at, d);
                    at
                },
                None => {
                    let zero = zero_insn(t);
                    lemma_moves_step(zero, d, d + 1, none, d);
                    lemma_moves_push(seq![zero], store, d, d + 1, d, none, d);
                    none
                },
            }
        },
        Simple::Expr(e) => {
            let code = expr_code(env, e, p);
            match e.kind {
                ExprKind::Call(c) => {
                    assert(expr_labels(env, e) == call_labels(env, c));
                    assert(expr_code(env, e, p) == call_code(env, c, p));
                    assert(call_ok(env, c));
                    let at = lemma_call(env, c, p, d);
                    if !is_void_call(env, e) {
                        lemma_moves_push(code, Instruction::Pop, d, d + 1, d, at, d);
                    }
                    at
                },
                _ => {
                    let at = lemma_expr(env, e, p, d);
                    lemma_moves_push(code, Instruction::Pop, d, d + 1, d, at, d);
                    at
                },
            }
        },
        Simple::Skip => {
            lemma_moves_empty(d, none, d);
            none
        },
    }
}

proof fn lemma_assign(env: Env, a: Assign, p: Pos, d: int) -> (at: Map<u16, int>)
    requires
        assign_ok(env, a),
        place_tidy(env, a.dst),
        single(env, a.src),
        p.label + place_labels(env, a.dst) + expr_labels(env, a.src) <= u16::MAX,
    ensures
        within(at, p.label, place_labels(env, a.dst) + expr_labels(env, a.src)),
        moves(assign_code(env, a, p), d, d, at, d),
{
    let n = place_labels(env, a.dst);
    let q = p.step(n, place_locals(env, a.dst));
    let place = place_code(env, a.dst, p);
    let store = place_store(env, a.dst, p.slots);
    let (k, at_p): (int, Map<u16, int>) = match a.dst.kind {
        ExprKind::Identifier(i) => {
            assert(identifier_ok(env, i, true));
            assert(identifier_labels(env, i, true) == owner_labels(env, i.owner));
            assert(identifier_code(env, i, true, p) == owner_code(env, i.owner, p));
            let at = lemma_owner(env, i.owner, p, d);
            (
                if i.owner is Some {
                    1
                } else {
                    0
                },
                at,
            )
        },
        ExprKind::Indexed(i) => (2, lemma_indexed(env, i, a.dst.type_, p, d)),
        _ => (0, Map::empty()),
    };
    let at_s = lemma_expr(env, a.src, q, d + k);
    let src = expr_code(env, a.src, q);
    let at = lemma_cat(
        place,
        src,
        (d, d + k, d + k + 1),
        at_p,
        at_s,
        d,
        d + k,
        p.label,
        n,
        expr_labels(env, a.src),
    );
    lemma_moves_push(place + src, store, d, d + k + 1, d, at, d);
    at
}

proof fn lemma_stmt(env: Env, s: Stmt, in_loop: bool, brk: u16, p: Pos, d: int) -> (at: Map<
    u16,
    int,
>)
    requires
        stmt_ok(env, s, in_loop),
        stmt_tidy(env, s),
        p.label + stmt_labels(env, s) <= u16::MAX,
        outside(in_loop, brk, p.label, stmt_labels(env, s)),
    ensures
        within(at, p.label, stmt_labels(env, s)),
        moves(stmt_code(env, s, brk, p), d, d, with_brk(at, in_loop, brk, d), d),
    decreases s, 0nat,
{
    let none = Map::<u16, int>::empty();
    match s {
        Stmt::Simple(x) => {
            let at = lemma_simple(env, x, p, d);
            lemma_moves_grow(
                simple_code(env, x, p),
                d,
                d,
                at,
                d,
                with_brk(at, in_loop, brk, d),
                d,
            );
            at
        },
        Stmt::If(x) => lemma_if(env, x, in_loop, brk, p, d),
        Stmt::While(x) => {
            let at = lemma_while(env, x, p, d);
            lemma_moves_grow(
                while_code(env, x, p),
                d,
                d,
                at,
                d,
                with_brk(at, in_loop, brk, d),
                d,
            );
            at
        },
        Stmt::For(x) => {
            let at = lemma_for(env, x, p, d);
            lemma_moves_grow(for_code(env, x, p), d, d, at, d, with_brk(at, in_loop, brk, d), d);
            at
        },
        Stmt::Return(r) => match r.expr {
            Some(e) => {
                let code = expr_code(env, e, p);
                let ret = return_insn(e.type_);
                let (at, n) = match e.kind {
                    ExprKind::Default(x) => {
                        assert(default_ok(env, x));
                        assert(expr_labels(env, e) == default_labels(env, x));
                        assert(code == default_code(env, x, e.type_, p));
                        (lemma_default(env, x, e.type_, p, d), 2int)
                    },
                    _ => (lemma_expr(env, e, p, d), 1int),
                };
                lemma_moves_push(code, ret, d, d + n, d, at, d);
                lemma_moves_grow(
                    code.push(ret),
                    d,
                    d,
                    at,
                    d,
                    with_brk(at, in_loop, brk, d),
                    d,
                );
                at
            },
            None => {
                lemma_moves_step(Instruction::Return, d, d, with_brk(none, in_loop, brk, d), d);
                none
            },
        },
        Stmt::Print(x) => {
            let at = lemma_print(env, x.print@, x.print@.len(), p, d);
            lemma_moves_grow(
                print_code(env, x.print@, x.print@.len(), p),
                d,
                d,
                at,
                d,
                with_brk(at, in_loop, brk, d),
                d,
            );
            at
        },
        Stmt::Break => {
            lemma_moves_step(Instruction::Goto(brk), d, d, with_brk(none, in_loop, brk, d), d);
            none
        },
        Stmt::SCopy(x) => {
            let at = lemma_s_copy(env, x, p, d);
            lemma_moves_grow(
                s_copy_code(env, x, p),
                d,
                d,
                at,
                d,
                with_brk(at, in_loop, brk, d),
                d,
            );
            at
        },
        Stmt::Foreach(x) => {
            let at = lemma_foreach(env, x, p, d);
            lemma_moves_grow(
                foreach_code(env, x, p),
                d,
                d,
                at,
                d,
                with_brk(at, in_loop, brk, d),
                d,
            );
            at
        },
        Stmt::Guarded(g) => lemma_guards(
            env,
            g.guarded@,
            g.guarded@.len(),
            in_loop,
            brk,
            p,
            d,
        ),
        Stmt::Block(b) => lemma_block(env, b, in_loop, brk, p, d),
    }
}

proof fn lemma_block(env: Env, b: Block, in_loop: bool, brk: u16, p: Pos, d: int) -> (at: Map<
    u16,
    int,
>)
    requires
        block_ok(env, b, in_loop),
        block_tidy(env, b),
        p.label + block_labels(env, b) <= u16::MAX,
        outside(in_loop, brk, p.label, block_labels(env, b)),
    ensures
        within(at, p.label, block_labels(env, b)),
        moves(block_code(env, b, brk, p), d, d, with_brk(at, in_loop, brk, d), d),
    decreases b, 0nat,
{
    lemma_stmts(env, b.stmt@, b.stmt@.len(), in_loop, brk, p, d)
}

proof fn lemma_stmts(
    env: Env,
    ss: Seq<Stmt>,
    n: nat,
    in_loop: bool,
    brk: u16,
    p: Pos,
    d: int,
) -> (at: Map<u16, int>)
    requires
        n <= ss.len(),
        stmts_ok(env, ss, n, in_loop),
        stmts_tidy(env, ss, n),
        p.label + stmts_labels(env, ss, n) <= u16::MAX,
        outside(in_loop, brk, p.label, stmts_labels(env, ss, n)),
    ensures
        within(at, p.label, stmts_labels(env, ss, n)),
        moves(stmts_code(env, ss, n, brk, p), d, d, with_brk(at, in_loop, brk, d), d),
    decreases ss, n,
{
    if n == 0 {
        lemma_moves_empty(d, with_brk(Map::empty(), in_loop, brk, d), d);
        Map::empty()
    } else {
        let m = (n - 1) as nat;
        let q = stmts_end(env, ss, m, p);
        let a = lemma_stmts(env, ss, m, in_loop, brk, p, d);
        let b = lemma_stmt(env, ss[n - 1], in_loop, brk, q, d);
        let (n1, n2) = (stmts_labels(env, ss, m), stmt_labels(env, ss[n - 1]));
        lemma_join(a, b, p.label, n1, q.label, n2);
        let at = join(a, b);
        let all = with_brk(at, in_loop, brk, d);
        let (x, y) = (stmts_code(env, ss, m, brk, p), stmt_code(env, ss[n - 1], brk, q));
        lemma_moves_grow(x, d, d, with_brk(a, in_loop, brk, d), d, all, d);
        lemma_moves_grow(y, d, d, with_brk(b, in_loop, brk, d), d, all, d);
        lemma_moves_add(x, y, d, d, d, all, d);
        at
    }
}

/// Two labels, each with `d` values.
spec fn two(a: u16, b: u16, d: int) -> Map<u16, int> {
    Map::<u16, int>::empty().insert(a, d).insert(b, d)
}

proof fn lemma_if(env: Env, x: If, in_loop: bool, brk: u16, p: Pos, d: int) -> (at: Map<u16, int>)
    requires
        stmt_ok(env, Stmt::If(x), in_loop),
        stmt_tidy(env, Stmt::If(x)),
        p.label + stmt_labels(env, Stmt::If(x)) <= u16::MAX,
        outside(in_loop, brk, p.label, stmt_labels(env, Stmt::If(x))),
    ensures
        within(at, p.label, stmt_labels(env, Stmt::If(x))),
        moves(if_code(env, x, brk, p), d, d, with_brk(at, in_loop, brk, d), d),
    decreases x, 0nat,
{
    let q = p.step(2, 0);
    let r = q.past(env, x.cond);
    let s = block_end(env, x.on_true, r);
    let (nc, nt) = (expr_labels(env, x.cond), block_labels(env, x.on_true));
    let c = lemma_expr(env, x.cond, q, d);
    let t = lemma_block(env, x.on_true, in_loop, brk, r, d);
    let (f, nf, on_false): (Map<u16, int>, nat, Seq<InsnView>) = match x.on_false {
        Some(b) => {
            let f = lemma_block(env, b, in_loop, brk, s, d);
            (f, block_labels(env, b), block_code(env, b, brk, s))
        },
        None => {
            lemma_moves_empty(d, with_brk(Map::empty(), in_loop, brk, d), d);
            (Map::empty(), 0, Seq::empty())
        },
    };
    let own = two(p.at(0), p.at(1), d);
    let j1 = join(own, c);
    let j2 = join(j1, t);
    let at = join(j2, f);
    lemma_join(own, c, p.label, 2, q.label, nc);
    lemma_join(j1, t, p.label, 2 + nc, r.label, nt);
    lemma_join(j2, f, p.label, 2 + nc + nt, s.label, nf);
    assert(own.dom().contains(p.at(0)) && own.dom().contains(p.at(1)));
    let all = with_brk(at, in_loop, brk, d);
    assert(extends(all, own));
    assert(extends(all, c));
    assert(extends(all, with_brk(t, in_loop, brk, d)));
    assert(extends(all, with_brk(f, in_loop, brk, d)));
    let (cond, on_true) = (expr_code(env, x.cond, q), block_code(env, x.on_true, brk, r));
    lemma_moves_grow(cond, d, d + 1, c, d, all, d);
    lemma_moves_grow(on_true, d, d, with_brk(t, in_loop, brk, d), d, all, d);
    lemma_moves_grow(on_false, d, d, with_brk(f, in_loop, brk, d), d, all, d);
    let test = Instruction::IfEq(p.at(0));
    lemma_moves_push(cond, test, d, d + 1, d, all, d);
    lemma_moves_add(cond.push(test), on_true, d, d, d, all, d);
    let mid: Seq<InsnView> = seq![Instruction::Goto(p.at(1)), Instruction::Label(p.at(0))];
    assert(fits(mid, mid.len(), seq![d, d, d], all, d)) by {
        reveal_with_fuel(fits, 3);
    }
    lemma_moves_short(mid, seq![d, d, d], all, d);
    lemma_moves_add(cond.push(test) + on_true, mid, d, d, d, all, d);
    let end = Instruction::Label(p.at(1));
    lemma_moves_push(on_false, end, d, d, d, all, d);
    lemma_moves_add(cond.push(test) + on_true + mid, on_false.push(end), d, d, d, all, d);
    at
}

proof fn lemma_while(env: Env, x: While, p: Pos, d: int) -> (at: Map<u16, int>)
    requires
        stmt_ok(env, Stmt::While(x), false),
        stmt_tidy(env, Stmt::While(x)),
        p.label + stmt_labels(env, Stmt::While(x)) <= u16::MAX,
    ensures
        within(at, p.label, stmt_labels(env, Stmt::While(x))),
        moves(while_code(env, x, p), d, d, at, d),
    decreases x, 0nat,
{
    let q = p.step(2, 0);
    let r = q.past(env, x.cond);
    let (nc, nb) = (expr_labels(env, x.cond), block_labels(env, x.body));
    let c = lemma_expr(env, x.cond, q, d);
    let b = lemma_block(env, x.body, true, p.at(1), r, d);
    let own = two(p.at(0), p.at(1), d);
    let j1 = join(own, c);
    let at = join(j1, b);
    lemma_join(own, c, p.label, 2, q.label, nc);
    lemma_join(j1, b, p.label, 2 + nc, r.label, nb);
    assert(own.dom().contains(p.at(0)) && own.dom().contains(p.at(1)));
    assert(extends(at, own));
    assert(extends(at, c));
    assert(extends(at, with_brk(b, true, p.at(1), d)));
    let (cond, body) = (expr_code(env, x.cond, q), block_code(env, x.body, p.at(1), r));
    lemma_moves_grow(cond, d, d + 1, c, d, at, d);
    lemma_moves_grow(body, d, d, with_brk(b, true, p.at(1), d), d, at, d);
    let start: Seq<InsnView> = seq![Instruction::Label(p.at(0))];
    lemma_moves_step(Instruction::Label(p.at(0)), d, d, at, d);
    let test = Instruction::IfEq(p.at(1));
    lemma_moves_push(cond, test, d, d + 1, d, at, d);
    lemma_moves_add(start, cond.push(test), d, d, d, at, d);
    lemma_moves_add(start + cond.push(test), body, d, d, d, at, d);
    let end: Seq<InsnView> = seq![Instruction::Goto(p.at(0)), Instruction::Label(p.at(1))];
    assert(fits(end, end.len(), seq![d, d, d], at, d)) by {
        reveal_with_fuel(fits, 3);
    }
    lemma_moves_short(end, seq![d, d, d], at, d);
    lemma_moves_add(start + cond.push(test) + body, end, d, d, d, at, d);
    at
}

proof fn lemma_for(env: Env, x: For, p: Pos, d: int) -> (at: Map<u16, int>)
    requires
        stmt_ok(env, Stmt::For(x), false),
        stmt_tidy(env, Stmt::For(x)),
        p.label + stmt_labels(env, Stmt::For(x)) <= u16::MAX,
    ensures
        within(at, p.label, stmt_labels(env, Stmt::For(x))),
        moves(for_code(env, x, p), d, d, at, d),
    decreases x, 0nat,
{
    let q = p.step(2, 0);
    let r = simple_end(env, x.init, q);
    let s = r.past(env, x.cond);
    let u = block_end(env, x.body, s);
    let (ni, nc) = (simple_labels(env, x.init), expr_labels(env, x.cond));
    let (nb, nu) = (block_labels(env, x.body), simple_labels(env, x.update));
    let m0 = lemma_simple(env, x.init, q, d);
    let m1 = lemma_expr(env, x.cond, r, d);
    let m2 = lemma_block(env, x.body, true, p.at(1), s, d);
    let m3 = lemma_simple(env, x.update, u, d);
    let own = two(p.at(0), p.at(1), d);
    let j0 = join(own, m0);
    let j1 = join(j0, m1);
    let j2 = join(j1, m2);
    let at = join(j2, m3);
    lemma_join(own, m0, p.label, 2, q.label, ni);
    lemma_join(j0, m1, p.label, 2 + ni, r.label, nc);
    lemma_join(j1, m2, p.label, 2 + ni + nc, s.label, nb);
    lemma_join(j2, m3, p.label, 2 + ni + nc + nb, u.label, nu);
    assert(own.dom().contains(p.at(0)) && own.dom().contains(p.at(1)));
    assert(extends(at, own));
    assert(extends(at, m0));
    assert(extends(at, m1));
    assert(extends(at, with_brk(m2, true, p.at(1), d)));
    assert(extends(at, m3));
    let (init, cond) = (simple_code(env, x.init, q), expr_code(env, x.cond, r));
    let (body, update) = (block_code(env, x.body, p.at(1), s), simple_code(env, x.update, u));
    lemma_moves_grow(init, d, d, m0, d, at, d);
    lemma_moves_grow(cond, d, d + 1, m1, d, at, d);
    lemma_moves_grow(body, d, d, with_brk(m2, true, p.at(1), d), d, at, d);
    lemma_moves_grow(update, d, d, m3, d, at, d);
    let start = Instruction::Label(p.at(0));
    lemma_moves_push(init, start, d, d, d, at, d);
    let test = Instruction::IfEq(p.at(1));
    lemma_moves_push(cond, test, d, d + 1, d, at, d);
    let c1 = init.push(start) + cond.push(test);
    lemma_moves_add(init.push(start), cond.push(test), d, d, d, at, d);
    lemma_moves_add(c1, body, d, d, d, at, d);
    lemma_moves_add(c1 + body, update, d, d, d, at, d);
    let end: Seq<InsnView> = seq![Instruction::Goto(p.at(0)), Instruction::Label(p.at(1))];
    assert(fits(end, end.len(), seq![d, d, d], at, d)) by {
        reveal_with_fuel(fits, 3);
    }
    lemma_moves_short(end, seq![d, d, d], at, d);
    lemma_moves_add(c1 + body + update, end, d, d, d, at, d);
    at
}

proof fn lemma_print(env: Env, es: Seq<Expr>, n: nat, p: Pos, d: int) -> (at: Map<u16, int>)
    requires
        n <= es.len(),
        exprs_ok(env, es, n),
        exprs_single(env, es, n),
        p.label + exprs_labels(env, es, n) <= u16::MAX,
    ensures
        within(at, p.label, exprs_labels(env, es, n)),
        moves(print_code(env, es, n, p), d, d, at, d),
    decreases n,
{
    if n == 0 {
        lemma_moves_empty(d, Map::empty(), d);
        Map::empty()
    } else {
        let m = (n - 1) as nat;
        let q = exprs_end(env, es, m, p);
        let a = lemma_print(env, es, m, p, d);
        let b = lemma_expr(env, es[n - 1], q, d + 1);
        let (x, y) = (print_code(env, es, m, p), expr_code(env, es[n - 1], q));
        let stream = print_stream();
        let call = print_insn(
            java_type(env.classes, es[n - 1].type_),
        );
        lemma_moves_push(x, stream, d, d, d + 1, a, d);
        lemma_moves_grow(y, d + 1, d + 2, b, d + 1, b, d);
        lemma_moves_push(y, call, d + 1, d + 2, d, b, d);
        lemma_cat(
            x.push(stream),
            y.push(call),
            (d, d + 1, d),
            a,
            b,
            d,
            d,
            p.label,
            exprs_labels(env, es, m),
            expr_labels(env, es[n - 1]),
        )
    }
}

proof fn lemma_copy(
    env: Env,
    class: Seq<char>,
    field: Seq<FieldDef>,
    n: nat,
    src: u8,
    dst: u8,
    at: Map<u16, int>,
    d: int,
)
    ensures
        moves(copy_code(env, class, field, n, src, dst), d, d, at, d),
    decreases n,
{
    if n == 0 || n > field.len() {
        lemma_moves_empty(d, at, d);
    } else {
        let m = (n - 1) as nat;
        lemma_copy(env, class, field, m, src, dst, at, d);
        if let FieldDef::VarDef(v) = field[n - 1] {
            let (name, type_) = (env.vars[v as int].name, env.var_java_type(v));
            let rest: Seq<InsnView> = seq![
                Instruction::ALoad(dst),
                Instruction::ALoad(src),
                Instruction::GetField { class, name, type_ },
                Instruction::PutField { class, name, type_ },
            ];
            assert(fits(rest, rest.len(), seq![d, d + 1, d + 2, d + 2, d], at, d)) by {
                reveal_with_fuel(fits, 5);
            }
            lemma_moves_short(rest, seq![d, d + 1, d + 2, d + 2, d], at, d);
            lemma_moves_add(
                copy_code(env, class, field, m, src, dst),
                rest,
                d,
                d,
                d,
                at,
                d,
            );
        }
    }
}

proof fn lemma_s_copy(env: Env, x: SCopy, p: Pos, d: int) -> (at: Map<u16, int>)
    requires
        stmt_ok(env, Stmt::SCopy(x), false),
        single(env, x.src),
        p.label + expr_labels(env, x.src) <= u16::MAX,
    ensures
        within(at, p.label, expr_labels(env, x.src)),
        moves(s_copy_code(env, x, p), d, d, at, d),
{
    let class = env.classes[x.src.type_->Object_0 as int];
    let at = lemma_expr(env, x.src, p.step(0, 2), d);
    let src = expr_code(env, x.src, p.step(0, 2));
    let new = new_object_code(class.name@);
    let keep_src = Instruction::AStore(p.slot(0));
    let keep_new = Instruction::AStore(p.slot(1));
    lemma_moves_push(src, keep_src, d, d + 1, d, at, d);
    lemma_new_object(class.name@, d);
    lemma_moves_grow(new, d, d + 1, Map::empty(), d, at, d);
    lemma_moves_push(new, keep_new, d, d + 1, d, at, d);
    let c1 = src.push(keep_src) + new.push(keep_new);
    lemma_moves_add(src.push(keep_src), new.push(keep_new), d, d, d, at, d);
    let n = class.field@.len();
    let copy = copy_code(env, class.name@, class.field@, n, p.slot(0), p.slot(1));
    lemma_copy(env, class.name@, class.field@, n, p.slot(0), p.slot(1), at, d);
    lemma_moves_add(c1, copy, d, d, d, at, d);
    let end: Seq<InsnView> = seq![
        Instruction::ALoad(p.slot(1)),
        Instruction::AStore(p.var_slot(x.dst_sym)),
    ];
    assert(fits(end, end.len(), seq![d, d + 1, d], at, d)) by {
        reveal_with_fuel(fits, 3);
    }
    lemma_moves_short(end, seq![d, d + 1, d], at, d);
    lemma_moves_add(c1 + copy, end, d, d, d, at, d);
    at
}

/// What a walk over an array does before its condition: take the element, or leave behind the last.
spec fn foreach_head(t: SemanticType, slots: (u8, u8, u8), labels: (u16, u16)) -> Seq<InsnView> {
    seq![
        Instruction::AStore(slots.2),
        Instruction::Label(labels.0),
        Instruction::ILoad(slots.1),
        Instruction::ALoad(slots.2),
        Instruction::ArrayLength,
        Instruction::IfICmpGe(labels.1),
        Instruction::ALoad(slots.2),
        Instruction::ILoad(slots.1),
        array_load_insn(t),
        store_insn(t, slots.0),
    ]
}

proof fn lemma_foreach_head(
    t: SemanticType,
    slots: (u8, u8, u8),
    labels: (u16, u16),
    at: Map<u16, int>,
    d: int,
)
    requires
        at.dom().contains(labels.0) && at[labels.0] == d,
        at.dom().contains(labels.1) && at[labels.1] == d,
    ensures
        moves(foreach_head(t, slots, labels), d + 1, d, at, d),
{
    let head = foreach_head(t, slots, labels);
    let depth = seq![d + 1, d, d, d + 1, d + 2, d + 2, d, d + 1, d + 2, d + 1, d];
    assert(fits(head, head.len(), depth, at, d)) by {
        reveal_with_fuel(fits, 11);
    }
    lemma_moves_short(head, depth, at, d);
}

/// A walk over an array, given the code of the array, of the condition and of the body.
proof fn lemma_walk(
    t: SemanticType,
    slots: (u8, u8, u8),
    labels: (u16, u16),
    array: Seq<InsnView>,
    test: Seq<InsnView>,
    body: Seq<InsnView>,
    at: Map<u16, int>,
    d: int,
)
    requires
        at.dom().contains(labels.0) && at[labels.0] == d,
        at.dom().contains(labels.1) && at[labels.1] == d,
        moves(array, d, d + 1, at, d),
        moves(test, d, d, at, d),
        moves(body, d, d, at, d),
    ensures
        moves(
            seq![Instruction::IntConst(0), Instruction::IStore(slots.1)] + array + foreach_head(
                t,
                slots,
                labels,
            ) + test + body + seq![
                Instruction::IInc(slots.1, 1),
                Instruction::Goto(labels.0),
                Instruction::Label(labels.1),
            ],
            d,
            d,
            at,
            d,
        ),
{
    let start: Seq<InsnView> = seq![Instruction::IntConst(0), Instruction::IStore(slots.1)];
    assert(fits(start, start.len(), seq![d, d + 1, d], at, d)) by {
        reveal_with_fuel(fits, 3);
    }
    lemma_moves_short(start, seq![d, d + 1, d], at, d);
    lemma_moves_add(start, array, d, d, d + 1, at, d);
    let head = foreach_head(t, slots, labels);
    lemma_foreach_head(t, slots, labels, at, d);
    let c1 = start + array + head;
    lemma_moves_add(start + array, head, d, d + 1, d, at, d);
    lemma_moves_add(c1, test, d, d, d, at, d);
    lemma_moves_add(c1 + test, body, d, d, d, at, d);
    let end: Seq<InsnView> = seq![
        Instruction::IInc(slots.1, 1),
        Instruction::Goto(labels.0),
        Instruction::Label(labels.1),
    ];
    assert(fits(end, end.len(), seq![d, d, d, d], at, d)) by {
        reveal_with_fuel(fits, 4);
    }
    lemma_moves_short(end, seq![d, d, d, d], at, d);
    lemma_moves_add(c1 + test + body, end, d, d, d, at, d);
}

proof fn lemma_foreach(env: Env, x: Foreach, p: Pos, d: int) -> (at: Map<u16, int>)
    requires
        foreach_ok(env, x),
        foreach_tidy(env, x),
        p.label + foreach_labels(env, x) <= u16::MAX,
    ensures
        within(at, p.label, foreach_labels(env, x)),
        moves(foreach_code(env, x, p), d, d, at, d),
    decreases x, 0nat,
{
    let q = foreach_array(env, x, p);
    let r = q.past(env, x.arr);
    let s = foreach_body(env, x, p);
    let (na, nb) = (expr_labels(env, x.arr), block_labels(env, x.body));
    let a = lemma_expr(env, x.arr, q, d);
    let (c, nc): (Map<u16, int>, nat) = match x.cond {
        Some(e) => (lemma_expr(env, e, foreach_cond(env, x, p), d), expr_labels(env, e)),
        None => (Map::empty(), 0),
    };
    let b = lemma_block(env, x.body, true, r.at(1), s, d);
    let own = two(r.at(0), r.at(1), d);
    let j0 = join(a, own);
    let j1 = join(j0, c);
    let at = join(j1, b);
    lemma_join(a, own, p.label, na, r.label, 2);
    lemma_join(j0, c, p.label, na + 2, r.label + 2, nc);
    lemma_join(j1, b, p.label, na + 2 + nc, s.label, nb);
    assert(own.dom().contains(r.at(0)) && own.dom().contains(r.at(1)));
    assert(extends(at, own));
    assert(extends(at, a));
    assert(extends(at, c));
    assert(extends(at, with_brk(b, true, r.at(1), d)));
    let array = expr_code(env, x.arr, q);
    let body = block_code(env, x.body, r.at(1), s);
    lemma_moves_grow(array, d, d + 1, a, d, at, d);
    lemma_moves_grow(body, d, d, with_brk(b, true, r.at(1), d), d, at, d);
    let test: Seq<InsnView> = match x.cond {
        Some(e) => {
            let cond = expr_code(env, e, foreach_cond(env, x, p));
            lemma_moves_grow(cond, d, d + 1, c, d, at, d);
            lemma_moves_push(cond, Instruction::IfEq(r.at(1)), d, d + 1, d, at, d);
            cond.push(Instruction::IfEq(r.at(1)))
        },
        None => {
            lemma_moves_empty(d, at, d);
            Seq::empty()
        },
    };
    lemma_walk(
        env.vars[x.def as int].type_,
        foreach_slots(env, x, p),
        (r.at(0), r.at(1)),
        array,
        test,
        body,
        at,
        d,
    );
    at
}

proof fn lemma_guards(
    env: Env,
    gs: Seq<(Expr, Block)>,
    n: nat,
    in_loop: bool,
    brk: u16,
    p: Pos,
    d: int,
) -> (at: Map<u16, int>)
    requires
        n <= gs.len(),
        guards_ok(env, gs, n, in_loop),
        guards_tidy(env, gs, n),
        p.label + guards_labels(env, gs, n) <= u16::MAX,
        outside(in_loop, brk, p.label, guards_labels(env, gs, n)),
    ensures
        within(at, p.label, guards_labels(env, gs, n)),
        moves(guards_code(env, gs, n, brk, p), d, d, with_brk(at, in_loop, brk, d), d),
    decreases gs, n,
{
    if n == 0 {
        lemma_moves_empty(d, with_brk(Map::empty(), in_loop, brk, d), d);
        Map::empty()
    } else {
        let m = (n - 1) as nat;
        let q = guards_end(env, gs, m, p);
        let r = q.step(1, 0);
        let s = r.past(env, gs[n - 1].0);
        let n0 = guards_labels(env, gs, m);
        let (nc, nb) = (expr_labels(env, gs[n - 1].0), block_labels(env, gs[n - 1].1));
        let a = lemma_guards(env, gs, m, in_loop, brk, p, d);
        let c = lemma_expr(env, gs[n - 1].0, r, d);
        let b = lemma_block(env, gs[n - 1].1, in_loop, brk, s, d);
        let own = Map::<u16, int>::empty().insert(q.at(0), d);
        let j0 = join(a, own);
        let j1 = join(j0, c);
        let at = join(j1, b);
        lemma_join(a, own, p.label, n0, q.label, 1);
        lemma_join(j0, c, p.label, n0 + 1, r.label, nc);
        lemma_join(j1, b, p.label, n0 + 1 + nc, s.label, nb);
        assert(own.dom().contains(q.at(0)));
        let all = with_brk(at, in_loop, brk, d);
        assert(extends(all, own));
        assert(extends(all, with_brk(a, in_loop, brk, d)));
        assert(extends(all, c));
        assert(extends(all, with_brk(b, in_loop, brk, d)));
        let before = guards_code(env, gs, m, brk, p);
        let cond = expr_code(env, gs[n - 1].0, r);
        let body = block_code(env, gs[n - 1].1, brk, s);
        lemma_moves_grow(before, d, d, with_brk(a, in_loop, brk, d), d, all, d);
        lemma_moves_grow(cond, d, d + 1, c, d, all, d);
        lemma_moves_grow(body, d, d, with_brk(b, in_loop, brk, d), d, all, d);
        let (test, end) = (Instruction::IfEq(q.at(0)), Instruction::Label(q.at(0)));
        lemma_moves_push(cond, test, d, d + 1, d, all, d);
        lemma_moves_push(body, end, d, d, d, all, d);
        lemma_moves_add(before, cond.push(test), d, d, d, all, d);
        lemma_moves_add(before + cond.push(test), body.push(end), d, d, d, all, d);
        at
    }
}

// ---------------------------------------------------------------------------------------------
// Laws
// ---------------------------------------------------------------------------------------------

/// Entered with `d` values on the stack, the code leaves them as they are, and `n` values above
/// them.
pub open spec fn raises(code: Seq<InsnView>, d: int, n: int, at: Map<u16, int>) -> bool {
    moves(code, d, d + n, at, d)
}

/// An expression that stands for one value leaves exactly that value on the stack, touches no
/// value below it, and reaches each of its instructions with one number of values.
pub proof fn law_expr_stack(env: Env, e: Expr, p: Pos, d: int)
    requires
        expr_ok(env, e),
        single(env, e),
        p.label + expr_labels(env, e) <= u16::MAX,
    ensures
        exists|at: Map<u16, int>| raises(expr_code(env, e, p), d, 1, at),
{
    let at = lemma_expr(env, e, p, d);
    assert(raises(expr_code(env, e, p), d, 1, at));
}

/// An element with a default leaves two values on the stack, the index and the element or the
/// default above it.
pub proof fn law_default_stack(env: Env, x: DefaultIndexed, t: SemanticType, p: Pos, d: int)
    requires
        default_ok(env, x),
        default_single(env, x),
        p.label + default_labels(env, x) <= u16::MAX,
    ensures
        exists|at: Map<u16, int>| raises(default_code(env, x, t, p), d, 2, at),
{
    let at = lemma_default(env, x, t, p, d);
    assert(raises(default_code(env, x, t, p), d, 2, at));
}

/// A statement outside loops leaves the stack as it was, touches no value that was there before,
/// and reaches each of its instructions with one number of values.
pub proof fn law_stmt_stack(env: Env, s: Stmt, p: Pos, d: int)
    requires
        stmt_ok(env, s, false),
        stmt_tidy(env, s),
        p.label + stmt_labels(env, s) <= u16::MAX,
    ensures
        exists|at: Map<u16, int>| raises(stmt_code(env, s, 0, p), d, 0, at),
{
    let at = lemma_stmt(env, s, false, 0, p, d);
    assert(raises(stmt_code(env, s, 0, p), d, 0, at));
}

/// Each instruction of a method is reached with one number of values on the stack.
pub proof fn law_method_stack(env: Env, m: MethodView, body: Block, slots: Seq<u8>)
    requires
        body_ok(env, m, body),
        block_tidy(env, body),
    ensures
        steady(method_code(env, m, body, slots)),
{
    let p = body_start(env, m.param, slots);
    lemma_params_end(env, m.param, m.param.len(), Pos { label: 0, local: 0, slots });
    let at = lemma_block(env, body, false, 0, p, 0);
    let code = block_code(env, body, 0, p);
    let tail = tail_code(m.ret_t);
    if m.ret_t == SemanticType::Basic(BasicType::Void) {
        lemma_moves_step(Instruction::Return, 0, 0, at, 0);
    } else {
        assert(fits(tail, tail.len(), seq![0int, 1, 0], at, 0)) by {
            reveal_with_fuel(fits, 3);
        }
        lemma_moves_short(tail, seq![0int, 1, 0], at, 0);
    }
    lemma_moves_add(code, tail, 0, 0, 0, at, 0);
    reveal(moves);
}

/// The body of each method of the program is tidy when it is generated.
pub open spec fn program_tidy(p: Program) -> bool {
    forall|i: int, j: int|
        0 <= i < p.class@.len() && 0 <= j < p.class@[i].field@.len() ==> match (
        #[trigger] p.class@[i].field@[j]) {
            FieldDef::MethodDef(d) => block_tidy(
                enter_method(p.main, world_before(p, i, j), d.symbol).env(p.class@),
                d.body,
            ),
            FieldDef::VarDef(_) => true,
        }
}

proof fn lemma_constructor(parent: Seq<char>)
    ensures
        steady(constructor(parent)->code),
{
    let code = constructor(parent)->code;
    assert(fits(code, code.len(), seq![0int, 1, 0, 0], Map::empty(), 0)) by {
        reveal_with_fuel(fits, 4);
    }
}

/// In every method of every generated class, each instruction is reached with one number of values
/// on the stack.
pub proof fn law_program_stack(p: Program, i: int, j: int)
    requires
        program_ok(p),
        program_tidy(p),
        0 <= i < p.class@.len(),
        0 <= j < program_class(p, i).members.len(),
        program_class(p, i).members[j] is Method,
    ensures
        steady(program_class(p, i).members[j]->code),
{
    let k = lemma_program_method(p, i, j);
    if j > 0 {
        let f = p.class@[i].field@[k];
        let e = enter_method(p.main, world_before(p, i, k), f->MethodDef_0.symbol);
        law_method_stack(
            e.env(p.class@),
            e.methods[f->MethodDef_0.symbol as int],
            f->MethodDef_0.body,
            e.slots,
        );
    } else {
        lemma_constructor(parent_name(p.class@[i]));
    }
}

} // verus!
