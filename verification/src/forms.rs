//! Which instructions the code of a tree is made of, read off the declarations and types in the
//! tree.
//!
//! The machine takes an instruction only for values of the right kind: integers and truth values go
//! one way, references another. And it finds fields, methods and constructors by the class, the
//! name and the type that an instruction names. The laws here say for every tree which kind is
//! chosen and what is named.

use vstd::prelude::*;

use crate::ast::{
    Assign, BasicType, Binary, Call, ClassDef, Const, DefaultIndexed, Expr, ExprKind, FieldDef,
    Foreach, Identifier, Indexed, Operator, Print, Return, SCopy, ScopeKind, SemanticType, Simple,
    Stmt, Var, VarAssign,
};
use crate::instr::{ElemClass, InsnView, Instruction, JType, JavaType};
use crate::scheme::{
    assign_code, binary_code, call_code, copy_code, default_code, expr_code, exprs_end, fill_code,
    foreach_array, foreach_code, foreach_slots, identifier_code, indexed_code, invoke_insn,
    new_object_code, owner_code, post_inc_code, pre_inc_code, print_code, return_code, s_copy_code,
    simple_code, stmt_code, unary_code, var_assign_code, Env, Pos,
};
use crate::types::{array_load_insn, has_java_type, has_values, java_type, store_insn};
use crate::valid::{
    binary_ok, call_ok, counter_ok, expr_ok, identifier_ok, simple_ok, stmt_ok, unary_ok,
};

verus! {

/// A number or a truth value.
pub open spec fn whole(t: SemanticType) -> bool {
    t == SemanticType::Basic(BasicType::Int) || t == SemanticType::Basic(BasicType::Bool)
}

/// A string, an object, an array or `null`.
pub open spec fn referring(t: SemanticType) -> bool {
    t == SemanticType::Basic(BasicType::Text) || t is Object || t is Array || t is Null
}

/// A truth value.
pub open spec fn truthful(t: SemanticType) -> bool {
    t == SemanticType::Basic(BasicType::Bool)
}

/// Every type but that of no value is held in one of two ways, and only those types have values.
pub proof fn law_kinds(t: SemanticType)
    ensures
        has_values(t) <==> t != SemanticType::Basic(BasicType::Void),
        has_values(t) <==> whole(t) || referring(t),
        !(whole(t) && referring(t)),
{
}

/// The machine type of each type.
pub proof fn law_machine_types(classes: Seq<ClassDef>, t: SemanticType)
    ensures
        java_type(classes, SemanticType::Basic(BasicType::Int)) == JavaType::<Seq<char>>::Int,
        java_type(classes, SemanticType::Basic(BasicType::Bool)) == JavaType::<Seq<char>>::Boolean,
        java_type(classes, SemanticType::Basic(BasicType::Void)) == JavaType::<Seq<char>>::Void,
        java_type(classes, SemanticType::Basic(BasicType::Text)) == JavaType::Class(
            "java/lang/String"@,
        ),
        t is Object ==> java_type(classes, t) == JavaType::Class(
            classes[t->Object_0 as int].name@,
        ),
        t is Array ==> java_type(classes, t) == JavaType::Array(
            Box::new(java_type(classes, *t->Array_0)),
        ),
{
    reveal_with_fuel(java_type, 2);
}

/// Types have a machine type unless `null` or a class that does not exist stands in them.
pub proof fn law_machine_types_exist(classes: Seq<ClassDef>, t: SemanticType)
    ensures
        t is Basic ==> has_java_type(classes, t),
        t is Object ==> (has_java_type(classes, t) <==> t->Object_0 < classes.len()),
        t is Array ==> (has_java_type(classes, t) <==> has_java_type(classes, *t->Array_0)),
        t is Null ==> !has_java_type(classes, t),
{
}

/// The types of a source program that look alike to the machine are the same type, as long as
/// classes have names of their own.
pub proof fn law_machine_types_differ(classes: Seq<ClassDef>, s: SemanticType, t: SemanticType)
    requires
        has_java_type(classes, s),
        has_java_type(classes, t),
        forall|i: int, j: int|
            #![trigger classes[i], classes[j]]
            0 <= i < j < classes.len() ==> classes[i].name@ != classes[j].name@,
        forall|i: int|
            0 <= i < classes.len() ==> (#[trigger] classes[i]).name@ != "java/lang/String"@,
        java_type(classes, s) == java_type(classes, t),
    ensures
        s == t,
    decreases s,
{
    reveal_with_fuel(java_type, 2);
    match (s, t) {
        (SemanticType::Array(a), SemanticType::Array(b)) => {
            law_machine_types_differ(classes, *a, *b);
        },
        (SemanticType::Object(a), SemanticType::Object(b)) => {
            assert(classes[a as int].name@ == classes[b as int].name@);
        },
        (SemanticType::Object(a), _) => {
            assert(classes[a as int].name@ != "java/lang/String"@);
        },
        (_, SemanticType::Object(b)) => {
            assert(classes[b as int].name@ != "java/lang/String"@);
        },
        _ => {},
    }
}

/// The instruction takes a value of type `t` from an array.
pub open spec fn takes_element(i: InsnView, t: SemanticType) -> bool {
    &&& i is BALoad <==> truthful(t)
    &&& i is IALoad <==> whole(t) && !truthful(t)
    &&& i is AALoad <==> referring(t)
}

/// The instruction puts a value of type `t` into an array.
pub open spec fn puts_element(i: InsnView, t: SemanticType) -> bool {
    &&& i is BAStore <==> truthful(t)
    &&& i is IAStore <==> whole(t) && !truthful(t)
    &&& i is AAStore <==> referring(t)
}

/// The instruction pops a value of type `t` into the local variable.
pub open spec fn puts_local(i: InsnView, t: SemanticType, x: u8) -> bool {
    &&& whole(t) ==> i is IStore && i->IStore_0 == x
    &&& referring(t) ==> i is AStore && i->AStore_0 == x
}

/// The instruction pushes a value of type `t` from the local variable.
pub open spec fn takes_local(i: InsnView, t: SemanticType, x: u8) -> bool {
    &&& whole(t) ==> i is ILoad && i->ILoad_0 == x
    &&& referring(t) ==> i is ALoad && i->ALoad_0 == x
}

/// The instruction makes an array with elements of type `t`.
pub open spec fn makes_array(classes: Seq<ClassDef>, i: InsnView, t: SemanticType) -> bool {
    &&& i is NewBoolArray <==> truthful(t)
    &&& i is NewIntArray <==> whole(t) && !truthful(t)
    &&& i is ANewArray <==> referring(t)
    &&& t == SemanticType::Basic(BasicType::Text) ==> i->ANewArray_0 == ElemClass::Named(
        "java/lang/String"@,
    )
    &&& t is Object ==> i->ANewArray_0 == ElemClass::Named(
        classes[t->Object_0 as int].name@,
    )
    &&& t is Array ==> i->ANewArray_0 == ElemClass::Described(
        JavaType::Array(Box::new(java_type(classes, *t->Array_0))),
    )
}

/// The variable belongs to an object: it was declared in a class, and not by a statement.
pub open spec fn in_object(env: Env, var: Var, class: usize) -> bool {
    match var {
        Var::VarDef(v) => env.vars[v as int].scope == ScopeKind::Class(class),
        Var::VarAssign(_) => false,
    }
}

/// The number of a variable.
pub open spec fn number(var: Var) -> int {
    match var {
        Var::VarDef(v) => v as int,
        Var::VarAssign(v) => v as int,
    }
}

/// The instruction reads the field that the variable declares.
pub open spec fn reads_field(env: Env, i: InsnView, class: Seq<char>, v: int) -> bool {
    i == Instruction::<Seq<char>, Seq<JType>>::GetField {
        class,
        name: env.vars[v].name,
        type_: java_type(env.classes, env.vars[v].type_),
    }
}

/// The instruction writes the field that the variable declares.
pub open spec fn writes_field(env: Env, i: InsnView, class: Seq<char>, v: int) -> bool {
    i == Instruction::<Seq<char>, Seq<JType>>::PutField {
        class,
        name: env.vars[v].name,
        type_: java_type(env.classes, env.vars[v].type_),
    }
}

/// A variable that belongs to an object is read from the object that stands before it; any other
/// is read from its local variable, by its type.
pub proof fn law_variable_form(env: Env, e: Expr, i: Identifier, p: Pos, class: usize)
    requires
        e.kind == ExprKind::Identifier(i),
        expr_ok(env, e),
    ensures
        in_object(env, i.symbol, class) ==> i.owner is Some && expr_code(env, e, p).len()
            == expr_code(env, *i.owner->0, p).len() + 1 && expr_code(env, e, p).drop_last()
            == expr_code(env, *i.owner->0, p) && reads_field(
            env,
            expr_code(env, e, p).last(),
            env.classes[class as int].name@,
            number(i.symbol),
        ),
        (forall|c: usize| !#[trigger] in_object(env, i.symbol, c)) ==> expr_code(env, e, p).len()
            == 1 && takes_local(
            expr_code(env, e, p)[0],
            env.vars[number(i.symbol)].type_,
            p.slots[number(i.symbol)],
        ),
{
    let code = identifier_code(env, i, false, p);
    assert(identifier_ok(env, i, false));
    assert(expr_code(env, e, p) == code);
    if let Var::VarDef(v) = i.symbol {
        if let ScopeKind::Class(c) = env.vars[v as int].scope {
            assert(in_object(env, i.symbol, c));
            assert(owner_code(env, i.owner, p) == expr_code(env, *i.owner->0, p));
            assert(code.drop_last() =~= owner_code(env, i.owner, p));
        }
    }
}

/// An array element is the array, then the index, and an instruction by the type of the element.
pub proof fn law_element_form(env: Env, e: Expr, i: Indexed, p: Pos)
    requires
        e.kind == ExprKind::Indexed(i),
        expr_ok(env, e),
    ensures
        expr_code(env, e, p).drop_last() == expr_code(env, *i.arr, p) + expr_code(
            env,
            *i.idx,
            p.past(env, *i.arr),
        ),
        takes_element(expr_code(env, e, p).last(), e.type_),
{
    let code = indexed_code(env, i, e.type_, false, p);
    assert(expr_code(env, e, p) == code);
    assert(code.drop_last() =~= indexed_code(env, i, e.type_, true, p));
}

/// A constant is one instruction, with the value that was written.
pub proof fn law_const_form(env: Env, e: Expr, c: Const, p: Pos)
    requires
        e.kind == ExprKind::Const(c),
    ensures
        expr_code(env, e, p).len() == 1,
        match c {
            Const::IntConst(v) => expr_code(env, e, p)[0] == Instruction::<
                Seq<char>,
                Seq<JType>,
            >::IntConst(v),
            Const::BoolConst(v) => expr_code(env, e, p)[0] == Instruction::<
                Seq<char>,
                Seq<JType>,
            >::BoolConst(v),
            Const::StringConst(v) => expr_code(env, e, p)[0] == Instruction::<
                Seq<char>,
                Seq<JType>,
            >::StringConst(v@),
            Const::Null => expr_code(env, e, p)[0] is AConstNull,
        },
{
}

/// `this` is the first thing that the machine passes to an instance method.
pub proof fn law_this_form(env: Env, e: Expr, p: Pos)
    requires
        e.kind is This,
    ensures
        expr_code(env, e, p) == seq![Instruction::<Seq<char>, Seq<JType>>::ALoad(0)],
{
}

/// The code makes an object of the class and calls the constructor of that very class on it.
pub open spec fn makes_object(code: Seq<InsnView>, class: Seq<char>) -> bool {
    &&& code.len() == 3
    &&& code[0] is New && code[0]->New_0 == class
    &&& code[1] is Dup
    &&& code[2] == Instruction::<Seq<char>, Seq<JType>>::InvokeSpecial {
        class,
        name: "<init>"@,
        args: Seq::empty(),
        ret: JavaType::Void,
    }
}

/// A new object is made of the class that is named, by the constructor of that class.
pub proof fn law_new_object_form(env: Env, e: Expr, p: Pos)
    requires
        e.kind is NewClass,
    ensures
        makes_object(expr_code(env, e, p), e.kind->NewClass_0.name@),
{
}

/// A new array has elements of the type that its own type says.
pub proof fn law_new_array_form(env: Env, e: Expr, p: Pos)
    requires
        e.kind is NewArray,
        expr_ok(env, e),
    ensures
        expr_code(env, e, p).drop_last() == expr_code(env, *e.kind->NewArray_0.len, p),
        makes_array(env.classes, expr_code(env, e, p).last(), *e.type_->Array_0),
{
    let elem = *e.type_->Array_0;
    assert(expr_code(env, e, p).drop_last() =~= expr_code(env, *e.kind->NewArray_0.len, p));
    law_machine_types(env.classes, elem);
}

/// A cast and a test for a class name the class that was written, behind the object.
pub proof fn law_cast_form(env: Env, e: Expr, p: Pos)
    ensures
        e.kind is TypeCast ==> expr_code(env, e, p) == expr_code(
            env,
            *e.kind->TypeCast_0.expr,
            p,
        ).push(Instruction::CheckCast(e.kind->TypeCast_0.name@)),
        e.kind is TypeTest ==> expr_code(env, e, p) == expr_code(
            env,
            *e.kind->TypeTest_0.expr,
            p,
        ).push(Instruction::InstanceOf(e.kind->TypeTest_0.name@)),
{
}

/// Values are compared as references where they are strings, objects or `null`, and as integers
/// otherwise; the order of numbers is always that of integers.
pub proof fn law_comparison_form(env: Env, e: Expr, b: Binary, p: Pos)
    requires
        e.kind == ExprKind::Binary(b),
    ensures
        ({
            let t = b.l.type_;
            let refs = t is Null || t is Object || t == SemanticType::Basic(BasicType::Text);
            let n = expr_code(env, *b.l, p).len() + expr_code(env, *b.r, p.past(env, *b.l)).len();
            let i = expr_code(env, e, p)[n as int];
            &&& b.op is Eq && refs ==> i is IfACmpEq
            &&& b.op is Eq && !refs ==> i is IfICmpEq
            &&& b.op is Ne && refs ==> i is IfACmpNe
            &&& b.op is Ne && !refs ==> i is IfICmpNe
            &&& b.op is Le ==> i is IfICmpLe
            &&& b.op is Lt ==> i is IfICmpLt
            &&& b.op is Ge ==> i is IfICmpGe
            &&& b.op is Gt ==> i is IfICmpGt
            &&& b.op is Add ==> i is IAdd
            &&& b.op is Sub ==> i is ISub
            &&& b.op is Mul ==> i is IMul
            &&& b.op is Div ==> i is IDiv
            &&& b.op is Mod ==> i is IRem
            &&& b.op is BAnd ==> i is IAnd
            &&& b.op is BOr ==> i is IOr
            &&& b.op is BXor ==> i is IXor
            &&& b.op is Shl ==> i is IShl
            &&& b.op is Shr ==> i is IUShr
        }),
{
    assert(expr_code(env, e, p) == binary_code(env, b, p));
}

/// A repeated value is stored, loaded and put into the array by its own type, and the array is one
/// of that type.
pub proof fn law_repeat_form(env: Env, e: Expr, b: Binary, p: Pos)
    requires
        e.kind == ExprKind::Binary(b),
        b.op is Repeat,
        expr_ok(env, e),
    ensures
        ({
            let code = expr_code(env, e, p);
            let q = p.step(2, 3);
            let n = expr_code(env, *b.l, q).len() as int;
            let k = n + 1 + expr_code(env, *b.r, q.past(env, *b.l)).len();
            let t = b.l.type_;
            &&& code.len() == k + 17
            &&& puts_local(code[n], t, p.slot(0))
            &&& makes_array(env.classes, code[k], t)
            &&& takes_local(code[k + 11], t, p.slot(0))
            &&& puts_element(code[k + 12], t)
        }),
{
    let q = p.step(2, 3);
    let (l, r) = (expr_code(env, *b.l, q), expr_code(env, *b.r, q.past(env, *b.l)));
    let fill = fill_code(
        env.classes,
        b.l.type_,
        (p.at(0), p.at(1)),
        (p.slot(0), p.slot(1), p.slot(2)),
    );
    let code = binary_code(env, b, p);
    assert(binary_ok(env, b));
    assert(expr_code(env, e, p) == code);
    let k = l.len() + 1 + r.len() as int;
    assert(fill.len() == 17);
    assert(code.len() == k + 17);
    assert(code[k] == fill[0]);
    assert(code[k + 11] == fill[11]);
    assert(code[k + 12] == fill[12]);
    law_machine_types(env.classes, b.l.type_);
}

/// An element with a default is taken by its type.
pub proof fn law_default_form(env: Env, e: Expr, d: DefaultIndexed, p: Pos)
    requires
        e.kind == ExprKind::Default(d),
        expr_ok(env, e),
    ensures
        ({
            let q = p.step(2, 1);
            let n = expr_code(env, *d.arr, q).len() + 1 + expr_code(
                env,
                *d.idx,
                q.past(env, *d.arr),
            ).len() as int;
            takes_element(expr_code(env, e, p)[n + 9], e.type_)
        }),
{
    assert(expr_code(env, e, p) == default_code(env, d, e.type_, p));
}

/// Increments and decrements of a field read and write one and the same field, which is the one
/// that is declared; those of a local variable touch the local variable of that variable.
pub proof fn law_counter_form(env: Env, e: Expr, op: Operator, r: Expr, p: Pos, class: usize)
    requires
        e.kind is Unary,
        e.kind->Unary_0.op == op,
        *e.kind->Unary_0.r == r,
        op is PreInc || op is PreDec || op is PostInc || op is PostDec,
        expr_ok(env, e),
    ensures
        match r.kind {
            ExprKind::Identifier(i) => {
                let code = expr_code(env, e, p);
                let x = p.slots[number(i.symbol)];
                let up: u8 = if op is PreInc || op is PostInc {
                    1
                } else {
                    255
                };
                &&& in_object(env, i.symbol, class) ==> {
                    let n = code.len() - 6;
                    &&& i.owner is Some
                    &&& n == expr_code(env, *i.owner->0, p).len()
                    &&& reads_field(
                        env,
                        code[n + 1],
                        env.classes[class as int].name@,
                        number(i.symbol),
                    )
                    &&& writes_field(
                        env,
                        code[n + 5],
                        env.classes[class as int].name@,
                        number(i.symbol),
                    )
                }
                &&& (forall|c: usize| !#[trigger] in_object(env, i.symbol, c)) ==> {
                    let (inc, load) = if op is PreInc || op is PreDec {
                        (code[0], code[1])
                    } else {
                        (code[1], code[0])
                    };
                    &&& code.len() == 2
                    &&& inc is IInc && inc->IInc_0 == x && inc->IInc_1 == up
                    &&& load is ILoad && load->ILoad_0 == x
                }
            },
            _ => true,
        },
{
    let u = e.kind->Unary_0;
    assert(((-1i32) as u8) == 255u8) by (bit_vector);
    let code = unary_code(env, u, p);
    assert(unary_ok(env, u));
    assert(counter_ok(env, r));
    assert(expr_code(env, e, p) == code);
    assert(code == pre_inc_code(env, r, 1, p) || code == pre_inc_code(env, r, (-1) as i32, p)
        || code == post_inc_code(env, r, 1, p) || code == post_inc_code(env, r, (-1) as i32, p));
    if let ExprKind::Identifier(i) = r.kind {
        if let Var::VarDef(v) = i.symbol {
            if let ScopeKind::Class(c) = env.vars[v as int].scope {
                assert(in_object(env, i.symbol, c));
                assert(owner_code(env, i.owner, p) == expr_code(env, *i.owner->0, p));
            }
        }
    }
}

/// A call ends with the instruction that names the class that declares the method, its name, the
/// machine types of its parameters and of its result. The machine passes the object of an instance
/// method on its own, so that its parameter is not named.
pub proof fn law_call_form(env: Env, e: Expr, c: Call, p: Pos)
    requires
        e.kind == ExprKind::Call(c),
        expr_ok(env, e),
    ensures
        c.is_arr_len ==> c.owner is Some && expr_code(env, e, p) == expr_code(
            env,
            *c.owner->0,
            p,
        ).push(Instruction::ArrayLength),
        !c.is_arr_len ==> {
            let m = env.methods[c.method->0 as int];
            let last = expr_code(env, e, p).last();
            let class = env.classes[m.class as int].name@;
            let ret = java_type(env.classes, m.ret_t);
            &&& m.static_ ==> last is InvokeStatic && last->InvokeStatic_class == class
                && last->InvokeStatic_name == m.name && last->InvokeStatic_ret == ret
                && last->InvokeStatic_args.len() == m.param.len() && forall|i: int|
                0 <= i < m.param.len() ==> last->InvokeStatic_args[i] == java_type(
                    env.classes,
                    env.vars[(#[trigger] m.param[i]) as int].type_,
                )
            &&& !m.static_ ==> last is InvokeVirtual && last->InvokeVirtual_class == class
                && last->InvokeVirtual_name == m.name && last->InvokeVirtual_ret == ret
                && last->InvokeVirtual_args.len() == m.param.len() - 1 && forall|i: int|
                0 < i < m.param.len() ==> last->InvokeVirtual_args[i - 1] == java_type(
                    env.classes,
                    env.vars[(#[trigger] m.param[i]) as int].type_,
                )
        },
{
    assert(call_ok(env, c));
    assert(expr_code(env, e, p) == call_code(env, c, p));
    assert(c.is_arr_len ==> owner_code(env, c.owner, p) == expr_code(env, *c.owner->0, p));
    if !c.is_arr_len {
        assert(call_code(env, c, p).last() == invoke_insn(env, env.methods[c.method->0 as int]));
    }
}

/// An assignment ends with the store that its target asks for: into the field of an object, into
/// the local variable of a variable, or into an array.
pub proof fn law_assign_form(env: Env, a: Assign, p: Pos, class: usize)
    requires
        simple_ok(env, Simple::Assign(a)),
    ensures
        ({
            let last = simple_code(env, Simple::Assign(a), p).last();
            match a.dst.kind {
                ExprKind::Identifier(i) => {
                    &&& in_object(env, i.symbol, class) ==> writes_field(
                        env,
                        last,
                        env.classes[class as int].name@,
                        number(i.symbol),
                    )
                    &&& (forall|c: usize| !#[trigger] in_object(env, i.symbol, c)) ==> puts_local(
                        last,
                        env.vars[number(i.symbol)].type_,
                        p.slots[number(i.symbol)],
                    )
                },
                _ => puts_element(last, a.dst.type_),
            }
        }),
{
    assert(simple_code(env, Simple::Assign(a), p) == assign_code(env, a, p));
    if let ExprKind::Identifier(i) = a.dst.kind {
        if let Var::VarDef(v) = i.symbol {
            if let ScopeKind::Class(c) = env.vars[v as int].scope {
                assert(in_object(env, i.symbol, c));
            }
        }
    }
}

/// A declared variable gets its value, or 0 or `null` by its type, in the next local variable.
pub proof fn law_var_assign_form(env: Env, v: VarAssign, p: Pos)
    requires
        simple_ok(env, Simple::VarAssign(v)),
    ensures
        ({
            let code = simple_code(env, Simple::VarAssign(v), p);
            let t = env.vars[v.var as int].type_;
            &&& puts_local(code.last(), t, p.local as u8)
            &&& v.src is None ==> code.len() == 2 && (whole(t) ==> code[0] == Instruction::<
                Seq<char>,
                Seq<JType>,
            >::IntConst(0)) && (referring(t) ==> code[0] is AConstNull)
            &&& v.src is Some ==> code.drop_last() == expr_code(
                env,
                v.src->0,
                p.bind(v.var, p.local as u8).step(0, 1),
            )
        }),
{
    let code = simple_code(env, Simple::VarAssign(v), p);
    assert(code == var_assign_code(env, v, p));
    if v.src is Some {
        assert(code.drop_last() =~= expr_code(
            env,
            v.src->0,
            p.bind(v.var, p.local as u8).step(0, 1),
        ));
    }
}

/// The value of an expression used as a statement is dropped, unless it is the call of a method
/// without a result.
pub proof fn law_dropped_form(env: Env, e: Expr, p: Pos)
    ensures
        ({
            let void = e.kind is Call && env.methods[e.kind->Call_0.method->0 as int].ret_t
                == SemanticType::Basic(BasicType::Void);
            let code = simple_code(env, Simple::Expr(e), p);
            &&& void ==> code == expr_code(env, e, p)
            &&& !void ==> code == expr_code(env, e, p).push(Instruction::Pop)
        }),
{
}

/// A `return` leaves the method by the instruction for integers exactly where its value is a number
/// or a truth value, by that for references where it is a string, an object, an array or `null`,
/// and by the one without a value exactly where it has none. The value is that of its expression.
pub proof fn law_return_form(env: Env, r: Return, in_loop: bool, brk: u16, p: Pos)
    requires
        stmt_ok(env, Stmt::Return(r), in_loop),
    ensures
        ({
            let code = stmt_code(env, Stmt::Return(r), brk, p);
            let last = code.last();
            &&& last is Return <==> r.expr is None
            &&& r.expr is None ==> code.len() == 1
            &&& r.expr matches Some(e) ==> {
                &&& code.drop_last() == expr_code(env, e, p)
                &&& last is IReturn <==> whole(e.type_)
                &&& last is AReturn <==> referring(e.type_)
            }
        }),
{
    let code = stmt_code(env, Stmt::Return(r), brk, p);
    assert(code == return_code(env, r, p));
    if let Some(e) = r.expr {
        assert(code.drop_last() =~= expr_code(env, e, p));
    }
}

/// Each value that is printed goes to the stream of the system, with the machine type of its own
/// type.
pub proof fn law_print_form(env: Env, s: Print, brk: u16, p: Pos, n: nat)
    requires
        0 < n <= s.print@.len(),
    ensures
        ({
            let es = s.print@;
            let before = print_code(env, es, (n - 1) as nat, p);
            let value = expr_code(env, es[n - 1], exprs_end(env, es, (n - 1) as nat, p));
            &&& stmt_code(env, Stmt::Print(s), brk, p) == print_code(env, es, es.len(), p)
            &&& print_code(env, es, 0, p).len() == 0
            &&& print_code(env, es, n, p) == before.push(
                Instruction::GetStatic {
                    class: "java/lang/System"@,
                    name: "out"@,
                    type_: JavaType::Class("java/io/PrintStream"@),
                },
            ) + value.push(
                Instruction::InvokeVirtual {
                    class: "java/io/PrintStream"@,
                    name: "print"@,
                    args: seq![java_type(env.classes, es[n - 1].type_)],
                    ret: JavaType::Void,
                },
            )
        }),
{
}

/// A walk over an array takes each element by the type of the loop variable and puts it there: into
/// the next local variable, or, where the loop variable was declared in a class, into the one that
/// it has.
pub proof fn law_foreach_form(env: Env, f: Foreach, in_loop: bool, brk: u16, p: Pos)
    requires
        stmt_ok(env, Stmt::Foreach(f), in_loop),
        p.slots.len() == env.vars.len(),
    ensures
        ({
            let code = stmt_code(env, Stmt::Foreach(f), brk, p);
            let t = env.vars[f.def as int].type_;
            let fixed = env.vars[f.def as int].scope is Class;
            let q = if fixed {
                p.step(0, 2)
            } else {
                p.bind(f.def, p.local as u8).step(0, 3)
            };
            let x = if fixed {
                p.slots[f.def as int]
            } else {
                p.local as u8
            };
            let n = 2 + expr_code(env, f.arr, q).len() as int;
            &&& takes_element(code[n + 8], t)
            &&& puts_local(code[n + 9], t, x)
        }),
{
    let code = foreach_code(env, f, p);
    let q = foreach_array(env, f, p);
    assert(stmt_code(env, Stmt::Foreach(f), brk, p) == code);
    let fixed = env.vars[f.def as int].scope is Class;
    if !fixed {
        assert(p.bind(f.def, p.slot(0)).step(0, 1).step(0, 2) == p.bind(f.def, p.slot(0)).step(
            0,
            3,
        ));
    }
    let n = 2 + expr_code(env, f.arr, q).len() as int;
    assert(code[n + 8] == array_load_insn(env.vars[f.def as int].type_));
    assert(code[n + 9] == store_insn(
        env.vars[f.def as int].type_,
        foreach_slots(env, f, p).0,
    ));
}

/// Copying one more field reads it from one object and writes it to the other, as it is declared.
pub proof fn law_copy_field_form(
    env: Env,
    class: Seq<char>,
    members: Seq<FieldDef>,
    n: nat,
    src: u8,
    dst: u8,
)
    requires
        0 < n <= members.len(),
    ensures
        ({
            let before = copy_code(env, class, members, (n - 1) as nat, src, dst);
            let code = copy_code(env, class, members, n, src, dst);
            let k = before.len() as int;
            match members[n - 1] {
                FieldDef::MethodDef(_) => code == before,
                FieldDef::VarDef(v) => {
                    &&& code.len() == k + 4
                    &&& code.take(k) == before
                    &&& code[k] is ALoad && code[k]->ALoad_0 == dst
                    &&& code[k + 1] is ALoad && code[k + 1]->ALoad_0 == src
                    &&& reads_field(env, code[k + 2], class, v as int)
                    &&& writes_field(env, code[k + 3], class, v as int)
                },
            }
        }),
{
    let before = copy_code(env, class, members, (n - 1) as nat, src, dst);
    let code = copy_code(env, class, members, n, src, dst);
    if members[n - 1] is VarDef {
        assert(code.take(before.len() as int) =~= before);
    }
}

/// A shallow copy makes an object of the class of its source, by the constructor of that class,
/// copies every field of that class, and stores the object into the local variable of its target.
pub proof fn law_copy_form(env: Env, c: SCopy, in_loop: bool, brk: u16, p: Pos)
    requires
        stmt_ok(env, Stmt::SCopy(c), in_loop),
    ensures
        ({
            let code = stmt_code(env, Stmt::SCopy(c), brk, p);
            let class = env.classes[c.src.type_->Object_0 as int];
            let src = expr_code(env, c.src, p.step(0, 2));
            let n = src.len() as int;
            let copy = copy_code(
                env,
                class.name@,
                class.field@,
                class.field@.len(),
                p.slot(0),
                p.slot(1),
            );
            &&& code.len() == n + 7 + copy.len()
            &&& code.take(n) == src
            &&& code[n] is AStore && code[n]->AStore_0 == p.slot(0)
            &&& makes_object(code.subrange(n + 1, n + 4), class.name@)
            &&& code[n + 4] is AStore && code[n + 4]->AStore_0 == p.slot(1)
            &&& code.subrange(n + 5, n + 5 + copy.len()) == copy
            &&& code.last() is AStore && code.last()->AStore_0 == p.slots[number(c.dst_sym)]
        }),
{
    let code = s_copy_code(env, c, p);
    let class = env.classes[c.src.type_->Object_0 as int];
    let src = expr_code(env, c.src, p.step(0, 2));
    let n = src.len() as int;
    let new = new_object_code(class.name@);
    let copy = copy_code(
        env,
        class.name@,
        class.field@,
        class.field@.len(),
        p.slot(0),
        p.slot(1),
    );
    assert(stmt_code(env, Stmt::SCopy(c), brk, p) == code);
    assert(code.take(n) =~= src);
    assert(code.subrange(n + 1, n + 4) =~= new);
    assert(code.subrange(n + 5, n + 5 + copy.len()) =~= copy);
}

} // verus!
