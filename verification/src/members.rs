//! What the classes of a program and their members become, read off the declarations.
//!
//! The machine finds a class by its name, a parent and its constructor by the name of the parent, a
//! field by its name and type, and a method by its name, its arguments and its result. The laws
//! here say that what is generated under these is what was declared, and what the code asks for.

use vstd::prelude::*;

use crate::accepts::inside;
use crate::ast::{
    BasicType, Block, Call, ClassDef, Expr, ExprKind, FieldDef, Foreach, Guarded, Identifier,
    MethodDef, MethodSymbol, MethodView, Program, ScopeKind, SemanticType, Stmt, Var,
};
use crate::forms::{
    in_object, law_call_form, law_machine_types, law_variable_form, number, referring, whole,
};
use crate::instr::{Access, InsnView, Instruction, JType, JavaType, Member, MemberView};
use crate::labels::{law_method_labels, placed};
use crate::program::{
    body_start, classes_next, classes_ok, enter_method, field_hand, field_next, field_ok,
    field_view, fields_next, fields_ok, fields_view, initial_world, lemma_class_ok,
    lemma_classes_ok_prefix, lemma_fields_ok_prefix, lemma_params_end, method_code, method_member,
    param_fields, param_locals, params_end, program_ok, program_view, tail_code, world_before, Hand,
    World,
};
use crate::scheme::{
    block_code, block_end, block_fields, expr_code, guards_fields, stmt_fields, stmts_fields,
    stmts_locals, Env, Pos,
};
use crate::types::{has_java_type, java_type};
use crate::valid::{call_ok, expr_ok};

verus! {

/// Seen by all, and neither static nor final.
pub open spec fn open_access() -> Access {
    Access { public: true, static_: false, final_: false }
}

/// The constructor of a class that calls the constructor of the given class on the new object, and
/// does nothing else.
pub open spec fn constructs(m: MemberView, parent: Seq<char>) -> bool {
    &&& m is Method
    &&& m->Method_name == "<init>"@
    &&& m->Method_access == open_access()
    &&& m->args.len() == 0
    &&& m->ret is Void
    &&& m->max_locals == 1
    &&& m->code.len() == 3
    &&& m->code[0] is ALoad && m->code[0]->ALoad_0 == 0
    &&& m->code[1] == Instruction::<Seq<char>, Seq<JType>>::InvokeSpecial {
        class: parent,
        name: "<init>"@,
        args: Seq::empty(),
        ret: JavaType::Void,
    }
    &&& m->code[2] is Return
}

/// A class is generated under its own name and into the file of that name. It extends exactly the
/// class that it names, sealed or not, and the root of all classes where it names none, and its
/// constructor calls the constructor of that class. It is final exactly where it is sealed.
pub proof fn law_class_form(p: Program, i: int)
    requires
        0 <= i < p.class@.len(),
    ensures
        program_view(p).len() == p.class@.len(),
        ({
            let c = p.class@[i];
            let g = program_view(p)[i];
            &&& g.name == c.name@
            &&& g.file == c.name@ + ".class"@
            &&& c.parent matches Some(parent) ==> g.parent == parent@
            &&& c.parent is None ==> g.parent == "java/lang/Object"@
            &&& g.access.public && !g.access.static_ && g.access.final_ == c.sealed
            &&& g.members.len() >= 1
            &&& c.parent matches Some(parent) ==> constructs(g.members[0], parent@)
            &&& c.parent is None ==> constructs(g.members[0], "java/lang/Object"@)
        }),
{
}

/// The field that a variable declares.
pub open spec fn declared_field(classes: Seq<ClassDef>, w: World, v: int) -> MemberView {
    Member::Field {
        access: open_access(),
        name: w.vars[v].name,
        type_: java_type(classes, w.vars[v].type_),
    }
}

/// A class member that is a variable declared in a class becomes one field, with its name and the
/// machine type of its type, and changes nothing else. One that is declared elsewhere becomes no
/// member, and takes the next local variable.
pub proof fn law_field_form(classes: Seq<ClassDef>, main: Option<usize>, v: usize, w: World)
    requires
        v < w.slots.len(),
    ensures
        ({
            let f = FieldDef::VarDef(v);
            let added = field_view(classes, main, f, w);
            let next = field_next(classes, main, f, w);
            let t = w.vars[v as int].type_;
            &&& w.vars[v as int].scope is Class ==> {
                &&& added == seq![declared_field(classes, w, v as int)]
                &&& next == w
                &&& t == SemanticType::Basic(BasicType::Bool) ==> added[0]->Field_type_ is Boolean
                &&& t == SemanticType::Basic(BasicType::Int) ==> added[0]->Field_type_ is Int
                &&& t is Array ==> added[0]->Field_type_ is Array
                &&& t is Object || t == SemanticType::Basic(BasicType::Text)
                    ==> added[0]->Field_type_ is Class
            }
            &&& !(w.vars[v as int].scope is Class) ==> {
                &&& added.len() == 0
                &&& next.local == w.local + 1
                &&& next.slots == w.slots.update(v as int, w.local as u8)
                &&& next.vars == w.vars
                &&& next.methods == w.methods
            }
        }),
{
    law_machine_types(classes, w.vars[v as int].type_);
}

/// Code that reads a field names it as it is generated: by the same name and the same type.
pub proof fn law_fields_are_found(
    main: Option<usize>,
    w: World,
    classes: Seq<ClassDef>,
    e: Expr,
    i: Identifier,
    v: usize,
    class: usize,
    p: Pos,
)
    requires
        e.kind == ExprKind::Identifier(i),
        i.symbol == Var::VarDef(v),
        w.vars[v as int].scope == ScopeKind::Class(class),
        expr_ok(w.env(classes), e),
        v < w.slots.len(),
    ensures
        ({
            let got = expr_code(w.env(classes), e, p).last();
            let field = field_view(classes, main, FieldDef::VarDef(v), w)[0];
            &&& got is GetField
            &&& got->GetField_class == classes[class as int].name@
            &&& got->GetField_name == field->Field_name
            &&& got->GetField_type_ == field->Field_type_
        }),
{
    let env = w.env(classes);
    law_variable_form(env, e, i, p, class);
    law_field_form(classes, main, v, w);
    assert(in_object(env, i.symbol, class));
}

/// What is generated for a method of a class.
pub open spec fn generated(
    classes: Seq<ClassDef>,
    main: Option<usize>,
    d: MethodDef,
    w: World,
) -> MemberView {
    field_view(classes, main, FieldDef::MethodDef(d), w).last()
}

/// A method is generated under its own name, seen by all, static exactly where it was declared
/// static, with the machine type of its result, static or not. Its arguments are the machine types
/// of its parameters, of which an instance method leaves out the first, its object.
pub proof fn law_method_form(
    classes: Seq<ClassDef>,
    main: Option<usize>,
    d: MethodDef,
    w: World,
    i: int,
)
    requires
        d.symbol < w.methods.len(),
        w.methods[d.symbol as int].static_ || w.methods[d.symbol as int].param.len() >= 1,
        main != Some(w.methods[d.symbol as int].class) || w.methods[d.symbol as int].name
            != "main"@,
    ensures
        ({
            let m = w.methods[d.symbol as int];
            let g = generated(classes, main, d, w);
            let first = if m.static_ {
                0int
            } else {
                1int
            };
            &&& g is Method
            &&& g->Method_name == m.name
            &&& g->Method_access.public && !g->Method_access.final_
            &&& g->Method_access.static_ == m.static_
            &&& g->ret == java_type(classes, m.ret_t)
            &&& g->ret is Void && has_java_type(classes, m.ret_t) ==> m.ret_t
                == SemanticType::Basic(BasicType::Void)
            &&& g->args.len() == m.param.len() - first
            &&& first <= i < m.param.len() ==> g->args[i - first] == java_type(
                classes,
                w.vars[m.param[i] as int].type_,
            )
        }),
{
    law_machine_types(classes, w.methods[d.symbol as int].ret_t);
}

/// In a program whose main class is at position `c`, whichever that is, a static method `main` that
/// class `c` declares is generated with an array of strings before the arguments for its own
/// parameters; where it has none, that is its only argument, and it is held in the first local
/// variable. Name, flags and result are as declared.
pub proof fn law_main_form(
    classes: Seq<ClassDef>,
    c: usize,
    d: MethodDef,
    w: World,
    i: int,
)
    requires
        d.symbol < w.methods.len(),
        w.methods[d.symbol as int].class == c,
        w.methods[d.symbol as int].name == "main"@,
        w.methods[d.symbol as int].static_,
        w.vars.len() <= usize::MAX,
        forall|j: int|
            0 <= j < w.methods[d.symbol as int].param.len() ==> (
            #[trigger] w.methods[d.symbol as int].param[j]) < w.vars.len(),
    ensures
        ({
            let m = w.methods[d.symbol as int];
            let g = generated(classes, Some(c), d, w);
            &&& g is Method
            &&& g->Method_name == "main"@
            &&& g->Method_access.public && g->Method_access.static_ && !g->Method_access.final_
            &&& g->ret == java_type(classes, m.ret_t)
            &&& g->args.len() == m.param.len() + 1
            &&& g->args[0] == JavaType::Array(Box::new(JavaType::Class("java/lang/String"@)))
            &&& 0 <= i < m.param.len() ==> g->args[i + 1] == java_type(
                classes,
                w.vars[m.param[i] as int].type_,
            )
            &&& m.param.len() == 0 && d.body.stmt@.len() == 0 ==> g->max_locals == 1
        }),
{
    let m = w.methods[d.symbol as int];
    let e = enter_method(Some(c), w, d.symbol);
    let n = e.methods[d.symbol as int];
    let v = w.vars.len() as usize;
    let s = SemanticType::Array(Box::new(SemanticType::Basic(BasicType::Text)));
    law_machine_types(classes, s);
    assert(n.param == m.param.insert(0, v));
    assert(n.param[0] == v);
    assert(e.vars[v as int].type_ == s);
    if 0 <= i < m.param.len() {
        assert(n.param[i + 1] == m.param[i]);
        assert(e.vars[m.param[i] as int] == w.vars[m.param[i] as int]);
    }
    reveal_with_fuel(param_locals, 2);
    reveal_with_fuel(stmts_locals, 2);
}

/// Where the method that starts the program was declared with an object of its own, the array of
/// strings takes the place of the object among the parameters, and the object comes next.
pub proof fn law_main_instance_form(
    classes: Seq<ClassDef>,
    c: usize,
    d: MethodDef,
    w: World,
    i: int,
)
    requires
        d.symbol < w.methods.len(),
        w.methods[d.symbol as int].class == c,
        w.methods[d.symbol as int].name == "main"@,
        !w.methods[d.symbol as int].static_,
        forall|j: int|
            0 <= j < w.methods[d.symbol as int].param.len() ==> (
            #[trigger] w.methods[d.symbol as int].param[j]) < w.vars.len(),
    ensures
        ({
            let m = w.methods[d.symbol as int];
            let g = generated(classes, Some(c), d, w);
            &&& g->args.len() == m.param.len()
            &&& 0 <= i < m.param.len() ==> g->args[i] == java_type(
                classes,
                w.vars[m.param[i] as int].type_,
            )
            &&& !g->Method_access.static_
        }),
{
    let m = w.methods[d.symbol as int];
    let e = enter_method(Some(c), w, d.symbol);
    let n = e.methods[d.symbol as int];
    if 0 <= i < m.param.len() {
        assert(n.param[i + 1] == m.param[i]);
        assert(e.vars[m.param[i] as int] == w.vars[m.param[i] as int]);
    }
}

/// Every call of a method asks for it as it is generated: for the class that declares it, by its
/// name, with the arguments and the result that its member has; and it is called as a static method
/// exactly where its member is static.
pub proof fn law_methods_are_found(
    env: Env,
    e: Expr,
    c: Call,
    p: Pos,
    body: Block,
    slots: Seq<u8>,
)
    requires
        e.kind == ExprKind::Call(c),
        !c.is_arr_len,
        expr_ok(env, e),
    ensures
        ({
            let m = env.methods[c.method->0 as int];
            let g = method_member(env, m, body, slots);
            let call = expr_code(env, e, p).last();
            &&& g->Method_access.static_ <==> call is InvokeStatic
            &&& !g->Method_access.static_ <==> call is InvokeVirtual
            &&& call is InvokeStatic ==> call->InvokeStatic_class
                == env.classes[m.class as int].name@ && call->InvokeStatic_name == g->Method_name
                && call->InvokeStatic_args == g->args && call->InvokeStatic_ret == g->ret
            &&& call is InvokeVirtual ==> call->InvokeVirtual_class
                == env.classes[m.class as int].name@ && call->InvokeVirtual_name == g->Method_name
                && call->InvokeVirtual_args == g->args && call->InvokeVirtual_ret == g->ret
        }),
{
    let m = env.methods[c.method->0 as int];
    let g = method_member(env, m, body, slots);
    let call = expr_code(env, e, p).last();
    law_call_form(env, e, c, p);
    if m.static_ {
        assert forall|i: int| 0 <= i < m.param.len() implies call->InvokeStatic_args[i]
            == g->args[i] by {
            assert(m.param[i] == m.param[i]);
        }
        assert(call->InvokeStatic_args =~= g->args);
    } else {
        assert(call_ok(env, c));
        assert forall|i: int| 0 <= i < m.param.len() - 1 implies call->InvokeVirtual_args[i]
            == g->args[i] by {
            assert(m.param[i + 1] == m.param[i + 1]);
        }
        assert(call->InvokeVirtual_args =~= g->args);
    }
}

/// Behind the code of its body a method leaves with 0 where its result is a number or a truth
/// value, with `null` where it is a reference, and with nothing where it has no result.
pub proof fn law_method_tail(env: Env, m: MethodView, body: Block, slots: Seq<u8>)
    ensures
        ({
            let code = method_member(env, m, body, slots)->code;
            let n = block_code(env, body, 0, body_start(env, m.param, slots)).len() as int;
            let t = m.ret_t;
            &&& code.take(n) == block_code(env, body, 0, body_start(env, m.param, slots))
            &&& whole(t) ==> code.len() == n + 2 && code[n] == Instruction::<
                Seq<char>,
                Seq<JType>,
            >::IntConst(0) && code[n + 1] is IReturn
            &&& referring(t) ==> code.len() == n + 2 && code[n] is AConstNull && code[n + 1]
                is AReturn
            &&& t == SemanticType::Basic(BasicType::Void) ==> code.len() == n + 1 && code[n]
                is Return
        }),
{
    let part = block_code(env, body, 0, body_start(env, m.param, slots));
    let code = method_code(env, m, body, slots);
    assert(code == part + tail_code(m.ret_t));
    assert(code.take(part.len() as int) =~= part);
}

/// A method leaves in hand as many labels as its code places, and as many local variables as its
/// member asks for. A variable leaves what was in hand.
pub proof fn law_method_leaves(
    classes: Seq<ClassDef>,
    main: Option<usize>,
    d: MethodDef,
    w: World,
    h: Hand,
    v: usize,
    l: u16,
)
    requires
        field_ok(classes, main, FieldDef::MethodDef(d), w),
    ensures
        ({
            let f = FieldDef::MethodDef(d);
            let g = generated(classes, main, d, w);
            let left = field_hand(classes, main, f, w, h);
            &&& l < left.label <==> placed(g->code, l) == 1
            &&& left.label <= u16::MAX
            &&& field_hand(classes, main, FieldDef::VarDef(v), w, h) == h
            &&& left.code.len() == 0
            &&& field_next(classes, main, f, w).local == g->max_locals
        }),
{
    let e = enter_method(main, w, d.symbol);
    law_method_labels(e.env(classes), e.methods[d.symbol as int], d.body, e.slots, l);
}

/// The fields that parameters and loop variables add are those that were declared in a class, one
/// for each and in order; all others add nothing.
pub proof fn law_inner_fields(env: Env, param: Seq<usize>, n: nat, f: Foreach)
    requires
        0 < n <= param.len(),
    ensures
        ({
            let v = param[n - 1] as int;
            let before = param_fields(env, param, (n - 1) as nat);
            let field = Member::Field {
                access: open_access(),
                name: env.vars[v].name,
                type_: java_type(env.classes, env.vars[v].type_),
            };
            &&& param_fields(env, param, 0).len() == 0
            &&& env.vars[v].scope is Class ==> param_fields(env, param, n) == before.push(field)
            &&& !(env.vars[v].scope is Class) ==> param_fields(env, param, n) == before
        }),
        ({
            let v = f.def as int;
            let field = Member::Field {
                access: open_access(),
                name: env.vars[v].name,
                type_: java_type(env.classes, env.vars[v].type_),
            };
            let inner = block_fields(env, f.body);
            &&& env.vars[v].scope is Class ==> stmt_fields(env, Stmt::Foreach(f)) == seq![field]
                + inner
            &&& !(env.vars[v].scope is Class) ==> stmt_fields(env, Stmt::Foreach(f)) == inner
        }),
{
    let v = param[n - 1];
    let before = param_fields(env, param, (n - 1) as nat);
    let inner = block_fields(env, f.body);
    if env.vars[v as int].scope is Class {
        assert(param_fields(env, param, n) =~= before.push(env.def_fields(v)[0]));
    } else {
        assert(param_fields(env, param, n) =~= before);
    }
    assert(stmt_fields(env, Stmt::Foreach(f)) == env.def_fields(f.def) + inner);
    if !(env.vars[f.def as int].scope is Class) {
        assert(env.def_fields(f.def) + inner =~= inner);
    }
}

/// A parameter is held in the next local variable, unless it is declared in a class, where it takes
/// none. The body starts behind all parameters, with its first label.
pub proof fn law_parameters_held(env: Env, param: Seq<usize>, slots: Seq<u8>, n: nat)
    requires
        0 < n <= param.len(),
        forall|i: int| 0 <= i < param.len() ==> (#[trigger] param[i]) < slots.len(),
    ensures
        ({
            let start = Pos { label: 0, local: 0, slots };
            let before = params_end(env, param, (n - 1) as nat, start);
            let after = params_end(env, param, n, start);
            let v = param[n - 1] as int;
            &&& params_end(env, param, 0, start) == start
            &&& body_start(env, param, slots) == params_end(env, param, param.len(), start)
            &&& body_start(env, param, slots).label == 0
            &&& env.vars[v].scope is Class ==> after == before
            &&& !(env.vars[v].scope is Class) ==> after.local == before.local + 1 && after.slots
                == before.slots.update(v, before.local as u8)
        }),
{
    lemma_params_end(env, param, param.len(), Pos { label: 0, local: 0, slots });
}

/// Behind a method, what is known is what its body has left: where its variables were held, and the
/// declarations as they were while it was generated.
pub proof fn law_method_next(classes: Seq<ClassDef>, main: Option<usize>, d: MethodDef, w: World)
    requires
        d.symbol < w.methods.len(),
    ensures
        ({
            let env = inside(classes, main, w, d.symbol);
            let param = env.methods[d.symbol as int].param;
            let next = field_next(classes, main, FieldDef::MethodDef(d), w);
            let slots = if env.vars.len() > w.vars.len() {
                w.slots.push(0)
            } else {
                w.slots
            };
            &&& next.vars == env.vars
            &&& next.methods == env.methods
            &&& next.slots == block_end(env, d.body, body_start(env, param, slots)).slots
        }),
{
    let env = inside(classes, main, w, d.symbol);
    let e = enter_method(main, w, d.symbol);
    assert(w.methods[d.symbol as int].param.insert(0, w.vars.len() as usize) =~= seq![
        w.vars.len() as usize,
    ] + w.methods[d.symbol as int].param);
    assert(e.env(classes) == env);
}

/// A method adds to its class the fields of its parameters, those of its body, and itself. A
/// statement adds the fields of its blocks, in order, and only a walk over an array one of its own.
pub proof fn law_fields_added(
    classes: Seq<ClassDef>,
    main: Option<usize>,
    d: MethodDef,
    w: World,
    env: Env,
    s: Stmt,
    b: Block,
    g: Guarded,
    n: nat,
)
    requires
        d.symbol < w.methods.len(),
    ensures
        ({
            let inner = inside(classes, main, w, d.symbol);
            let param = inner.methods[d.symbol as int].param;
            field_view(classes, main, FieldDef::MethodDef(d), w).drop_last() == param_fields(
                inner,
                param,
                param.len(),
            ) + block_fields(inner, d.body)
        }),
        match s {
            Stmt::If(x) => stmt_fields(env, s) == block_fields(env, x.on_true)
                + if x.on_false is Some {
                block_fields(env, x.on_false->0)
            } else {
                Seq::empty()
            },
            Stmt::While(x) => stmt_fields(env, s) == block_fields(env, x.body),
            Stmt::For(x) => stmt_fields(env, s) == block_fields(env, x.body),
            Stmt::Block(x) => stmt_fields(env, s) == block_fields(env, x),
            Stmt::Guarded(x) => stmt_fields(env, s) == guards_fields(
                env,
                x.guarded@,
                x.guarded@.len(),
            ),
            Stmt::Foreach(_) => true,
            _ => stmt_fields(env, s).len() == 0,
        },
        block_fields(env, b) == stmts_fields(env, b.stmt@, b.stmt@.len()),
        stmts_fields(env, b.stmt@, 0).len() == 0,
        0 < n <= b.stmt@.len() ==> stmts_fields(env, b.stmt@, n) == stmts_fields(
            env,
            b.stmt@,
            (n - 1) as nat,
        ) + stmt_fields(env, b.stmt@[n - 1]),
        guards_fields(env, g.guarded@, 0).len() == 0,
        0 < n <= g.guarded@.len() ==> guards_fields(env, g.guarded@, n) == guards_fields(
            env,
            g.guarded@,
            (n - 1) as nat,
        ) + block_fields(env, g.guarded@[n - 1].1),
{
    let inner = inside(classes, main, w, d.symbol);
    let param = inner.methods[d.symbol as int].param;
    let e = enter_method(main, w, d.symbol);
    assert(w.methods[d.symbol as int].param.insert(0, w.vars.len() as usize) =~= seq![
        w.vars.len() as usize,
    ] + w.methods[d.symbol as int].param);
    assert(e.env(classes) == inner);
    assert(field_view(classes, main, FieldDef::MethodDef(d), w).drop_last() =~= param_fields(
        inner,
        param,
        param.len(),
    ) + block_fields(inner, d.body));
}

/// Where the members that member `j` of class `i` adds start in the generated class.
pub open spec fn place_of(p: Program, i: int, j: nat) -> int
    decreases j,
{
    if j == 0 {
        1
    } else {
        place_of(p, i, (j - 1) as nat) + field_view(
            p.class@,
            p.main,
            p.class@[i].field@[j - 1],
            world_before(p, i, j - 1),
        ).len()
    }
}

proof fn lemma_places(p: Program, i: int, n: nat)
    requires
        0 <= i < p.class@.len(),
        n <= p.class@[i].field@.len(),
    ensures
        ({
            let w = classes_next(p.class@, p.main, i as nat, initial_world(p));
            place_of(p, i, n) == 1 + fields_view(
                p.class@,
                p.main,
                p.class@[i].field@,
                n,
                w,
            ).len()
        }),
    decreases n,
{
    if n > 0 {
        lemma_places(p, i, (n - 1) as nat);
    }
}

proof fn lemma_prefix(p: Program, i: int, m: nat, n: nat)
    requires
        0 <= i < p.class@.len(),
        m <= n <= p.class@[i].field@.len(),
    ensures
        ({
            let w = classes_next(p.class@, p.main, i as nat, initial_world(p));
            let fs = p.class@[i].field@;
            let (a, b) = (
                fields_view(p.class@, p.main, fs, m, w),
                fields_view(p.class@, p.main, fs, n, w),
            );
            a.len() <= b.len() && a == b.take(a.len() as int)
        }),
    decreases n,
{
    let w = classes_next(p.class@, p.main, i as nat, initial_world(p));
    let fs = p.class@[i].field@;
    let (a, b) = (
        fields_view(p.class@, p.main, fs, m, w),
        fields_view(p.class@, p.main, fs, n, w),
    );
    if m < n {
        let c = fields_view(p.class@, p.main, fs, (n - 1) as nat, w);
        lemma_prefix(p, i, m, (n - 1) as nat);
        assert(a =~= b.take(a.len() as int)) by {
            assert(b.take(c.len() as int) =~= c);
        }
    } else {
        assert(a =~= b.take(a.len() as int));
    }
}

/// Behind the constructor stand the members that each member of the class adds, in the order of the
/// class, and nothing else.
pub proof fn law_members_in_order(p: Program, i: int, j: int)
    requires
        0 <= i < p.class@.len(),
        0 <= j < p.class@[i].field@.len(),
    ensures
        ({
            let g = program_view(p)[i].members;
            let added = field_view(
                p.class@,
                p.main,
                p.class@[i].field@[j],
                world_before(p, i, j),
            );
            let at = place_of(p, i, j as nat);
            &&& 1 <= at
            &&& at + added.len() <= g.len()
            &&& g.subrange(at, at + added.len()) == added
            &&& g.len() == place_of(p, i, p.class@[i].field@.len())
        }),
{
    let fs = p.class@[i].field@;
    let w = classes_next(p.class@, p.main, i as nat, initial_world(p));
    let all = fields_view(p.class@, p.main, fs, fs.len(), w);
    let upto = fields_view(p.class@, p.main, fs, (j + 1) as nat, w);
    let before = fields_view(p.class@, p.main, fs, j as nat, w);
    let added = field_view(p.class@, p.main, fs[j], world_before(p, i, j));
    let g = program_view(p)[i].members;
    lemma_places(p, i, j as nat);
    lemma_places(p, i, fs.len());
    lemma_prefix(p, i, (j + 1) as nat, fs.len());
    assert(upto == before + added);
    let at = place_of(p, i, j as nat);
    assert forall|k: int| 0 <= k < added.len() implies g[at + k] == added[k] by {
        assert(g[at + k] == all[before.len() + k]);
        assert(all[before.len() + k] == upto[before.len() + k]);
    }
    assert(g.subrange(at, at + added.len()) =~= added);
}

// ---------------------------------------------------------------------------------------------
// What is known while a program is generated
// ---------------------------------------------------------------------------------------------

/// Generation starts from what was declared, with no local variable taken, and goes on from member
/// to member and from class to class.
pub proof fn law_worlds(p: Program, i: int, j: int)
    requires
        0 <= i < p.class@.len(),
        0 <= j < p.class@[i].field@.len(),
    ensures
        world_before(p, 0, 0).vars == p.symbols.vars(),
        world_before(p, 0, 0).methods == p.symbols.methods(),
        world_before(p, 0, 0).local == 0,
        world_before(p, 0, 0).slots.len() == p.symbols.var@.len(),
        forall|v: int| 0 <= v < p.symbols.var@.len() ==> world_before(p, 0, 0).slots[v] == 0,
        world_before(p, i, j + 1) == field_next(
            p.class@,
            p.main,
            p.class@[i].field@[j],
            world_before(p, i, j),
        ),
        world_before(p, i + 1, 0) == world_before(p, i, p.class@[i].field@.len() as int),
{
}

/// The declarations are as they were, but for a method `main` of the main class, which may have got
/// parameters before its own.
pub open spec fn kept_from(p: Program, w: World) -> bool {
    &&& w.vars.len() >= p.symbols.var@.len()
    &&& forall|v: int|
        0 <= v < p.symbols.var@.len() ==> #[trigger] w.vars[v] == p.symbols.var@[v]@
    &&& w.methods.len() == p.symbols.method@.len()
    &&& forall|k: int|
        0 <= k < p.symbols.method@.len() ==> same_method(
            p.main,
            #[trigger] w.methods[k],
            p.symbols.method@[k]@,
        )
}

/// The method is the one that was declared, up to parameters that the method that starts the
/// program got before its own.
pub open spec fn same_method(main: Option<usize>, m: MethodView, declared: MethodView) -> bool {
    &&& m.class == declared.class
    &&& m.name == declared.name
    &&& m.static_ == declared.static_
    &&& m.ret_t == declared.ret_t
    &&& m.param.len() >= declared.param.len()
    &&& m.param.skip(m.param.len() - declared.param.len()) == declared.param
    &&& main != Some(m.class) || m.name != "main"@ ==> m.param == declared.param
}

proof fn lemma_same_method(main: Option<usize>, m: MethodView, declared: MethodView, v: usize)
    requires
        same_method(main, m, declared),
        main == Some(m.class),
        m.name == "main"@,
    ensures
        same_method(
            main,
            (MethodSymbol { param: m.param.insert(0, v), ..m }),
            declared,
        ),
{
    let param = m.param.insert(0, v);
    assert(param.skip(param.len() - declared.param.len()) =~= m.param.skip(
        m.param.len() - declared.param.len(),
    ));
}

proof fn lemma_fields_kept(p: Program, fs: Seq<FieldDef>, n: nat, w: World)
    requires
        kept_from(p, w),
        n <= fs.len(),
        fields_ok(p.class@, p.main, fs, n, w),
    ensures
        kept_from(p, fields_next(p.class@, p.main, fs, n, w)),
    decreases n,
{
    if n > 0 {
        let m = (n - 1) as nat;
        lemma_fields_kept(p, fs, m, w);
        let before = fields_next(p.class@, p.main, fs, m, w);
        let after = fields_next(p.class@, p.main, fs, n, w);
        if let FieldDef::MethodDef(d) = fs[n - 1] {
            let k = d.symbol as int;
            assert(d.symbol < before.methods.len());
            let old_ = before.methods[k];
            assert(same_method(p.main, old_, p.symbols.method@[k]@));
            if p.main == Some(old_.class) && old_.name == "main"@ {
                lemma_same_method(
                    p.main,
                    old_,
                    p.symbols.method@[k]@,
                    before.vars.len() as usize,
                );
            }
            assert forall|v: int| 0 <= v < p.symbols.var@.len() implies #[trigger] after.vars[v]
                == p.symbols.var@[v]@ by {
                assert(before.vars[v] == p.symbols.var@[v]@);
            }
            assert forall|l: int| 0 <= l < p.symbols.method@.len() implies same_method(
                p.main,
                #[trigger] after.methods[l],
                p.symbols.method@[l]@,
            ) by {
                assert(same_method(p.main, before.methods[l], p.symbols.method@[l]@));
            }
        }
    }
}

proof fn lemma_classes_kept(p: Program, n: nat)
    requires
        n <= p.class@.len(),
        classes_ok(p.class@, p.main, n, initial_world(p)),
    ensures
        kept_from(p, classes_next(p.class@, p.main, n, initial_world(p))),
    decreases n,
{
    let w = initial_world(p);
    if n > 0 {
        let m = (n - 1) as nat;
        let fs = p.class@[n - 1].field@;
        lemma_classes_kept(p, m);
        lemma_fields_kept(p, fs, fs.len(), classes_next(p.class@, p.main, m, w));
    } else {
        assert forall|k: int| 0 <= k < p.symbols.method@.len() implies same_method(
            p.main,
            #[trigger] w.methods[k],
            p.symbols.method@[k]@,
        ) by {
            let param = w.methods[k].param;
            assert(param.skip(0) =~= param);
        }
    }
}

/// Whenever a member is generated, every variable and every method is the one that was declared: by
/// its name, its type, its scope, its class and its result. Only the method that starts the program
/// may have more parameters, and those stand before its own.
pub proof fn law_declarations_kept(p: Program, i: int, j: int)
    requires
        program_ok(p),
        0 <= i < p.class@.len(),
        0 <= j < p.class@[i].field@.len(),
    ensures
        kept_from(p, world_before(p, i, j)),
{
    let fs = p.class@[i].field@;
    let w = classes_next(p.class@, p.main, i as nat, initial_world(p));
    lemma_classes_ok_prefix(p.class@, p.main, p.class@.len(), initial_world(p), i as nat);
    lemma_class_ok(p.class@, p.main, p.class@.len(), initial_world(p), i);
    lemma_fields_ok_prefix(p.class@, p.main, fs, fs.len(), w, j as nat);
    lemma_classes_kept(p, i as nat);
    lemma_fields_kept(p, fs, j as nat, w);
}

/// In every generated class, the method that stands for a declared method has the name, the flags,
/// the arguments and the machine type of the result that were declared. A static method `main` of
/// the main class, wherever that class stands, takes an array of strings first.
pub proof fn law_program_methods(p: Program, i: int, j: int, k: int)
    requires
        program_ok(p),
        0 <= i < p.class@.len(),
        0 <= j < p.class@[i].field@.len(),
        p.class@[i].field@[j] is MethodDef,
    ensures
        ({
            let d = p.class@[i].field@[j]->MethodDef_0;
            let m = p.symbols.method@[d.symbol as int];
            let end = place_of(p, i, (j + 1) as nat);
            let g = program_view(p)[i].members[end - 1];
            let starts = p.main == Some(m.class) && m.name@ == "main"@;
            let first = if m.static_ {
                0int
            } else {
                1int
            };
            &&& d.symbol < p.symbols.method@.len()
            &&& 1 < end <= program_view(p)[i].members.len()
            &&& g is Method
            &&& g->Method_name == m.name@
            &&& g->Method_access == (Access { public: true, static_: m.static_, final_: false })
            &&& g->ret == java_type(p.class@, m.ret_t)
            &&& !starts ==> g->args.len() == m.param@.len() - first
            &&& !starts && first <= k < m.param@.len() && m.param@[k] < p.symbols.var@.len()
                ==> g->args[k - first] == java_type(
                p.class@,
                p.symbols.var@[m.param@[k] as int].type_,
            )
            &&& starts && m.static_ && world_before(p, i, j).vars.len() <= usize::MAX ==> {
                &&& g->args.len() > m.param@.len()
                &&& g->args[0] == JavaType::Array(Box::new(JavaType::Class("java/lang/String"@)))
            }
        }),
{
    let f = p.class@[i].field@[j];
    let d = f->MethodDef_0;
    let w = world_before(p, i, j);
    let fs = p.class@[i].field@;
    let v = classes_next(p.class@, p.main, i as nat, initial_world(p));
    law_declarations_kept(p, i, j);
    law_members_in_order(p, i, j);
    lemma_class_ok(p.class@, p.main, p.class@.len(), initial_world(p), i);
    lemma_fields_ok_prefix(p.class@, p.main, fs, fs.len(), v, (j + 1) as nat);
    let added = field_view(p.class@, p.main, f, w);
    let g = program_view(p)[i].members;
    let at = place_of(p, i, j as nat);
    assert(d.symbol < w.methods.len());
    let m = p.symbols.method@[d.symbol as int];
    assert(same_method(p.main, w.methods[d.symbol as int], m@));
    assert(place_of(p, i, (j + 1) as nat) == at + added.len());
    assert(g.subrange(at, at + added.len())[added.len() - 1] == added.last());
    if p.main == Some(m.class) && m.name@ == "main"@ {
        let e = enter_method(p.main, w, d.symbol);
        let n = e.methods[d.symbol as int];
        let s = SemanticType::Array(Box::new(SemanticType::Basic(BasicType::Text)));
        law_machine_types(p.class@, s);
        assert(n.param == w.methods[d.symbol as int].param.insert(0, w.vars.len() as usize));
        if w.vars.len() <= usize::MAX {
            assert(e.vars[n.param[0] as int].type_ == s);
        }
    } else {
        law_method_form(p.class@, p.main, d, w, k);
        if 0 <= k < m.param@.len() && m.param@[k] < p.symbols.var@.len() {
            assert(w.vars[m.param@[k] as int] == p.symbols.var@[m.param@[k] as int]@);
        }
    }
}

/// In every generated class, a member that is a variable declared in a class has become the field
/// with its name and the machine type of its type.
pub proof fn law_program_fields(p: Program, i: int, j: int)
    requires
        program_ok(p),
        0 <= i < p.class@.len(),
        0 <= j < p.class@[i].field@.len(),
        p.class@[i].field@[j] is VarDef,
        p.class@[i].field@[j]->VarDef_0 < p.symbols.var@.len(),
        p.symbols.var@[p.class@[i].field@[j]->VarDef_0 as int].scope is Class,
    ensures
        ({
            let v = p.symbols.var@[p.class@[i].field@[j]->VarDef_0 as int];
            let at = place_of(p, i, j as nat);
            &&& 0 < at < program_view(p)[i].members.len()
            &&& program_view(p)[i].members[at] == Member::<
                Seq<char>,
                Seq<JType>,
                Seq<InsnView>,
            >::Field {
                access: open_access(),
                name: v.name@,
                type_: java_type(p.class@, v.type_),
            }
        }),
{
    let f = p.class@[i].field@[j];
    let v = f->VarDef_0;
    let w = world_before(p, i, j);
    law_declarations_kept(p, i, j);
    law_members_in_order(p, i, j);
    let added = field_view(p.class@, p.main, f, w);
    let g = program_view(p)[i].members;
    let at = place_of(p, i, j as nat);
    assert(w.vars[v as int] == p.symbols.var@[v as int]@);
    assert(added.len() == 1);
    assert(g.subrange(at, at + added.len())[0] == added[0]);
}

} // verus!
