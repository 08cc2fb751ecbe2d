//! The classes of a whole program: what they hold, and which programs have them.

use vstd::prelude::*;

use crate::ast::{
    BasicType, Block, ClassDef, Expr, FieldDef, MethodDef, MethodSymbol, MethodView, Program,
    ScopeKind, SemanticType, Stmt, VarSymbol, VarView,
};
use crate::instr::{
    Access, ClassFile, ClassView, InsnView, Instruction, JavaType, Member, MemberView,
};
use crate::scheme::{
    block_code, block_end, block_fields, block_labels, block_locals, guards_fields, stmt_fields,
    stmts_fields, Env, Pos,
};
use crate::types::{has_java_type, java_type, return_insn, zero_insn};
use crate::valid::block_ok;

verus! {

/// What is known of the whole program while its classes are generated one after another.
pub struct World {
    pub vars: Seq<VarView>,
    pub methods: Seq<MethodView>,
    /// The local variable that holds each declared variable.
    pub slots: Seq<u8>,
    /// The next local variable: as many as the last method has.
    pub local: nat,
}

impl World {
    pub open spec fn env(self, classes: Seq<ClassDef>) -> Env {
        Env { classes, vars: self.vars, methods: self.methods }
    }
}

/// The method starts the program.
pub open spec fn is_main(main: Option<usize>, m: MethodView) -> bool {
    main == Some(m.class) && m.name == "main"@
}

/// The parameter that the machine passes to the method that starts the program.
pub open spec fn args_symbol() -> VarView {
    VarSymbol {
        name: "args"@,
        type_: SemanticType::Array(Box::new(SemanticType::Basic(BasicType::Text))),
        scope: ScopeKind::Parameter,
    }
}

/// The method that starts the program gets its parameter when it is generated.
pub open spec fn enter_method(main: Option<usize>, w: World, k: usize) -> World {
    let m = w.methods[k as int];
    if is_main(main, m) {
        World {
            vars: w.vars.push(args_symbol()),
            methods: w.methods.update(
                k as int,
                MethodSymbol { param: m.param.insert(0, w.vars.len() as usize), ..m },
            ),
            slots: w.slots.push(0),
            local: w.local,
        }
    } else {
        w
    }
}

/// Where generation stands after the first `n` parameters, which are declared one after another.
pub open spec fn params_end(env: Env, param: Seq<usize>, n: nat, p: Pos) -> Pos
    decreases n,
{
    if n == 0 || n > param.len() {
        p
    } else {
        params_end(env, param, (n - 1) as nat, p).declare(env, param[n - 1])
    }
}

/// The number of local variables that the first `n` parameters take.
pub open spec fn param_locals(env: Env, param: Seq<usize>, n: nat) -> nat
    decreases n,
{
    if n == 0 || n > param.len() {
        0
    } else {
        param_locals(env, param, (n - 1) as nat) + env.def_locals(param[n - 1])
    }
}

/// The fields that the first `n` parameters add to the class in hand.
pub open spec fn param_fields(env: Env, param: Seq<usize>, n: nat) -> Seq<MemberView>
    decreases n,
{
    if n == 0 || n > param.len() {
        Seq::empty()
    } else {
        param_fields(env, param, (n - 1) as nat) + env.def_fields(param[n - 1])
    }
}

/// Where the body of a method starts.
pub open spec fn body_start(env: Env, param: Seq<usize>, slots: Seq<u8>) -> Pos {
    params_end(env, param, param.len(), Pos { label: 0, local: 0, slots })
}

/// The parameters take no labels, and as many local variables as they declare.
pub proof fn lemma_params_end(env: Env, param: Seq<usize>, n: nat, p: Pos)
    requires
        n <= param.len(),
    ensures
        params_end(env, param, n, p).label == p.label,
        params_end(env, param, n, p).local == p.local + param_locals(env, param, n),
        param_locals(env, param, n) <= n,
    decreases n,
{
    if n > 0 {
        lemma_params_end(env, param, (n - 1) as nat, p);
    }
}

pub proof fn lemma_param_locals_grow(env: Env, param: Seq<usize>, i: nat, n: nat)
    requires
        i <= n <= param.len(),
    ensures
        param_locals(env, param, i) <= param_locals(env, param, n),
    decreases n,
{
    if i < n {
        lemma_param_locals_grow(env, param, i, (n - 1) as nat);
    }
}

/// The way out behind the body of a method, with the initial value of the result's type.
pub open spec fn tail_code(ret_t: SemanticType) -> Seq<InsnView> {
    if ret_t == SemanticType::Basic(BasicType::Void) {
        seq![Instruction::Return]
    } else {
        seq![zero_insn(ret_t), return_insn(ret_t)]
    }
}

pub open spec fn method_code(env: Env, m: MethodView, body: Block, slots: Seq<u8>) -> Seq<
    InsnView,
> {
    block_code(env, body, 0, body_start(env, m.param, slots)) + tail_code(m.ret_t)
}

/// The number of local variables of a method.
pub open spec fn method_locals(env: Env, m: MethodView, body: Block) -> nat {
    param_locals(env, m.param, m.param.len()) + block_locals(env, body)
}

/// A method of a class. The machine passes `this` on its own.
pub open spec fn method_member(env: Env, m: MethodView, body: Block, slots: Seq<u8>) -> MemberView {
    Member::Method {
        access: Access { public: true, static_: m.static_, final_: false },
        name: m.name,
        args: env.param_types(m.param).skip(if m.static_ {
            0int
        } else {
            1int
        }),
        ret: java_type(env.classes, m.ret_t),
        code: method_code(env, m, body, slots),
        max_locals: method_locals(env, m, body) as u16,
    }
}

/// What a method adds to its class: the fields that its parameters and its body declare, and then
/// the method itself.
pub open spec fn method_members(env: Env, m: MethodView, body: Block, slots: Seq<u8>) -> Seq<
    MemberView,
> {
    (param_fields(env, m.param, m.param.len()) + block_fields(env, body)).push(
        method_member(env, m, body, slots),
    )
}

/// The method can be generated: its parameters can be declared and exist on the machine, its result
/// exists on the machine, an instance method has `this` as its first parameter, and the labels and
/// local variables suffice.
pub open spec fn body_ok(env: Env, m: MethodView, body: Block) -> bool {
    &&& env.params_exist(m.param)
    &&& forall|i: int| 0 <= i < m.param.len() ==> env.can_declare(#[trigger] m.param[i])
    &&& has_java_type(env.classes, m.ret_t)
    &&& m.static_ || m.param.len() >= 1
    &&& block_ok(env, body, false)
    &&& block_labels(env, body) <= u16::MAX
    &&& method_locals(env, m, body) <= u8::MAX
}

/// The member can be generated. A variable that is no field needs a local variable.
pub open spec fn field_ok(
    classes: Seq<ClassDef>,
    main: Option<usize>,
    f: FieldDef,
    w: World,
) -> bool {
    match f {
        FieldDef::VarDef(v) => {
            let env = w.env(classes);
            env.can_declare(v) && w.local + env.def_locals(v) <= u8::MAX
        },
        FieldDef::MethodDef(d) => {
            let e = enter_method(main, w, d.symbol);
            d.symbol < w.methods.len() && body_ok(
                e.env(classes),
                e.methods[d.symbol as int],
                d.body,
            )
        },
    }
}

/// What a method of a class becomes.
pub open spec fn method_view(
    classes: Seq<ClassDef>,
    main: Option<usize>,
    d: MethodDef,
    w: World,
) -> MemberView {
    let e = enter_method(main, w, d.symbol);
    method_member(e.env(classes), e.methods[d.symbol as int], d.body, e.slots)
}

/// What a member of a class adds to the class that is generated.
pub open spec fn field_view(
    classes: Seq<ClassDef>,
    main: Option<usize>,
    f: FieldDef,
    w: World,
) -> Seq<MemberView> {
    match f {
        FieldDef::VarDef(v) => w.env(classes).def_fields(v),
        FieldDef::MethodDef(d) => {
            let e = enter_method(main, w, d.symbol);
            method_members(e.env(classes), e.methods[d.symbol as int], d.body, e.slots)
        },
    }
}

/// What is known after a member of a class.
pub open spec fn field_next(
    classes: Seq<ClassDef>,
    main: Option<usize>,
    f: FieldDef,
    w: World,
) -> World {
    match f {
        FieldDef::VarDef(v) => {
            let q = (Pos { label: 0, local: w.local, slots: w.slots }).declare(w.env(classes), v);
            World { slots: q.slots, local: q.local, ..w }
        },
        FieldDef::MethodDef(d) => {
            let e = enter_method(main, w, d.symbol);
            method_next(e.env(classes), e.methods[d.symbol as int], d.body, e)
        },
    }
}

/// What is known after a method that has all its parameters.
pub open spec fn method_next(env: Env, m: MethodView, body: Block, w: World) -> World {
    World {
        slots: block_end(env, body, body_start(env, m.param, w.slots)).slots,
        local: method_locals(env, m, body),
        ..w
    }
}

/// What belongs to the method in hand alone.
pub struct Hand {
    /// The next label.
    pub label: nat,
    /// The code so far.
    pub code: Seq<InsnView>,
}

/// What is left in hand after a member of a class: a method leaves the number of its labels and no
/// code, a variable leaves what was there.
pub open spec fn field_hand(
    classes: Seq<ClassDef>,
    main: Option<usize>,
    f: FieldDef,
    w: World,
    h: Hand,
) -> Hand {
    match f {
        FieldDef::VarDef(v) => h,
        FieldDef::MethodDef(d) => {
            let e = enter_method(main, w, d.symbol);
            method_hand(e.env(classes), d.body)
        },
    }
}

/// What a method leaves in hand.
pub open spec fn method_hand(env: Env, body: Block) -> Hand {
    Hand { label: block_labels(env, body), code: Seq::empty() }
}

/// What is left in hand after the first `n` members of a class.
pub open spec fn fields_hand(
    classes: Seq<ClassDef>,
    main: Option<usize>,
    fs: Seq<FieldDef>,
    n: nat,
    w: World,
    h: Hand,
) -> Hand
    decreases n,
{
    if n == 0 || n > fs.len() {
        h
    } else {
        let m = (n - 1) as nat;
        field_hand(
            classes,
            main,
            fs[n - 1],
            fields_next(classes, main, fs, m, w),
            fields_hand(classes, main, fs, m, w, h),
        )
    }
}

/// What is left in hand after the first `n` classes.
pub open spec fn classes_hand(
    classes: Seq<ClassDef>,
    main: Option<usize>,
    n: nat,
    w: World,
    h: Hand,
) -> Hand
    decreases n,
{
    if n == 0 || n > classes.len() {
        h
    } else {
        let m = (n - 1) as nat;
        let fs = classes[n - 1].field@;
        fields_hand(
            classes,
            main,
            fs,
            fs.len(),
            classes_next(classes, main, m, w),
            classes_hand(classes, main, m, w, h),
        )
    }
}

/// What is known after the first `n` members of a class.
pub open spec fn fields_next(
    classes: Seq<ClassDef>,
    main: Option<usize>,
    fs: Seq<FieldDef>,
    n: nat,
    w: World,
) -> World
    decreases n,
{
    if n == 0 || n > fs.len() {
        w
    } else {
        field_next(classes, main, fs[n - 1], fields_next(classes, main, fs, (n - 1) as nat, w))
    }
}

/// Each of the first `n` members of a class can be generated when its turn comes.
pub open spec fn fields_ok(
    classes: Seq<ClassDef>,
    main: Option<usize>,
    fs: Seq<FieldDef>,
    n: nat,
    w: World,
) -> bool
    decreases n,
{
    if n == 0 || n > fs.len() {
        true
    } else {
        let m = (n - 1) as nat;
        fields_ok(classes, main, fs, m, w) && field_ok(
            classes,
            main,
            fs[n - 1],
            fields_next(classes, main, fs, m, w),
        )
    }
}

/// What the first `n` members of a class add to the class that is generated.
pub open spec fn fields_view(
    classes: Seq<ClassDef>,
    main: Option<usize>,
    fs: Seq<FieldDef>,
    n: nat,
    w: World,
) -> Seq<MemberView>
    decreases n,
{
    if n == 0 || n > fs.len() {
        Seq::empty()
    } else {
        let m = (n - 1) as nat;
        fields_view(classes, main, fs, m, w) + field_view(
            classes,
            main,
            fs[n - 1],
            fields_next(classes, main, fs, m, w),
        )
    }
}

/// The constructor without arguments, which calls that of the parent.
pub open spec fn constructor(parent: Seq<char>) -> MemberView {
    Member::Method {
        access: Access { public: true, static_: false, final_: false },
        name: "<init>"@,
        args: Seq::empty(),
        ret: JavaType::Void,
        code: seq![
            Instruction::ALoad(0),
            Instruction::InvokeSpecial {
                class: parent,
                name: "<init>"@,
                args: Seq::empty(),
                ret: JavaType::Void,
            },
            Instruction::Return,
        ],
        max_locals: 1,
    }
}

/// The name of the parent; a class without one extends the root of all classes.
pub open spec fn parent_name(c: ClassDef) -> Seq<char> {
    match c.parent {
        Some(name) => name@,
        None => "java/lang/Object"@,
    }
}

/// What a class becomes: the constructor, and then what its members add, in order.
pub open spec fn class_view(
    classes: Seq<ClassDef>,
    main: Option<usize>,
    c: ClassDef,
    w: World,
) -> ClassView {
    ClassFile {
        file: c.name@ + ".class"@,
        access: Access { public: true, static_: false, final_: c.sealed },
        name: c.name@,
        parent: parent_name(c),
        members: seq![constructor(parent_name(c))] + fields_view(
            classes,
            main,
            c.field@,
            c.field@.len(),
            w,
        ),
    }
}

/// What is known after the first `n` classes.
pub open spec fn classes_next(
    classes: Seq<ClassDef>,
    main: Option<usize>,
    n: nat,
    w: World,
) -> World
    decreases n,
{
    if n == 0 || n > classes.len() {
        w
    } else {
        let fs = classes[n - 1].field@;
        fields_next(classes, main, fs, fs.len(), classes_next(classes, main, (n - 1) as nat, w))
    }
}

/// Each of the first `n` classes can be generated when its turn comes.
pub open spec fn classes_ok(classes: Seq<ClassDef>, main: Option<usize>, n: nat, w: World) -> bool
    decreases n,
{
    if n == 0 || n > classes.len() {
        true
    } else {
        let m = (n - 1) as nat;
        let fs = classes[n - 1].field@;
        classes_ok(classes, main, m, w) && fields_ok(
            classes,
            main,
            fs,
            fs.len(),
            classes_next(classes, main, m, w),
        )
    }
}

/// What is known of a program before any class is generated.
pub open spec fn initial_world(p: Program) -> World {
    World {
        vars: p.symbols.vars(),
        methods: p.symbols.methods(),
        slots: Seq::new(p.symbols.var@.len(), |i: int| 0u8),
        local: 0,
    }
}

/// Code can be generated for the program.
pub open spec fn program_ok(p: Program) -> bool {
    classes_ok(p.class@, p.main, p.class@.len(), initial_world(p))
}

/// What the class at position `i` becomes.
pub open spec fn program_class(p: Program, i: int) -> ClassView {
    class_view(
        p.class@,
        p.main,
        p.class@[i],
        classes_next(p.class@, p.main, i as nat, initial_world(p)),
    )
}

/// What a program becomes: one class for each of its classes, in order.
pub open spec fn program_view(p: Program) -> Seq<ClassView> {
    Seq::new(p.class@.len(), |i: int| program_class(p, i))
}

/// What is known before member `j` of class `i`.
pub open spec fn world_before(p: Program, i: int, j: int) -> World {
    fields_next(
        p.class@,
        p.main,
        p.class@[i].field@,
        j as nat,
        classes_next(p.class@, p.main, i as nat, initial_world(p)),
    )
}

/// Every method that is generated for a class stands for one of its methods.
proof fn lemma_fields_view(
    classes: Seq<ClassDef>,
    main: Option<usize>,
    fs: Seq<FieldDef>,
    n: nat,
    w: World,
    j: int,
) -> (k: int)
    requires
        n <= fs.len(),
        fields_ok(classes, main, fs, n, w),
        0 <= j < fields_view(classes, main, fs, n, w).len(),
        fields_view(classes, main, fs, n, w)[j] is Method,
    ensures
        0 <= k < n,
        fs[k] is MethodDef,
        fields_view(classes, main, fs, n, w)[j] == method_view(
            classes,
            main,
            fs[k]->MethodDef_0,
            fields_next(classes, main, fs, k as nat, w),
        ),
        field_ok(classes, main, fs[k], fields_next(classes, main, fs, k as nat, w)),
    decreases n,
{
    let m = (n - 1) as nat;
    let before = fields_view(classes, main, fs, m, w);
    if j < before.len() {
        lemma_fields_view(classes, main, fs, m, w, j)
    } else {
        let v = fields_next(classes, main, fs, m, w);
        let last = field_view(classes, main, fs[n - 1], v);
        assert(last[j - before.len()] is Method);
        if let FieldDef::MethodDef(d) = fs[n - 1] {
            let e = enter_method(main, v, d.symbol);
            let param = e.methods[d.symbol as int].param;
            lemma_param_fields(e.env(classes), param, param.len());
            lemma_block_fields(e.env(classes), d.body);
        }
        n - 1
    }
}

proof fn lemma_param_fields(env: Env, param: Seq<usize>, n: nat)
    ensures
        forall|j: int|
            0 <= j < param_fields(env, param, n).len() ==> (#[trigger] param_fields(
                env,
                param,
                n,
            )[j]) is Field,
    decreases n,
{
    if 0 < n <= param.len() {
        lemma_param_fields(env, param, (n - 1) as nat);
    }
}

/// A statement adds nothing but fields.
proof fn lemma_stmt_fields(env: Env, s: Stmt)
    ensures
        forall|j: int|
            0 <= j < stmt_fields(env, s).len() ==> (#[trigger] stmt_fields(env, s)[j]) is Field,
    decreases s, 0nat,
{
    match s {
        Stmt::If(i) => {
            lemma_block_fields(env, i.on_true);
            if let Some(b) = i.on_false {
                lemma_block_fields(env, b);
            }
        },
        Stmt::While(w) => {
            lemma_block_fields(env, w.body);
        },
        Stmt::For(f) => {
            lemma_block_fields(env, f.body);
        },
        Stmt::Foreach(f) => {
            assert(stmt_fields(env, s) == env.def_fields(f.def) + block_fields(env, f.body));
            lemma_block_fields(env, f.body);
        },
        Stmt::Guarded(g) => {
            lemma_guards_fields(env, g.guarded@, g.guarded@.len());
        },
        Stmt::Block(b) => {
            lemma_block_fields(env, b);
        },
        _ => {},
    }
}

proof fn lemma_block_fields(env: Env, b: Block)
    ensures
        forall|j: int|
            0 <= j < block_fields(env, b).len() ==> (#[trigger] block_fields(env, b)[j]) is Field,
    decreases b, 0nat,
{
    lemma_stmts_fields(env, b.stmt@, b.stmt@.len());
}

proof fn lemma_stmts_fields(env: Env, ss: Seq<Stmt>, n: nat)
    ensures
        forall|j: int|
            0 <= j < stmts_fields(env, ss, n).len() ==> (#[trigger] stmts_fields(
                env,
                ss,
                n,
            )[j]) is Field,
    decreases ss, n,
{
    if 0 < n <= ss.len() {
        lemma_stmts_fields(env, ss, (n - 1) as nat);
        lemma_stmt_fields(env, ss[n - 1]);
    }
}

proof fn lemma_guards_fields(env: Env, gs: Seq<(Expr, Block)>, n: nat)
    ensures
        forall|j: int|
            0 <= j < guards_fields(env, gs, n).len() ==> (#[trigger] guards_fields(
                env,
                gs,
                n,
            )[j]) is Field,
    decreases gs, n,
{
    if 0 < n <= gs.len() {
        lemma_guards_fields(env, gs, (n - 1) as nat);
        lemma_block_fields(env, gs[n - 1].1);
    }
}

pub proof fn lemma_class_ok(classes: Seq<ClassDef>, main: Option<usize>, n: nat, w: World, i: int)
    requires
        0 <= i < n <= classes.len(),
        classes_ok(classes, main, n, w),
    ensures
        fields_ok(
            classes,
            main,
            classes[i].field@,
            classes[i].field@.len(),
            classes_next(classes, main, i as nat, w),
        ),
    decreases n,
{
    if i < n - 1 {
        lemma_class_ok(classes, main, (n - 1) as nat, w, i);
    }
}

pub proof fn lemma_classes_ok_prefix(
    classes: Seq<ClassDef>,
    main: Option<usize>,
    n: nat,
    w: World,
    i: nat,
)
    requires
        i <= n <= classes.len(),
        classes_ok(classes, main, n, w),
    ensures
        classes_ok(classes, main, i, w),
    decreases n,
{
    if i < n {
        lemma_classes_ok_prefix(classes, main, (n - 1) as nat, w, i);
    }
}

pub proof fn lemma_fields_ok_prefix(
    classes: Seq<ClassDef>,
    main: Option<usize>,
    fs: Seq<FieldDef>,
    n: nat,
    w: World,
    i: nat,
)
    requires
        i <= n <= fs.len(),
        fields_ok(classes, main, fs, n, w),
    ensures
        fields_ok(classes, main, fs, i, w),
    decreases n,
{
    if i < n {
        lemma_fields_ok_prefix(classes, main, fs, (n - 1) as nat, w, i);
    }
}

/// A method of a generated class is the constructor, or it stands for a method of the class, which
/// could be generated when its turn came.
pub proof fn lemma_program_method(p: Program, i: int, j: int) -> (k: int)
    requires
        program_ok(p),
        0 <= i < p.class@.len(),
        0 <= j < program_class(p, i).members.len(),
        program_class(p, i).members[j] is Method,
    ensures
        j == 0 ==> program_class(p, i).members[j] == constructor(parent_name(p.class@[i])),
        j > 0 ==> {
            &&& 0 <= k < p.class@[i].field@.len()
            &&& p.class@[i].field@[k] is MethodDef
            &&& program_class(p, i).members[j] == method_view(
                p.class@,
                p.main,
                p.class@[i].field@[k]->MethodDef_0,
                world_before(p, i, k),
            )
            &&& field_ok(p.class@, p.main, p.class@[i].field@[k], world_before(p, i, k))
        },
{
    let fs = p.class@[i].field@;
    let w = classes_next(p.class@, p.main, i as nat, initial_world(p));
    lemma_class_ok(p.class@, p.main, p.class@.len(), initial_world(p), i);
    if j > 0 {
        lemma_fields_view(p.class@, p.main, fs, fs.len(), w, j - 1)
    } else {
        0
    }
}

/// The member adds exactly one member to the class that is generated.
pub open spec fn plain(classes: Seq<ClassDef>, main: Option<usize>, f: FieldDef, w: World) -> bool {
    match f {
        FieldDef::VarDef(v) => w.env(classes).is_field(v),
        FieldDef::MethodDef(d) => {
            let e = enter_method(main, w, d.symbol);
            let param = e.methods[d.symbol as int].param;
            param_fields(e.env(classes), param, param.len()).len() == 0 && block_fields(
                e.env(classes),
                d.body,
            ).len() == 0
        },
    }
}

proof fn lemma_plain_view(
    classes: Seq<ClassDef>,
    main: Option<usize>,
    fs: Seq<FieldDef>,
    n: nat,
    w: World,
)
    requires
        n <= fs.len(),
        forall|j: int|
            0 <= j < n ==> plain(
                classes,
                main,
                #[trigger] fs[j],
                fields_next(classes, main, fs, j as nat, w),
            ),
    ensures
        fields_view(classes, main, fs, n, w).len() == n,
        forall|j: int|
            0 <= j < n ==> field_view(
                classes,
                main,
                #[trigger] fs[j],
                fields_next(classes, main, fs, j as nat, w),
            ) == seq![fields_view(classes, main, fs, n, w)[j]],
    decreases n,
{
    if n > 0 {
        let m = (n - 1) as nat;
        lemma_plain_view(classes, main, fs, m, w);
        let v = fields_next(classes, main, fs, m, w);
        let last = field_view(classes, main, fs[n - 1], v);
        assert(plain(classes, main, fs[n - 1], v));
        assert(last.len() == 1);
        assert forall|j: int| 0 <= j < n implies field_view(
            classes,
            main,
            #[trigger] fs[j],
            fields_next(classes, main, fs, j as nat, w),
        ) == seq![fields_view(classes, main, fs, n, w)[j]] by {
            if j == n - 1 {
                assert(last =~= seq![fields_view(classes, main, fs, n, w)[j]]);
            }
        }
    }
}

/// A program becomes one class for each of its classes, in order. Each is written to a file with
/// the name of the class, and starts with a constructor without arguments.
pub proof fn law_class_files(p: Program, i: int)
    requires
        program_ok(p),
        0 <= i < p.class@.len(),
    ensures
        program_view(p).len() == p.class@.len(),
        program_view(p)[i].name == p.class@[i].name@,
        program_view(p)[i].file == p.class@[i].name@ + ".class"@,
        program_view(p)[i].parent == parent_name(p.class@[i]),
        program_view(p)[i].access.final_ == p.class@[i].sealed,
        program_view(p)[i].members.len() >= 1,
        program_view(p)[i].members[0] == constructor(parent_name(p.class@[i])),
{
}

/// In a class whose variables are all fields, and whose methods declare none, each member becomes
/// one member, in order, behind the constructor.
pub proof fn law_class_members(p: Program, i: int, j: int)
    requires
        program_ok(p),
        0 <= i < p.class@.len(),
        forall|k: int|
            0 <= k < p.class@[i].field@.len() ==> plain(
                p.class@,
                p.main,
                #[trigger] p.class@[i].field@[k],
                world_before(p, i, k),
            ),
        0 <= j < p.class@[i].field@.len(),
    ensures
        program_class(p, i).members.len() == 1 + p.class@[i].field@.len(),
        field_view(p.class@, p.main, p.class@[i].field@[j], world_before(p, i, j)) == seq![
            program_class(p, i).members[j + 1],
        ],
{
    let fs = p.class@[i].field@;
    let w = classes_next(p.class@, p.main, i as nat, initial_world(p));
    lemma_plain_view(p.class@, p.main, fs, fs.len(), w);
    assert(field_view(p.class@, p.main, fs[j], world_before(p, i, j)) == seq![
        fields_view(p.class@, p.main, fs, fs.len(), w)[j],
    ]);
}

/// The code of a method ends with a way out that fits its result: control never runs off the end.
pub proof fn law_method_returns(env: Env, m: MethodView, body: Block, slots: Seq<u8>)
    ensures
        method_code(env, m, body, slots).len() > 0,
        method_code(env, m, body, slots).last() == if m.ret_t == SemanticType::Basic(
            BasicType::Void,
        ) {
            Instruction::Return
        } else {
            return_insn(m.ret_t)
        },
{
}

/// Nothing leaks from what was generated before into a method: what the method becomes does not
/// depend on the local variables, the labels and the code in hand, and neither does what it leaves
/// in hand, in which there is no code.
pub proof fn law_methods_start_anew(
    classes: Seq<ClassDef>,
    main: Option<usize>,
    d: MethodDef,
    w: World,
    local: nat,
    h1: Hand,
    h2: Hand,
)
    ensures
        ({
            let f = FieldDef::MethodDef(d);
            let v = World { local, ..w };
            &&& field_view(classes, main, f, v) == field_view(classes, main, f, w)
            &&& field_next(classes, main, f, v) == field_next(classes, main, f, w)
            &&& field_hand(classes, main, f, v, h1) == field_hand(classes, main, f, w, h2)
            &&& field_hand(classes, main, f, v, h1).code.len() == 0
            &&& field_next(classes, main, f, w).local as u16 == method_view(
                classes,
                main,
                d,
                w,
            )->max_locals
        }),
{
}

/// A static method without parameters that starts the program gets the one parameter that the
/// machine passes: an array of strings, in the first local variable.
pub proof fn law_main_args(classes: Seq<ClassDef>, main: Option<usize>, d: MethodDef, w: World)
    requires
        d.symbol < w.methods.len(),
        is_main(main, w.methods[d.symbol as int]),
        w.methods[d.symbol as int].static_,
        w.methods[d.symbol as int].param.len() == 0,
        w.vars.len() <= usize::MAX,
        w.slots.len() == w.vars.len(),
    ensures
        method_view(classes, main, d, w)->args == seq![
            JavaType::Array(Box::new(JavaType::Class("java/lang/String"@))),
        ],
        ({
            let e = enter_method(main, w, d.symbol);
            let m = e.methods[d.symbol as int];
            body_start(e.env(classes), m.param, e.slots).slots[m.param[0] as int] == 0
        }),
{
    let e = enter_method(main, w, d.symbol);
    let m = e.methods[d.symbol as int];
    let v = w.vars.len() as usize;
    assert(m.param =~= seq![v]);
    assert(e.vars[v as int] == args_symbol());
    reveal_with_fuel(java_type, 2);
    reveal_with_fuel(params_end, 2);
    assert(method_view(classes, main, d, w)->args =~= seq![
        JavaType::Array(Box::new(JavaType::Class("java/lang/String"@))),
    ]);
}

} // verus!
