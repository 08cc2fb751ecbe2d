//! Code generation for methods, classes and whole programs.

use vstd::prelude::*;

use crate::ast::{
    BasicType, Block, ClassDef, Expr, FieldDef, MethodDef, Program, ScopeKind, SemanticType, Stmt,
    Symbols, VarSymbol,
};
use crate::instr::{
    classes_view, code_view, members_view, types_view, Access, ClassFile, Insn, InsnView,
    Instruction, JClass, JMember, JType, JavaType, Member, MemberView,
};
use crate::jvm_code_gen::JvmCodeGen;
use crate::program::{
    body_ok, body_start, class_view, classes_hand, classes_next, classes_ok, constructor,
    enter_method, field_hand, field_next, field_ok, field_view, fields_hand, fields_next, fields_ok,
    fields_view, lemma_classes_ok_prefix, lemma_fields_ok_prefix, lemma_param_locals_grow,
    lemma_params_end, method_code, method_hand, method_locals, method_member, method_members,
    method_next, param_fields, param_locals, params_end, parent_name, program_ok, program_view,
    tail_code, Hand, World,
};
use crate::scheme::{
    block_code, block_end, block_fields, guards_code, guards_end, stmt_code, stmts_code, stmts_end,
    Env, Pos,
};
use crate::valid::{block_ok, guards_ok, stmt_ok, stmts_ok};
use vstd::string::StringExecFns;

verus! {

/// Outside a loop the code of a block does not depend on where a `break` would jump to.
pub proof fn lemma_block_outside_loops(env: Env, b: Block, b1: u16, b2: u16, p: Pos)
    requires
        block_ok(env, b, false),
    ensures
        block_code(env, b, b1, p) == block_code(env, b, b2, p),
    decreases b, 0nat,
{
    lemma_stmts_outside_loops(env, b.stmt@, b.stmt@.len(), b1, b2, p);
}

proof fn lemma_stmts_outside_loops(env: Env, ss: Seq<Stmt>, n: nat, b1: u16, b2: u16, p: Pos)
    requires
        n <= ss.len(),
        stmts_ok(env, ss, n, false),
    ensures
        stmts_code(env, ss, n, b1, p) == stmts_code(env, ss, n, b2, p),
    decreases ss, n,
{
    if n > 0 {
        let m = (n - 1) as nat;
        lemma_stmts_outside_loops(env, ss, m, b1, b2, p);
        lemma_stmt_outside_loops(
            env,
            ss[n - 1],
            b1,
            b2,
            stmts_end(env, ss, m, p),
        );
    }
}

proof fn lemma_stmt_outside_loops(env: Env, s: Stmt, b1: u16, b2: u16, p: Pos)
    requires
        stmt_ok(env, s, false),
    ensures
        stmt_code(env, s, b1, p) == stmt_code(env, s, b2, p),
    decreases s, 0nat,
{
    match s {
        Stmt::If(i) => {
            let r = p.step(2, 0).past(env, i.cond);
            lemma_block_outside_loops(env, i.on_true, b1, b2, r);
            if let Some(b) = i.on_false {
                lemma_block_outside_loops(env, b, b1, b2, block_end(env, i.on_true, r));
            }
        },
        Stmt::Guarded(g) => {
            lemma_guards_outside_loops(env, g.guarded@, g.guarded@.len(), b1, b2, p);
        },
        Stmt::Block(b) => {
            lemma_block_outside_loops(env, b, b1, b2, p);
        },
        _ => {},
    }
}

proof fn lemma_guards_outside_loops(
    env: Env,
    gs: Seq<(Expr, Block)>,
    n: nat,
    b1: u16,
    b2: u16,
    p: Pos,
)
    requires
        n <= gs.len(),
        guards_ok(env, gs, n, false),
    ensures
        guards_code(env, gs, n, b1, p) == guards_code(env, gs, n, b2, p),
    decreases gs, n,
{
    if n > 0 {
        let m = (n - 1) as nat;
        lemma_guards_outside_loops(env, gs, m, b1, b2, p);
        let q = guards_end(env, gs, m, p);
        lemma_block_outside_loops(
            env,
            gs[n - 1].1,
            b1,
            b2,
            q.step(1, 0).past(env, gs[n - 1].0),
        );
    }
}

impl JvmCodeGen {
    pub open spec fn world(self) -> World {
        World {
            vars: self.symbols.vars(),
            methods: self.symbols.methods(),
            slots: self.slot@,
            local: self.stack_index as nat,
        }
    }

    /// No method is in hand: no loop is open.
    pub open spec fn idle(self) -> bool {
        self.wf() && self.break_stack@.len() == 0
    }

    /// What belongs to the method in hand alone.
    pub open spec fn hand(self) -> Hand {
        Hand { label: self.label as nat, code: self.insns() }
    }

    /// From here to `next`, exactly these members were added to the class in hand, this is known
    /// now, and this is left of the last method. Nothing else changed.
    pub open spec fn adds(
        self,
        next: JvmCodeGen,
        members: Seq<MemberView>,
        world: World,
        hand: Hand,
    ) -> bool {
        &&& next.idle()
        &&& next.main == self.main
        &&& members_view(next.members@) == members_view(self.members@) + members
        &&& next.world() == world
        &&& next.hand() == hand
    }

    /// Gives the method that starts the program the parameter that the machine passes.
    pub fn add_args(&mut self, k: usize)
        requires
            old(self).wf(),
            k < old(self).symbols.method@.len(),
        ensures
            final(self).wf(),
            final(self).world() == enter_method(old(self).main, old(self).world(), k),
            final(self).main == old(self).main,
            final(self).members == old(self).members,
            final(self).code == old(self).code,
            final(self).break_stack == old(self).break_stack,
            final(self).label == old(self).label,
            final(self).stack_index == old(self).stack_index,
    {
        let in_main: bool = match self.main {
            Some(class) => self.symbols.method[k].class == class,
            None => false,
        };
        if in_main && self.symbols.method[k].name == "main".to_owned() {
            let args: usize = self.symbols.var.len();
            self.symbols.var.push(
                VarSymbol {
                    name: "args".to_owned(),
                    type_: SemanticType::Array(Box::new(SemanticType::Basic(BasicType::Text))),
                    scope: ScopeKind::Parameter,
                },
            );
            self.slot.push(0);
            self.symbols.method[k].param.insert(0, args);
            let ghost w = enter_method(old(self).main, old(self).world(), k);
            assert(self.symbols.vars() =~= w.vars);
            assert(self.symbols.methods() =~= w.methods);
        }
    }

    /// Declares the parameters of a method.
    pub fn params(&mut self, classes: &Vec<ClassDef>, k: usize)
        requires
            old(self).wf(),
            k < old(self).symbols.method@.len(),
            old(self).room(
                0,
                param_locals(
                    old(self).env(classes@),
                    old(self).symbols.method@[k as int].param@,
                    old(self).symbols.method@[k as int].param@.len(),
                ),
            ),
            forall|i: int|
                0 <= i < old(self).symbols.method@[k as int].param@.len() ==> old(self).env(
                    classes@,
                ).can_declare(#[trigger] old(self).symbols.method@[k as int].param@[i]),
        ensures
            old(self).grows(
                *final(self),
                Seq::empty(),
                params_end(
                    old(self).env(classes@),
                    old(self).symbols.method@[k as int].param@,
                    old(self).symbols.method@[k as int].param@.len(),
                    old(self).pos(),
                ),
                param_fields(
                    old(self).env(classes@),
                    old(self).symbols.method@[k as int].param@,
                    old(self).symbols.method@[k as int].param@.len(),
                ),
            ),
    {
        let ghost start = *self;
        let ghost env = self.env(classes@);
        let ghost param = self.symbols.method@[k as int].param@;
        let mut i: usize = 0;
        assert(self.insns() =~= start.insns() + Seq::empty());
        assert(members_view(self.members@) =~= members_view(start.members@) + Seq::empty());
        while i < self.symbols.method[k].param.len()
            invariant
                i <= param.len(),
                start == *old(self),
                start.wf(),
                k < start.symbols.method@.len(),
                param == start.symbols.method@[k as int].param@,
                env == start.env(classes@),
                start.room(0, param_locals(env, param, param.len())),
                forall|j: int| 0 <= j < param.len() ==> env.can_declare(#[trigger] param[j]),
                start.grows(
                    *self,
                    Seq::empty(),
                    params_end(env, param, i as nat, start.pos()),
                    param_fields(env, param, i as nat),
                ),
            decreases param.len() - i,
        {
            let v: usize = self.symbols.method[k].param[i];
            assert(env.can_declare(param[i as int]));
            proof {
                lemma_params_end(env, param, i as nat, start.pos());
                lemma_param_locals_grow(env, param, (i + 1) as nat, param.len());
            }
            self.var_def(classes, v);
            i += 1;
            assert(self.insns() =~= start.insns() + Seq::empty());
            assert(members_view(self.members@) =~= members_view(start.members@) + param_fields(
                env,
                param,
                i as nat,
            ));
        }
    }

    /// Generates the way out behind the body of a method.
    pub fn tail(&mut self, k: usize)
        requires
            k < old(self).symbols.method@.len(),
        ensures
            old(self).reaches(
                *final(self),
                tail_code(old(self).symbols.method@[k as int].ret_t),
                old(self).pos(),
            ),
    {
        let ghost ret_t = self.symbols.method@[k as int].ret_t;
        let insns: Vec<Insn> = match &self.symbols.method[k].ret_t {
            SemanticType::Basic(BasicType::Int) | SemanticType::Basic(BasicType::Bool) => vec![
                Instruction::IntConst(0),
                Instruction::IReturn,
            ],
            SemanticType::Basic(BasicType::Void) => vec![Instruction::Return],
            _ => vec![Instruction::AConstNull, Instruction::AReturn],
        };
        assert(code_view(insns@) =~= tail_code(ret_t));
        self.emit_all(insns);
    }

    /// Generates a method of the class in hand.
    pub fn method_def(&mut self, classes: &Vec<ClassDef>, d: &MethodDef)
        requires
            old(self).idle(),
            field_ok(
                classes@,
                old(self).main,
                FieldDef::MethodDef(*d),
                old(self).world(),
            ),
        ensures
            old(self).adds(
                *final(self),
                field_view(
                    classes@,
                    old(self).main,
                    FieldDef::MethodDef(*d),
                    old(self).world(),
                ),
                field_next(classes@, old(self).main, FieldDef::MethodDef(*d), old(self).world()),
                field_hand(
                    classes@,
                    old(self).main,
                    FieldDef::MethodDef(*d),
                    old(self).world(),
                    old(self).hand(),
                ),
            ),
    {
        self.add_args(d.symbol);
        assert(self.symbols.method@.len() == self.world().methods.len());
        self.method_body(classes, d);
    }

    /// Generates a method that has all its parameters.
    pub fn method_body(&mut self, classes: &Vec<ClassDef>, d: &MethodDef)
        requires
            old(self).idle(),
            d.symbol < old(self).symbols.method@.len(),
            body_ok(
                old(self).env(classes@),
                old(self).env(classes@).methods[d.symbol as int],
                d.body,
            ),
        ensures
            old(self).adds(
                *final(self),
                method_members(
                    old(self).env(classes@),
                    old(self).env(classes@).methods[d.symbol as int],
                    d.body,
                    old(self).slot@,
                ),
                method_next(
                    old(self).env(classes@),
                    old(self).env(classes@).methods[d.symbol as int],
                    d.body,
                    old(self).world(),
                ),
                method_hand(old(self).env(classes@), d.body),
            ),
    {
        let k: usize = d.symbol;
        let ghost w = self.world();
        let ghost env = self.env(classes@);
        let ghost m = env.methods[k as int];
        let static_: bool = self.symbols.method[k].static_;
        let name: String = self.symbols.method[k].name.clone();
        let args = self.param_types(
            classes,
            k,
            if static_ {
                0
            } else {
                1
            },
        );
        let ret = self.symbols.method[k].ret_t.to_java(classes);
        self.code = Vec::new();
        self.label = 0;
        self.stack_index = 0;
        let ghost start = *self;
        proof {
            lemma_params_end(env, m.param, m.param.len(), start.pos());
        }
        self.params(classes, k);
        assert(self.pos() == body_start(env, m.param, w.slots));
        proof {
            lemma_block_outside_loops(env, d.body, self.brk(), 0, self.pos());
        }
        self.block(classes, &d.body);
        self.tail(k);
        assert(self.insns() =~= method_code(env, m, d.body, w.slots)) by {
            assert(start.insns() =~= Seq::empty());
        }
        assert(self.stack_index == method_locals(env, m, d.body));
        let ghost fields = param_fields(env, m.param, m.param.len()) + block_fields(env, d.body);
        let ghost before = members_view(self.members@);
        assert(before =~= members_view(old(self).members@) + fields);
        let mut code: Vec<Insn> = Vec::new();
        core::mem::swap(&mut code, &mut self.code);
        let max_locals: u16 = self.stack_index as u16;
        self.members.push(
            Member::Method {
                access: Access { public: true, static_, final_: false },
                name,
                args,
                ret,
                code,
                max_locals,
            },
        );
        assert(self.members@.last()@ == method_member(env, m, d.body, w.slots));
        assert(members_view(self.members@) =~= before.push(
            method_member(env, m, d.body, w.slots),
        ));
        assert(before.push(method_member(env, m, d.body, w.slots)) =~= members_view(
            old(self).members@,
        ) + fields.push(method_member(env, m, d.body, w.slots)));
        assert(self.insns() =~= Seq::<InsnView>::empty());
    }

    /// Generates a member of the class in hand.
    pub fn field_def(&mut self, classes: &Vec<ClassDef>, f: &FieldDef)
        requires
            old(self).idle(),
            field_ok(classes@, old(self).main, *f, old(self).world()),
        ensures
            old(self).adds(
                *final(self),
                field_view(classes@, old(self).main, *f, old(self).world()),
                field_next(classes@, old(self).main, *f, old(self).world()),
                field_hand(classes@, old(self).main, *f, old(self).world(), old(self).hand()),
            ),
    {
        match f {
            FieldDef::MethodDef(d) => self.method_def(classes, d),
            FieldDef::VarDef(v) => {
                self.var_def(classes, *v);
                assert(self.insns() =~= old(self).insns());
            },
        }
    }

    /// Generates a class.
    pub fn class_def(&mut self, classes: &Vec<ClassDef>, c: &ClassDef) -> (class: JClass)
        requires
            old(self).idle(),
            fields_ok(classes@, old(self).main, c.field@, c.field@.len(), old(self).world()),
        ensures
            class@ == class_view(classes@, old(self).main, *c, old(self).world()),
            old(self).main == final(self).main,
            final(self).idle(),
            final(self).world() == fields_next(
                classes@,
                old(self).main,
                c.field@,
                c.field@.len(),
                old(self).world(),
            ),
            final(self).hand() == fields_hand(
                classes@,
                old(self).main,
                c.field@,
                c.field@.len(),
                old(self).world(),
                old(self).hand(),
            ),
            final(self).members@.len() == 0,
    {
        self.open_class(c);
        let ghost start = *self;
        let ghost main = self.main;
        let ghost w = self.world();
        let ghost h = self.hand();
        let mut i: usize = 0;
        while i < c.field.len()
            invariant
                i <= c.field@.len(),
                start.main == main,
                start.world() == w,
                start.hand() == h,
                members_view(start.members@) == seq![constructor(parent_name(*c))],
                fields_ok(classes@, main, c.field@, c.field@.len(), w),
                start.adds(
                    *self,
                    fields_view(classes@, main, c.field@, i as nat, w),
                    fields_next(classes@, main, c.field@, i as nat, w),
                    fields_hand(classes@, main, c.field@, i as nat, w, h),
                ),
            decreases c.field@.len() - i,
        {
            proof {
                lemma_fields_ok_prefix(
                    classes@,
                    main,
                    c.field@,
                    c.field@.len(),
                    w,
                    (i + 1) as nat,
                );
            }
            self.field_def(classes, &c.field[i]);
            i += 1;
            assert(members_view(self.members@) =~= members_view(start.members@) + fields_view(
                classes@,
                main,
                c.field@,
                i as nat,
                w,
            ));
        }
        self.close_class(c)
    }

    /// Starts a class with its constructor.
    pub fn open_class(&mut self, c: &ClassDef)
        requires
            old(self).idle(),
        ensures
            final(self).idle(),
            final(self).main == old(self).main,
            final(self).world() == old(self).world(),
            final(self).hand() == old(self).hand(),
            members_view(final(self).members@) == seq![constructor(parent_name(*c))],
    {
        let first: JMember = Self::constructor(&Self::parent(c));
        self.members = vec![first];
        assert(members_view(self.members@) =~= seq![constructor(parent_name(*c))]);
    }

    /// Ends a class: its file holds the members that were generated.
    pub fn close_class(&mut self, c: &ClassDef) -> (class: JClass)
        requires
            old(self).idle(),
        ensures
            class@ == (ClassFile {
                file: c.name@ + ".class"@,
                access: Access { public: true, static_: false, final_: c.sealed },
                name: c.name@,
                parent: parent_name(*c),
                members: members_view(old(self).members@),
            }),
            final(self).idle(),
            final(self).main == old(self).main,
            final(self).world() == old(self).world(),
            final(self).hand() == old(self).hand(),
            final(self).members@.len() == 0,
    {
        let mut members: Vec<JMember> = Vec::new();
        core::mem::swap(&mut members, &mut self.members);
        let file: String = c.name.clone().concat(".class");
        ClassFile {
            file,
            access: Access { public: true, static_: false, final_: c.sealed },
            name: c.name.clone(),
            parent: Self::parent(c),
            members,
        }
    }

    /// The name of the parent of a class.
    pub fn parent(c: &ClassDef) -> (parent: String)
        ensures
            parent@ == parent_name(*c),
    {
        match &c.parent {
            Some(parent) => parent.clone(),
            None => "java/lang/Object".to_owned(),
        }
    }

    /// The constructor without arguments, which calls that of the parent.
    pub fn constructor(parent: &String) -> (m: JMember)
        ensures
            m@ == constructor(parent@),
    {
        let none: Vec<JavaType<String>> = Vec::new();
        let args: Vec<JavaType<String>> = Vec::new();
        assert(types_view(none@) =~= Seq::<JType>::empty());
        assert(types_view(args@) =~= Seq::<JType>::empty());
        let code: Vec<Insn> = vec![
            Instruction::ALoad(0),
            Instruction::InvokeSpecial {
                class: parent.clone(),
                name: "<init>".to_owned(),
                args: none,
                ret: JavaType::Void,
            },
            Instruction::Return,
        ];
        assert(code_view(code@) =~= seq![
            Instruction::ALoad(0),
            Instruction::InvokeSpecial {
                class: parent@,
                name: "<init>"@,
                args: Seq::<JType>::empty(),
                ret: JavaType::Void,
            },
            Instruction::Return,
        ]);
        Member::Method {
            access: Access { public: true, static_: false, final_: false },
            name: "<init>".to_owned(),
            args,
            ret: JavaType::Void,
            code,
            max_locals: 1,
        }
    }

    /// Generates the classes of a program one after another.
    pub fn program(&mut self, classes: &Vec<ClassDef>) -> (files: Vec<JClass>)
        requires
            old(self).idle(),
            classes_ok(classes@, old(self).main, classes@.len(), old(self).world()),
        ensures
            files@.len() == classes@.len(),
            forall|i: int|
                0 <= i < files@.len() ==> (#[trigger] files@[i])@ == class_view(
                    classes@,
                    old(self).main,
                    classes@[i],
                    classes_next(classes@, old(self).main, i as nat, old(self).world()),
                ),
            final(self).idle(),
            final(self).main == old(self).main,
            final(self).world() == classes_next(
                classes@,
                old(self).main,
                classes@.len(),
                old(self).world(),
            ),
            final(self).hand() == classes_hand(
                classes@,
                old(self).main,
                classes@.len(),
                old(self).world(),
                old(self).hand(),
            ),
            classes@.len() == 0 ==> final(self).members == old(self).members,
            classes@.len() > 0 ==> final(self).members@.len() == 0,
    {
        let ghost main = self.main;
        let ghost w = self.world();
        let ghost h = self.hand();
        let mut files: Vec<JClass> = Vec::new();
        let mut i: usize = 0;
        while i < classes.len()
            invariant
                i <= classes@.len(),
                files@.len() == i,
                self.idle(),
                self.main == main,
                self.world() == classes_next(classes@, main, i as nat, w),
                self.hand() == classes_hand(classes@, main, i as nat, w, h),
                i == 0 ==> self.members == old(self).members,
                i > 0 ==> self.members@.len() == 0,
                classes_ok(classes@, main, classes@.len(), w),
                forall|j: int|
                    0 <= j < i ==> (#[trigger] files@[j])@ == class_view(
                        classes@,
                        main,
                        classes@[j],
                        classes_next(classes@, main, j as nat, w),
                    ),
            decreases classes@.len() - i,
        {
            proof {
                lemma_classes_ok_prefix(classes@, main, classes@.len(), w, (i + 1) as nat);
            }
            let class: JClass = self.class_def(classes, &classes[i]);
            files.push(class);
            i += 1;
        }
        files
    }

    /// Generates the classes of a program.
    pub fn gen(self, program: Program) -> (files: Vec<JClass>)
        requires
            self.break_stack@.len() == 0,
            program_ok(program),
        ensures
            classes_view(files@) == program_view(program),
    {
        let ghost p = program;
        let mut gen = self;
        gen.stack_index = 0;
        gen.enter(program.symbols, program.main);
        let files = gen.program(&program.class);
        assert(classes_view(files@) =~= program_view(p));
        files
    }

    /// Takes in what the names of a program stand for.
    pub fn enter(&mut self, symbols: Symbols, main: Option<usize>)
        requires
            old(self).break_stack@.len() == 0,
        ensures
            final(self).idle(),
            final(self).main == main,
            final(self).world() == (World {
                vars: symbols.vars(),
                methods: symbols.methods(),
                slots: Seq::new(symbols.var@.len(), |i: int| 0u8),
                local: old(self).stack_index as nat,
            }),
            final(self).hand() == old(self).hand(),
            final(self).members == old(self).members,
    {
        let mut slot: Vec<u8> = Vec::new();
        while slot.len() < symbols.var.len()
            invariant
                slot@.len() <= symbols.var@.len(),
                forall|i: int| 0 <= i < slot@.len() ==> slot@[i] == 0,
            decreases symbols.var@.len() - slot@.len(),
        {
            slot.push(0);
        }
        assert(slot@ =~= Seq::new(symbols.var@.len(), |i: int| 0u8));
        self.symbols = symbols;
        self.slot = slot;
        self.main = main;
    }
}

} // verus!
