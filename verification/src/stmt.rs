//! Code generation for statements.

use vstd::prelude::*;

use crate::ast::{
    Assign, BasicType, Block, ClassDef, Expr, ExprKind, FieldDef, For, Foreach, Guarded, If, Print,
    Return, SCopy, ScopeKind, SemanticType, Simple, Stmt, Var, VarAssign, While,
};
use crate::expr::lemma_exprs_grow;
use crate::instr::{
    members_view, types_view, Access, Insn, Instruction, JMember, JavaType, Member, MemberView,
};
use crate::jvm_code_gen::JvmCodeGen;
use crate::scheme::{
    assign_code, block_code, block_end, block_fields, block_labels, block_locals, copy_code,
    expr_code, exprs_end, exprs_labels, exprs_locals, for_code, guards_code, guards_end,
    guards_fields, guards_labels, guards_locals, new_object_code, place_code, place_labels,
    place_locals, print_code, return_code, s_copy_code, simple_code, simple_end, simple_labels,
    simple_locals, stmt_code, stmt_end, stmt_fields, stmt_labels, stmt_locals, stmts_code,
    stmts_end, stmts_fields, stmts_labels, stmts_locals, var_assign_code, while_code, Env,
};
use crate::types::java_type;
use crate::valid::{
    block_ok, exprs_ok, fields_exist, guards_ok, identifier_ok, indexed_ok, printable, simple_ok,
    stmt_ok, stmts_ok,
};
use vstd::pervasive::unreached;

verus! {

/// The labels and local variables of a list grow with every statement in it.
pub proof fn lemma_stmts_grow(env: Env, ss: Seq<Stmt>, i: nat, n: nat, in_loop: bool)
    requires
        i <= n <= ss.len(),
    ensures
        stmts_labels(env, ss, i) <= stmts_labels(env, ss, n),
        stmts_locals(env, ss, i) <= stmts_locals(env, ss, n),
        stmts_ok(env, ss, n, in_loop) ==> stmts_ok(env, ss, i, in_loop),
    decreases n,
{
    if i < n {
        lemma_stmts_grow(env, ss, i, (n - 1) as nat, in_loop);
    }
}

/// The labels and local variables of a list grow with every guarded block in it.
pub proof fn lemma_guards_grow(env: Env, gs: Seq<(Expr, Block)>, i: nat, n: nat, in_loop: bool)
    requires
        i <= n <= gs.len(),
    ensures
        guards_labels(env, gs, i) <= guards_labels(env, gs, n),
        guards_locals(env, gs, i) <= guards_locals(env, gs, n),
        guards_ok(env, gs, n, in_loop) ==> guards_ok(env, gs, i, in_loop),
    decreases n,
{
    if i < n {
        lemma_guards_grow(env, gs, i, (n - 1) as nat, in_loop);
    }
}

/// Where nothing is added, the members are as they were.
proof fn lemma_no_fields(members: Seq<JMember>)
    ensures
        members_view(members) == members_view(members) + Seq::<MemberView>::empty(),
{
    assert(members_view(members) =~= members_view(members) + Seq::<MemberView>::empty());
}

impl JvmCodeGen {
    /// A loop is open.
    pub open spec fn in_loop(self) -> bool {
        self.break_stack@.len() > 0
    }

    /// The statement can be generated here.
    pub open spec fn accepts(self, classes: Seq<ClassDef>, s: Stmt) -> bool {
        &&& self.wf()
        &&& stmt_ok(self.env(classes), s, self.in_loop())
        &&& self.room(stmt_labels(self.env(classes), s), stmt_locals(self.env(classes), s))
    }

    /// The code of the statement was added, and the fields that it declares.
    pub open spec fn generates(self, classes: Seq<ClassDef>, s: Stmt, next: JvmCodeGen) -> bool {
        self.grows(
            next,
            stmt_code(self.env(classes), s, self.brk(), self.pos()),
            stmt_end(self.env(classes), s, self.pos()),
            stmt_fields(self.env(classes), s),
        )
    }

    pub open spec fn accepts_block(self, classes: Seq<ClassDef>, b: Block) -> bool {
        &&& self.wf()
        &&& block_ok(self.env(classes), b, self.in_loop())
        &&& self.room(block_labels(self.env(classes), b), block_locals(self.env(classes), b))
    }

    pub open spec fn generates_block(
        self,
        classes: Seq<ClassDef>,
        b: Block,
        next: JvmCodeGen,
    ) -> bool {
        self.grows(
            next,
            block_code(self.env(classes), b, self.brk(), self.pos()),
            block_end(self.env(classes), b, self.pos()),
            block_fields(self.env(classes), b),
        )
    }

    pub open spec fn accepts_simple(self, classes: Seq<ClassDef>, s: Simple) -> bool {
        &&& self.wf()
        &&& simple_ok(self.env(classes), s)
        &&& self.room(simple_labels(self.env(classes), s), simple_locals(self.env(classes), s))
    }

    pub open spec fn generates_simple(
        self,
        classes: Seq<ClassDef>,
        s: Simple,
        next: JvmCodeGen,
    ) -> bool {
        self.reaches(
            next,
            simple_code(self.env(classes), s, self.pos()),
            simple_end(self.env(classes), s, self.pos()),
        )
    }

    /// Generates a statement.
    pub fn stmt(&mut self, classes: &Vec<ClassDef>, s: &Stmt)
        requires
            old(self).accepts(classes@, *s),
        ensures
            old(self).generates(classes@, *s, *final(self)),
        decreases s, 0nat,
    {
        match s {
            Stmt::Simple(s) => {
                self.simple(classes, s);
                assert(self.insns() == old(self).insns() + stmt_code(
                    old(self).env(classes@),
                    Stmt::Simple(*s),
                    old(self).brk(),
                    old(self).pos(),
                ));
                proof {
                    lemma_no_fields(self.members@);
                }
            },
            Stmt::If(i) => self.if_(classes, i),
            Stmt::While(w) => self.while_(classes, w),
            Stmt::For(f) => self.for_(classes, f),
            Stmt::Return(r) => self.return_(classes, r),
            Stmt::Print(p) => self.print(classes, p),
            Stmt::Break => self.break_(classes),
            Stmt::SCopy(c) => self.s_copy(classes, c),
            Stmt::Foreach(f) => self.foreach(classes, f),
            Stmt::Guarded(g) => self.guarded(classes, g),
            Stmt::Block(b) => self.block(classes, b),
        }
    }

    /// Generates the statements of a block.
    pub fn block(&mut self, classes: &Vec<ClassDef>, b: &Block)
        requires
            old(self).accepts_block(classes@, *b),
        ensures
            old(self).generates_block(classes@, *b, *final(self)),
        decreases b, 0nat,
    {
        let ghost start = *self;
        let ghost env = self.env(classes@);
        let ghost ss = b.stmt@;
        let mut i: usize = 0;
        assert(self.insns() =~= start.insns() + stmts_code(env, ss, 0, start.brk(), start.pos()));
        proof {
            lemma_no_fields(self.members@);
        }
        while i < b.stmt.len()
            invariant
                i <= ss.len(),
                ss == b.stmt@,
                start == *old(self),
                start.wf(),
                env == start.env(classes@),
                stmts_ok(env, ss, ss.len(), start.in_loop()),
                start.room(stmts_labels(env, ss, ss.len()), stmts_locals(env, ss, ss.len())),
                start.grows(
                    *self,
                    stmts_code(env, ss, i as nat, start.brk(), start.pos()),
                    stmts_end(env, ss, i as nat, start.pos()),
                    stmts_fields(env, ss, i as nat),
                ),
            decreases ss.len() - i,
        {
            proof {
                lemma_stmts_grow(env, ss, (i + 1) as nat, ss.len(), start.in_loop());
                assert(decreases_to!(b => b.stmt@));
                assert(decreases_to!(b.stmt@ => b.stmt@[i as int]));
            }
            self.stmt(classes, &b.stmt[i]);
            i += 1;
            assert(self.insns() =~= start.insns() + stmts_code(
                env,
                ss,
                i as nat,
                start.brk(),
                start.pos(),
            ));
            assert(members_view(self.members@) =~= members_view(start.members@) + stmts_fields(
                env,
                ss,
                i as nat,
            ));
        }
    }

    /// Generates a simple statement. Only the value of an expression is dropped.
    pub fn simple(&mut self, classes: &Vec<ClassDef>, s: &Simple)
        requires
            old(self).accepts_simple(classes@, *s),
        ensures
            old(self).generates_simple(classes@, *s, *final(self)),
    {
        let ghost env = self.env(classes@);
        match s {
            Simple::Assign(a) => self.assign(classes, a),
            Simple::VarAssign(v) => self.var_assign(classes, v),
            Simple::Expr(e) => {
                self.expr(classes, e);
                let void: bool = match &e.kind {
                    ExprKind::Call(c) => {
                        let m: usize = match c.method {
                            Some(m) => m,
                            None => unreached(),
                        };
                        matches!(self.symbols.method[m].ret_t, SemanticType::Basic(BasicType::Void))
                    },
                    _ => false,
                };
                if !void {
                    self.emit(Instruction::Pop);
                }
            },
            Simple::Skip => {},
        }
        assert(self.insns() =~= old(self).insns() + simple_code(env, *s, old(self).pos()));
    }

    /// Generates an assignment.
    pub fn assign(&mut self, classes: &Vec<ClassDef>, a: &Assign)
        requires
            old(self).accepts_simple(classes@, Simple::Assign(*a)),
        ensures
            old(self).generates_simple(classes@, Simple::Assign(*a), *final(self)),
    {
        let ghost env = self.env(classes@);
        self.place(classes, &a.dst);
        self.expr(classes, &a.src);
        let store: Insn = match &a.dst.kind {
            ExprKind::Identifier(i) => match self.field_of(i.symbol) {
                Some(class) => self.put_field(classes, class, i.symbol),
                None => {
                    let v: usize = i.symbol.position();
                    self.symbols.var[v].type_.store(self.slot[v])
                },
            },
            _ => a.dst.type_.array_store(),
        };
        self.emit(store);
        assert(self.insns() =~= old(self).insns() + assign_code(env, *a, old(self).pos()));
    }

    /// Generates the place that an assignment stores into.
    pub fn place(&mut self, classes: &Vec<ClassDef>, e: &Expr)
        requires
            old(self).wf(),
            match e.kind {
                ExprKind::Identifier(i) => identifier_ok(
                    old(self).env(classes@),
                    i,
                    true,
                ),
                ExprKind::Indexed(i) => indexed_ok(old(self).env(classes@), i),
                _ => false,
            },
            old(self).room(
                place_labels(old(self).env(classes@), *e),
                place_locals(old(self).env(classes@), *e),
            ),
        ensures
            old(self).reaches(
                *final(self),
                place_code(old(self).env(classes@), *e, old(self).pos()),
                old(self).pos().step(
                    place_labels(old(self).env(classes@), *e),
                    place_locals(old(self).env(classes@), *e),
                ),
            ),
    {
        match &e.kind {
            ExprKind::Identifier(i) => self.identifier(classes, i, true),
            ExprKind::Indexed(i) => self.indexed(classes, i, &e.type_, true),
            _ => unreached(),
        }
    }

    /// Generates the declaration of a variable, with its value or the initial value of its type.
    pub fn var_assign(&mut self, classes: &Vec<ClassDef>, v: &VarAssign)
        requires
            old(self).accepts_simple(classes@, Simple::VarAssign(*v)),
        ensures
            old(self).generates_simple(classes@, Simple::VarAssign(*v), *final(self)),
    {
        let ghost env = self.env(classes@);
        let index: u8 = self.new_local();
        self.slot.set(v.var, index);
        match &v.src {
            Some(src) => {
                self.expr(classes, src);
            },
            None => {
                let zero: Insn = self.symbols.var[v.var].type_.zero();
                self.emit(zero);
            },
        }
        let store: Insn = self.symbols.var[v.var].type_.store(index);
        self.emit(store);
        assert(self.insns() =~= old(self).insns() + var_assign_code(env, *v, old(self).pos()));
    }

    /// Generates a conditional.
    #[verifier::rlimit(30)]
    pub fn if_(&mut self, classes: &Vec<ClassDef>, i: &If)
        requires
            old(self).accepts(classes@, Stmt::If(*i)),
        ensures
            old(self).generates(classes@, Stmt::If(*i), *final(self)),
        decreases i, 0nat,
    {
        let ghost env = self.env(classes@);
        let before_else: u16 = self.new_label();
        let after_else: u16 = self.new_label();
        let ghost cond = expr_code(env, i.cond, self.pos());
        self.expr(classes, &i.cond);
        self.emit(Instruction::IfEq(before_else));  // jumps where the condition is 0
        let ghost on_true = block_code(env, i.on_true, self.brk(), self.pos());
        self.block(classes, &i.on_true);
        self.emit(Instruction::Goto(after_else));
        self.emit(Instruction::Label(before_else));
        let ghost half = cond.push(Instruction::IfEq(before_else)) + on_true + seq![
            Instruction::Goto(after_else),
            Instruction::Label(before_else),
        ];
        assert(self.insns() =~= old(self).insns() + half);
        let ghost on_false = match &i.on_false {
            Some(b) => block_code(env, *b, self.brk(), self.pos()),
            None => Seq::empty(),
        };
        if let Some(b) = &i.on_false {
            self.block(classes, b);
        }
        assert(self.insns() =~= old(self).insns() + half + on_false);
        self.emit(Instruction::Label(after_else));
        assert(self.insns() =~= old(self).insns() + (half + on_false.push(
            Instruction::Label(after_else),
        )));
        assert(members_view(self.members@) =~= members_view(old(self).members@) + stmt_fields(
            env,
            Stmt::If(*i),
        ));
    }

    /// Generates a loop.
    #[verifier::rlimit(30)]
    pub fn while_(&mut self, classes: &Vec<ClassDef>, w: &While)
        requires
            old(self).accepts(classes@, Stmt::While(*w)),
        ensures
            old(self).generates(classes@, Stmt::While(*w), *final(self)),
        decreases w, 0nat,
    {
        let ghost env = self.env(classes@);
        let before_cond: u16 = self.new_label();
        let after_body: u16 = self.new_label();
        self.break_stack.push(after_body);
        self.emit(Instruction::Label(before_cond));
        self.expr(classes, &w.cond);
        self.emit(Instruction::IfEq(after_body));
        self.block(classes, &w.body);
        self.emit(Instruction::Goto(before_cond));
        self.emit(Instruction::Label(after_body));
        self.break_stack.pop();
        assert(self.break_stack@ =~= old(self).break_stack@);
        assert(self.insns() =~= old(self).insns() + while_code(
            env,
            *w,
            old(self).pos(),
        ));
    }

    /// Generates a loop with a counter.
    #[verifier::rlimit(30)]
    pub fn for_(&mut self, classes: &Vec<ClassDef>, f: &For)
        requires
            old(self).accepts(classes@, Stmt::For(*f)),
        ensures
            old(self).generates(classes@, Stmt::For(*f), *final(self)),
        decreases f, 0nat,
    {
        let ghost env = self.env(classes@);
        let before_cond: u16 = self.new_label();
        let after_body: u16 = self.new_label();
        self.break_stack.push(after_body);
        self.simple(classes, &f.init);
        self.emit(Instruction::Label(before_cond));
        self.expr(classes, &f.cond);
        self.emit(Instruction::IfEq(after_body));
        self.block(classes, &f.body);
        self.simple(classes, &f.update);
        self.emit(Instruction::Goto(before_cond));
        self.emit(Instruction::Label(after_body));
        self.break_stack.pop();
        assert(self.break_stack@ =~= old(self).break_stack@);
        assert(self.insns() =~= old(self).insns() + for_code(
            env,
            *f,
            old(self).pos(),
        ));
    }

    /// Generates a jump behind the innermost loop.
    pub fn break_(&mut self, classes: &Vec<ClassDef>)
        requires
            old(self).accepts(classes@, Stmt::Break),
        ensures
            old(self).generates(classes@, Stmt::Break, *final(self)),
    {
        let out: u16 = self.break_stack[self.break_stack.len() - 1];
        self.emit(Instruction::Goto(out));
        proof {
            lemma_no_fields(self.members@);
        }
    }

    /// Generates the way out of a method.
    pub fn return_(&mut self, classes: &Vec<ClassDef>, r: &Return)
        requires
            old(self).accepts(classes@, Stmt::Return(*r)),
        ensures
            old(self).generates(classes@, Stmt::Return(*r), *final(self)),
    {
        let ghost env = self.env(classes@);
        if let Some(e) = &r.expr {
            self.expr(classes, e);
            self.emit(e.get_type().return_());
        } else {
            self.emit(Instruction::Return);
        }
        assert(self.insns() =~= old(self).insns() + return_code(
            env,
            *r,
            old(self).pos(),
        ));
        proof {
            lemma_no_fields(self.members@);
        }
    }

    /// Generates the printing of values, one after another.
    pub fn print(&mut self, classes: &Vec<ClassDef>, p: &Print)
        requires
            old(self).accepts(classes@, Stmt::Print(*p)),
        ensures
            old(self).generates(classes@, Stmt::Print(*p), *final(self)),
        decreases p, 0nat,
    {
        let ghost start = *self;
        let ghost env = self.env(classes@);
        let ghost es = p.print@;
        let mut i: usize = 0;
        assert(self.insns() =~= start.insns() + print_code(env, es, 0, start.pos()));
        while i < p.print.len()
            invariant
                i <= es.len(),
                es == p.print@,
                start == *old(self),
                start.wf(),
                env == start.env(classes@),
                exprs_ok(env, es, es.len()),
                printable(env, es),
                start.room(exprs_labels(env, es, es.len()), exprs_locals(env, es, es.len())),
                start.reaches(
                    *self,
                    print_code(env, es, i as nat, start.pos()),
                    exprs_end(env, es, i as nat, start.pos()),
                ),
            decreases es.len() - i,
        {
            proof {
                lemma_exprs_grow(env, es, (i + 1) as nat, es.len());
            }
            let ghost before = *self;
            self.emit(
                Instruction::GetStatic {
                    class: "java/lang/System".to_owned(),
                    name: "out".to_owned(),
                    type_: JavaType::Class("java/io/PrintStream".to_owned()),
                },
            );
            self.expr(classes, &p.print[i]);
            let args: Vec<JavaType<String>> = vec![p.print[i].get_type().to_java(classes)];
            assert(types_view(args@) =~= seq![java_type(env.classes, es[i as int].type_)]);
            self.emit(
                Instruction::InvokeVirtual {
                    class: "java/io/PrintStream".to_owned(),
                    name: "print".to_owned(),
                    args,
                    ret: JavaType::Void,
                },
            );
            i += 1;
            assert(self.insns() =~= start.insns() + print_code(env, es, i as nat, start.pos()));
        }
        proof {
            lemma_no_fields(self.members@);
        }
    }

    /// Generates a shallow copy of an object.
    pub fn s_copy(&mut self, classes: &Vec<ClassDef>, c: &SCopy)
        requires
            old(self).accepts(classes@, Stmt::SCopy(*c)),
        ensures
            old(self).generates(classes@, Stmt::SCopy(*c), *final(self)),
    {
        let ghost env = self.env(classes@);
        let src: u8 = self.new_local();
        let class: usize = match c.src.get_type() {
            SemanticType::Object(class) => *class,
            _ => unreached(),
        };
        let dst: u8 = self.slot[c.dst_sym.position()];
        let tmp: u8 = self.new_local();
        let ghost value = expr_code(env, c.src, self.pos());
        self.expr(classes, &c.src);
        self.emit(Instruction::AStore(src));
        self.new_object(&classes[class].name);
        self.emit(Instruction::AStore(tmp));
        let ghost half = value.push(Instruction::AStore(src)) + new_object_code(
            classes@[class as int].name@,
        ).push(Instruction::AStore(tmp));
        assert(self.insns() =~= old(self).insns() + half);
        self.copy_fields(classes, class, src, tmp);
        self.emit(Instruction::ALoad(tmp));
        self.emit(Instruction::AStore(dst));
        assert(self.insns() =~= old(self).insns() + s_copy_code(env, *c, old(self).pos()));
        proof {
            lemma_no_fields(self.members@);
        }
    }

    /// Copies every field of a class from the object in local variable `src` to the one in `dst`.
    pub fn copy_fields(&mut self, classes: &Vec<ClassDef>, class: usize, src: u8, dst: u8)
        requires
            old(self).wf(),
            class < classes@.len(),
            fields_exist(old(self).env(classes@), classes@[class as int].field@),
        ensures
            old(self).reaches(
                *final(self),
                copy_code(
                    old(self).env(classes@),
                    classes@[class as int].name@,
                    classes@[class as int].field@,
                    classes@[class as int].field@.len(),
                    src,
                    dst,
                ),
                old(self).pos(),
            ),
    {
        let ghost start = *self;
        let ghost env = self.env(classes@);
        let ghost name = classes@[class as int].name@;
        let field = &classes[class].field;
        let mut i: usize = 0;
        assert(self.insns() =~= start.insns() + copy_code(env, name, field@, 0, src, dst));
        while i < field.len()
            invariant
                i <= field@.len(),
                class < classes@.len(),
                field@ == classes@[class as int].field@,
                name == classes@[class as int].name@,
                start == *old(self),
                env == start.env(classes@),
                fields_exist(env, field@),
                start.reaches(
                    *self,
                    copy_code(env, name, field@, i as nat, src, dst),
                    start.pos(),
                ),
            decreases field@.len() - i,
        {
            match &field[i] {
                FieldDef::VarDef(v) => {
                    assert(env.var_has_java_type(*v));
                    let get: Insn = self.get_field(classes, class, Var::VarDef(*v));
                    let put: Insn = self.put_field(classes, class, Var::VarDef(*v));
                    self.emit_all(vec![Instruction::ALoad(dst), Instruction::ALoad(src), get, put]);
                },
                FieldDef::MethodDef(_) => {},
            }
            i += 1;
            assert(self.insns() =~= start.insns() + copy_code(
                env,
                name,
                field@,
                i as nat,
                src,
                dst,
            ));
        }
    }

    /// Gives a variable its place: a local variable, or a field of the class in hand.
    pub fn var_def(&mut self, classes: &Vec<ClassDef>, v: usize)
        requires
            old(self).wf(),
            old(self).env(classes@).can_declare(v),
            old(self).room(0, old(self).env(classes@).def_locals(v)),
        ensures
            old(self).grows(
                *final(self),
                Seq::empty(),
                old(self).pos().declare(old(self).env(classes@), v),
                old(self).env(classes@).def_fields(v),
            ),
    {
        let ghost env = self.env(classes@);
        match self.symbols.var[v].scope {
            ScopeKind::Class(_) => {
                let field = Member::Field {
                    access: Access { public: true, static_: false, final_: false },
                    name: self.symbols.var[v].name.clone(),
                    type_: self.symbols.var[v].type_.to_java(classes),
                };
                self.members.push(field);
            },
            _ => {
                let index: u8 = self.new_local();
                self.slot.set(v, index);
            },
        }
        assert(self.insns() =~= old(self).insns() + Seq::empty());
        assert(members_view(self.members@) =~= members_view(old(self).members@) + env.def_fields(
            v,
        ));
    }

    /// Generates a loop over the elements of an array.
    #[verifier::rlimit(30)]
    pub fn foreach(&mut self, classes: &Vec<ClassDef>, f: &Foreach)
        requires
            old(self).accepts(classes@, Stmt::Foreach(*f)),
        ensures
            old(self).generates(classes@, Stmt::Foreach(*f), *final(self)),
        decreases f, 0nat,
    {
        let ghost env = self.env(classes@);
        self.var_def(classes, f.def);
        let x: u8 = self.slot[f.def];
        let it: u8 = self.new_local();
        // it = 0
        self.emit_all(vec![Instruction::IntConst(0), Instruction::IStore(it)]);
        // arr = foreach.arr
        let arr: u8 = self.new_local();
        let ghost array = expr_code(env, f.arr, self.pos());
        self.expr(classes, &f.arr);
        let ghost half = seq![Instruction::IntConst(0), Instruction::IStore(it)] + array;
        assert(self.insns() =~= old(self).insns() + half);
        let before_cond: u16 = self.new_label();
        let after_body: u16 = self.new_label();
        self.break_stack.push(after_body);
        let load: Insn = self.symbols.var[f.def].type_.array_load();
        let store: Insn = self.symbols.var[f.def].type_.store(x);
        let ghost head = seq![
            Instruction::AStore(arr),
            Instruction::Label(before_cond),
            Instruction::ILoad(it),
            Instruction::ALoad(arr),
            Instruction::ArrayLength,
            Instruction::IfICmpGe(after_body),
            Instruction::ALoad(arr),
            Instruction::ILoad(it),
            load@,
            store@,
        ];
        self.emit_all(
            vec![
                Instruction::AStore(arr),
                Instruction::Label(before_cond),
                // it < arr.length
                Instruction::ILoad(it),
                Instruction::ALoad(arr),
                Instruction::ArrayLength,
                Instruction::IfICmpGe(after_body),
                // x = arr[it]
                Instruction::ALoad(arr),
                Instruction::ILoad(it),
                load,
                store,
            ],
        );
        assert(self.insns() =~= old(self).insns() + (half + head));
        let ghost test = match &f.cond {
            Some(e) => expr_code(env, *e, self.pos()).push(Instruction::IfEq(after_body)),
            None => Seq::empty(),
        };
        // if (!cond) break
        if let Some(cond) = &f.cond {
            self.expr(classes, cond);
            self.emit(Instruction::IfEq(after_body));
        }
        assert(self.insns() =~= old(self).insns() + (half + head + test));
        let ghost body = block_code(env, f.body, self.brk(), self.pos());
        self.block(classes, &f.body);
        // ++it
        self.emit_all(
            vec![
                Instruction::IInc(it, 1),
                Instruction::Goto(before_cond),
                Instruction::Label(after_body),
            ],
        );
        self.break_stack.pop();
        assert(self.break_stack@ =~= old(self).break_stack@);
        assert(self.insns() =~= old(self).insns() + (half + head + test + body + seq![
            Instruction::IInc(it, 1),
            Instruction::Goto(before_cond),
            Instruction::Label(after_body),
        ]));
        assert(members_view(self.members@) =~= members_view(old(self).members@) + stmt_fields(
            env,
            Stmt::Foreach(*f),
        ));
    }

    /// Generates guarded blocks, one after another.
    #[verifier::rlimit(30)]
    pub fn guarded(&mut self, classes: &Vec<ClassDef>, g: &Guarded)
        requires
            old(self).accepts(classes@, Stmt::Guarded(*g)),
        ensures
            old(self).generates(classes@, Stmt::Guarded(*g), *final(self)),
        decreases g, 0nat,
    {
        let ghost start = *self;
        let ghost env = self.env(classes@);
        let ghost gs = g.guarded@;
        let mut i: usize = 0;
        assert(self.insns() =~= start.insns() + guards_code(env, gs, 0, start.brk(), start.pos()));
        proof {
            lemma_no_fields(self.members@);
        }
        while i < g.guarded.len()
            invariant
                i <= gs.len(),
                gs == g.guarded@,
                start == *old(self),
                start.wf(),
                env == start.env(classes@),
                guards_ok(env, gs, gs.len(), start.in_loop()),
                start.room(guards_labels(env, gs, gs.len()), guards_locals(env, gs, gs.len())),
                start.grows(
                    *self,
                    guards_code(env, gs, i as nat, start.brk(), start.pos()),
                    guards_end(env, gs, i as nat, start.pos()),
                    guards_fields(env, gs, i as nat),
                ),
            decreases gs.len() - i,
        {
            proof {
                lemma_guards_grow(env, gs, (i + 1) as nat, gs.len(), start.in_loop());
                assert(decreases_to!(g => g.guarded@));
                assert(decreases_to!(g.guarded@ => g.guarded@[i as int]));
                assert(decreases_to!(g.guarded@[i as int] => g.guarded@[i as int].1));
            }
            let after: u16 = self.new_label();
            self.expr(classes, &g.guarded[i].0);
            self.emit(Instruction::IfEq(after));
            self.block(classes, &g.guarded[i].1);
            self.emit(Instruction::Label(after));
            i += 1;
            assert(self.insns() =~= start.insns() + guards_code(
                env,
                gs,
                i as nat,
                start.brk(),
                start.pos(),
            ));
            assert(members_view(self.members@) =~= members_view(start.members@) + guards_fields(
                env,
                gs,
                i as nat,
            ));
        }
    }
}

} // verus!
