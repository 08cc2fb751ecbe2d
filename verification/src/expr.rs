//! Code generation for expressions.

use vstd::prelude::*;

use crate::ast::{
    BasicType, Binary, Call, ClassDef, Const, DefaultIndexed, Expr, ExprKind, Identifier, Indexed,
    NewArray, NewClass, Operator, SemanticType, TypeCast, TypeTest, Unary,
};
use crate::instr::{types_view, Insn, Instruction, JType, JavaType};
use crate::jvm_code_gen::JvmCodeGen;
use crate::scheme::{
    arithmetic_insn, binary_code, binary_labels, binary_locals, call_code, call_labels, call_locals,
    choice_code, comparison_insn, const_insn, counter_labels, counter_locals, default_code,
    default_labels, default_locals, expr_code, expr_labels, expr_locals, exprs_code, exprs_end,
    exprs_labels, exprs_locals, fill_code, identifier_code, identifier_labels, identifier_locals,
    inc_operand, indexed_code, invoke_insn, is_comparison, new_object_code, owner_code, owner_end,
    owner_labels, owner_locals, post_inc_code, pre_inc_code, unary_code, unary_labels, unary_locals,
    Env,
};
use crate::types::{can_be_element, has_values, new_array_insn};
use crate::valid::{
    binary_ok, call_ok, counter_ok, default_ok, expr_ok, exprs_ok, identifier_ok, indexed_ok,
    is_unary, owner_ok, unary_ok,
};
use vstd::pervasive::unreached;

verus! {

/// The labels and local variables of a list grow with every expression in it.
pub proof fn lemma_exprs_grow(env: Env, es: Seq<Expr>, i: nat, n: nat)
    requires
        i <= n <= es.len(),
    ensures
        exprs_labels(env, es, i) <= exprs_labels(env, es, n),
        exprs_locals(env, es, i) <= exprs_locals(env, es, n),
        exprs_ok(env, es, n) ==> exprs_ok(env, es, i),
    decreases n,
{
    if i < n {
        lemma_exprs_grow(env, es, i, (n - 1) as nat);
    }
}

impl JvmCodeGen {
    /// Generates an expression.
    pub fn expr(&mut self, classes: &Vec<ClassDef>, e: &Expr)
        requires
            old(self).wf(),
            expr_ok(old(self).env(classes@), *e),
            old(self).room(
                expr_labels(old(self).env(classes@), *e),
                expr_locals(old(self).env(classes@), *e),
            ),
        ensures
            old(self).reaches(
                *final(self),
                expr_code(old(self).env(classes@), *e, old(self).pos()),
                old(self).pos().past(old(self).env(classes@), *e),
            ),
        decreases e, 0nat,
    {
        match &e.kind {
            ExprKind::Identifier(i) => self.identifier(classes, i, false),
            ExprKind::Indexed(i) => self.indexed(classes, i, &e.type_, false),
            ExprKind::Const(c) => self.const_(c),
            ExprKind::Call(c) => self.call(classes, c),
            ExprKind::Unary(u) => self.unary(classes, u),
            ExprKind::Binary(b) => self.binary(classes, b),
            ExprKind::This => self.this(),
            ExprKind::NewClass(n) => self.new_class(n),
            ExprKind::NewArray(n) => self.new_array(classes, n, &e.type_),
            ExprKind::TypeCast(t) => self.type_cast(classes, t),
            ExprKind::TypeTest(t) => self.type_test(classes, t),
            ExprKind::Default(d) => self.default(classes, d, &e.type_),
        }
    }

    /// Generates the object that a field or a method belongs to, if there is one.
    pub fn owner(&mut self, classes: &Vec<ClassDef>, owner: &Option<Box<Expr>>)
        requires
            old(self).wf(),
            owner_ok(old(self).env(classes@), *owner),
            old(self).room(
                owner_labels(old(self).env(classes@), *owner),
                owner_locals(old(self).env(classes@), *owner),
            ),
        ensures
            old(self).reaches(
                *final(self),
                owner_code(old(self).env(classes@), *owner, old(self).pos()),
                owner_end(old(self).env(classes@), *owner, old(self).pos()),
            ),
        decreases owner, 0nat,
    {
        match owner {
            Some(e) => self.expr(classes, e),
            None => {
                assert(self.insns() =~= self.insns() + owner_code(
                    self.env(classes@),
                    *owner,
                    self.pos(),
                ));
            },
        }
    }

    /// Generates a variable: its value, or only its place.
    pub fn identifier(&mut self, classes: &Vec<ClassDef>, i: &Identifier, for_assign: bool)
        requires
            old(self).wf(),
            identifier_ok(old(self).env(classes@), *i, for_assign),
            old(self).room(
                identifier_labels(old(self).env(classes@), *i, for_assign),
                identifier_locals(old(self).env(classes@), *i, for_assign),
            ),
        ensures
            old(self).reaches(
                *final(self),
                identifier_code(old(self).env(classes@), *i, for_assign, old(self).pos()),
                old(self).pos().step(
                    identifier_labels(old(self).env(classes@), *i, for_assign),
                    identifier_locals(old(self).env(classes@), *i, for_assign),
                ),
            ),
        decreases i, 0nat,
    {
        if for_assign {
            self.owner(classes, &i.owner);
        } else {
            match self.field_of(i.symbol) {
                Some(class) => {
                    self.owner(classes, &i.owner);
                    let insn = self.get_field(classes, class, i.symbol);
                    self.emit(insn);
                },
                None => {
                    let v: usize = i.symbol.position();
                    let insn = self.symbols.var[v].type_.load(self.slot[v]);
                    self.emit(insn);
                },
            }
            assert(self.insns() =~= old(self).insns() + identifier_code(
                old(self).env(classes@),
                *i,
                for_assign,
                old(self).pos(),
            ));
        }
    }

    /// Generates an array element: its value, or only its place.
    pub fn indexed(
        &mut self,
        classes: &Vec<ClassDef>,
        i: &Indexed,
        type_: &SemanticType,
        for_assign: bool,
    )
        requires
            old(self).wf(),
            indexed_ok(old(self).env(classes@), *i),
            for_assign || has_values(*type_),
            old(self).room(
                expr_labels(old(self).env(classes@), *i.arr) + expr_labels(
                    old(self).env(classes@),
                    *i.idx,
                ),
                expr_locals(old(self).env(classes@), *i.arr) + expr_locals(
                    old(self).env(classes@),
                    *i.idx,
                ),
            ),
        ensures
            old(self).reaches(
                *final(self),
                indexed_code(old(self).env(classes@), *i, *type_, for_assign, old(self).pos()),
                old(self).pos().past(old(self).env(classes@), *i.arr).past(
                    old(self).env(classes@),
                    *i.idx,
                ),
            ),
        decreases i, 0nat,
    {
        self.expr(classes, &i.arr);
        self.expr(classes, &i.idx);
        if !for_assign {
            self.emit(type_.array_load());
        }
        assert(self.insns() =~= old(self).insns() + indexed_code(
            old(self).env(classes@),
            *i,
            *type_,
            for_assign,
            old(self).pos(),
        ));
    }

    /// Generates a literal.
    pub fn const_(&mut self, c: &Const)
        ensures
            old(self).reaches(*final(self), seq![const_insn(*c)], old(self).pos()),
    {
        let insn: Insn = match c {
            Const::IntConst(v) => Instruction::IntConst(*v),
            Const::BoolConst(v) => Instruction::BoolConst(*v),
            Const::StringConst(v) => Instruction::StringConst(v.clone()),
            Const::Null => Instruction::AConstNull,
        };
        self.emit(insn);
    }

    /// Generates expressions one after another.
    pub fn exprs(&mut self, classes: &Vec<ClassDef>, es: &Vec<Expr>)
        requires
            old(self).wf(),
            exprs_ok(old(self).env(classes@), es@, es@.len()),
            old(self).room(
                exprs_labels(old(self).env(classes@), es@, es@.len()),
                exprs_locals(old(self).env(classes@), es@, es@.len()),
            ),
        ensures
            old(self).reaches(
                *final(self),
                exprs_code(old(self).env(classes@), es@, es@.len(), old(self).pos()),
                exprs_end(old(self).env(classes@), es@, es@.len(), old(self).pos()),
            ),
        decreases es, 0nat,
    {
        let ghost start = *self;
        let ghost env = self.env(classes@);
        let mut i: usize = 0;
        assert(self.insns() =~= start.insns() + exprs_code(env, es@, 0, start.pos()));
        while i < es.len()
            invariant
                i <= es@.len(),
                start == *old(self),
                start.wf(),
                env == start.env(classes@),
                exprs_ok(env, es@, es@.len()),
                start.room(
                    exprs_labels(env, es@, es@.len()),
                    exprs_locals(env, es@, es@.len()),
                ),
                start.reaches(
                    *self,
                    exprs_code(env, es@, i as nat, start.pos()),
                    exprs_end(env, es@, i as nat, start.pos()),
                ),
            decreases es@.len() - i,
        {
            proof {
                lemma_exprs_grow(env, es@, (i + 1) as nat, es@.len());
                assert(decreases_to!(es => es@));
                assert(decreases_to!(es@ => es@[i as int]));
            }
            self.expr(classes, &es[i]);
            i += 1;
            assert(self.insns() =~= start.insns() + exprs_code(env, es@, i as nat, start.pos()));
        }
    }

    /// Generates a call, or the length of an array.
    pub fn call(&mut self, classes: &Vec<ClassDef>, c: &Call)
        requires
            old(self).wf(),
            call_ok(old(self).env(classes@), *c),
            old(self).room(
                call_labels(old(self).env(classes@), *c),
                call_locals(old(self).env(classes@), *c),
            ),
        ensures
            old(self).reaches(
                *final(self),
                call_code(old(self).env(classes@), *c, old(self).pos()),
                old(self).pos().step(
                    call_labels(old(self).env(classes@), *c),
                    call_locals(old(self).env(classes@), *c),
                ),
            ),
        decreases c, 0nat,
    {
        let ghost env = self.env(classes@);
        self.owner(classes, &c.owner);
        if c.is_arr_len {
            self.emit(Instruction::ArrayLength);
        } else {
            self.exprs(classes, &c.arg);
            let m: usize = match c.method {
                Some(m) => m,
                None => unreached(),
            };
            let insn = self.invoke(classes, m);
            self.emit(insn);
        }
        assert(self.insns() =~= old(self).insns() + call_code(env, *c, old(self).pos()));
    }

    /// The instruction that calls a method.
    pub fn invoke(&self, classes: &Vec<ClassDef>, m: usize) -> (insn: Insn)
        requires
            m < self.symbols.method@.len(),
            self.env(classes@).can_call(self.env(classes@).methods[m as int]),
        ensures
            insn@ == invoke_insn(self.env(classes@), self.env(classes@).methods[m as int]),
    {
        let ghost env = self.env(classes@);
        let class: String = classes[self.symbols.method[m].class].name.clone();
        let name: String = self.symbols.method[m].name.clone();
        let ret = self.symbols.method[m].ret_t.to_java(classes);
        let ghost all = env.param_types(env.methods[m as int].param);
        if self.symbols.method[m].static_ {
            let args = self.param_types(classes, m, 0);
            assert(all.skip(0) =~= all);
            Instruction::InvokeStatic { class, name, args, ret }
        } else {
            let args = self.param_types(classes, m, 1);
            Instruction::InvokeVirtual { class, name, args, ret }
        }
    }

    /// Generates `this`.
    pub fn this(&mut self)
        ensures
            old(self).reaches(*final(self), seq![Instruction::ALoad(0)], old(self).pos()),
    {
        self.emit(Instruction::ALoad(0));
    }

    /// Generates a new object of the named class.
    pub fn new_object(&mut self, class: &String)
        ensures
            old(self).reaches(*final(self), new_object_code(class@), old(self).pos()),
    {
        let args: Vec<JavaType<String>> = Vec::new();
        assert(types_view(args@) =~= Seq::<JType>::empty());
        self.emit_all(
            vec![
                Instruction::New(class.clone()),
                Instruction::Dup,
                Instruction::InvokeSpecial {
                    class: class.clone(),
                    name: "<init>".to_owned(),
                    args,
                    ret: JavaType::Void,
                },
            ],
        );
        assert(self.insns() =~= old(self).insns() + new_object_code(class@));
    }

    /// Generates a new object.
    pub fn new_class(&mut self, n: &NewClass)
        ensures
            old(self).reaches(*final(self), new_object_code(n.name@), old(self).pos()),
    {
        self.new_object(&n.name);
    }

    /// Generates a new array of type `type_`.
    pub fn new_array(&mut self, classes: &Vec<ClassDef>, n: &NewArray, type_: &SemanticType)
        requires
            old(self).wf(),
            expr_ok(old(self).env(classes@), *n.len),
            type_ is Array,
            can_be_element(classes@, *type_->Array_0),
            old(self).room(
                expr_labels(old(self).env(classes@), *n.len),
                expr_locals(old(self).env(classes@), *n.len),
            ),
        ensures
            old(self).reaches(
                *final(self),
                expr_code(old(self).env(classes@), *n.len, old(self).pos()).push(
                    new_array_insn(classes@, *type_->Array_0),
                ),
                old(self).pos().past(old(self).env(classes@), *n.len),
            ),
        decreases n, 0nat,
    {
        let ghost code = expr_code(self.env(classes@), *n.len, self.pos());
        self.expr(classes, &n.len);
        match type_ {
            SemanticType::Array(elem_t) => self.gen_new_array(classes, elem_t),
            _ => unreached(),
        }
        assert(self.insns() =~= old(self).insns() + code.push(
            new_array_insn(classes@, *type_->Array_0),
        ));
    }

    /// Generates a cast, which fails at run time where the object is of another class.
    pub fn type_cast(&mut self, classes: &Vec<ClassDef>, t: &TypeCast)
        requires
            old(self).wf(),
            expr_ok(old(self).env(classes@), *t.expr),
            old(self).room(
                expr_labels(old(self).env(classes@), *t.expr),
                expr_locals(old(self).env(classes@), *t.expr),
            ),
        ensures
            old(self).reaches(
                *final(self),
                expr_code(old(self).env(classes@), *t.expr, old(self).pos()).push(
                    Instruction::CheckCast(t.name@),
                ),
                old(self).pos().past(old(self).env(classes@), *t.expr),
            ),
        decreases t, 0nat,
    {
        let ghost code = expr_code(self.env(classes@), *t.expr, self.pos());
        self.expr(classes, &t.expr);
        self.emit(Instruction::CheckCast(t.name.clone()));
        assert(self.insns() =~= old(self).insns() + code.push(Instruction::CheckCast(t.name@)));
    }

    /// Generates a test for a class.
    pub fn type_test(&mut self, classes: &Vec<ClassDef>, t: &TypeTest)
        requires
            old(self).wf(),
            expr_ok(old(self).env(classes@), *t.expr),
            old(self).room(
                expr_labels(old(self).env(classes@), *t.expr),
                expr_locals(old(self).env(classes@), *t.expr),
            ),
        ensures
            old(self).reaches(
                *final(self),
                expr_code(old(self).env(classes@), *t.expr, old(self).pos()).push(
                    Instruction::InstanceOf(t.name@),
                ),
                old(self).pos().past(old(self).env(classes@), *t.expr),
            ),
        decreases t, 0nat,
    {
        let ghost code = expr_code(self.env(classes@), *t.expr, self.pos());
        self.expr(classes, &t.expr);
        self.emit(Instruction::InstanceOf(t.name.clone()));
        assert(self.insns() =~= old(self).insns() + code.push(Instruction::InstanceOf(t.name@)));
    }

    /// Adds `val` to a variable or an array element, and leaves the new value.
    pub fn pre_inc_dec(&mut self, classes: &Vec<ClassDef>, e: &Expr, val: i32)
        requires
            old(self).wf(),
            counter_ok(old(self).env(classes@), *e),
            old(self).room(
                counter_labels(old(self).env(classes@), *e),
                counter_locals(old(self).env(classes@), *e),
            ),
        ensures
            old(self).reaches(
                *final(self),
                pre_inc_code(old(self).env(classes@), *e, val, old(self).pos()),
                old(self).pos().step(
                    counter_labels(old(self).env(classes@), *e),
                    counter_locals(old(self).env(classes@), *e),
                ),
            ),
        decreases e, 1nat,
    {
        let ghost env = self.env(classes@);
        match &e.kind {
            ExprKind::Identifier(i) => match self.field_of(i.symbol) {
                Some(class) => {
                    self.owner(classes, &i.owner);  // ref
                    let get = self.get_field(classes, class, i.symbol);
                    let put = self.put_field(classes, class, i.symbol);
                    self.emit_all(
                        vec![
                            Instruction::Dup,  // ref ref
                            get,  // ref x
                            Instruction::IntConst(val),  // ref x 1
                            Instruction::IAdd,  // ref x+1
                            Instruction::DupX1,  // x+1 ref x+1
                            put,  // x+1
                        ],
                    );
                },
                None => {
                    let index: u8 = self.slot[i.symbol.position()];
                    self.emit_all(
                        vec![
                            Instruction::IInc(index, signed_byte(val)),
                            Instruction::ILoad(index),
                        ],
                    );
                },
            },
            ExprKind::Indexed(i) => {
                self.indexed(classes, i, &e.type_, true);  // arr idx
                self.emit_all(
                    vec![
                        Instruction::Dup2,  // arr idx arr idx
                        Instruction::IALoad,  // arr idx x
                        Instruction::IntConst(val),  // arr idx x 1
                        Instruction::IAdd,  // arr idx x+1
                        Instruction::DupX2,  // x+1 arr idx x+1
                        Instruction::IAStore,  // x+1
                    ],
                );
            },
            _ => unreached(),
        }
        assert(self.insns() =~= old(self).insns() + pre_inc_code(env, *e, val, old(self).pos()));
    }

    /// Adds `val` to a variable or an array element, and leaves the old value.
    pub fn post_inc_dec(&mut self, classes: &Vec<ClassDef>, e: &Expr, val: i32)
        requires
            old(self).wf(),
            counter_ok(old(self).env(classes@), *e),
            old(self).room(
                counter_labels(old(self).env(classes@), *e),
                counter_locals(old(self).env(classes@), *e),
            ),
        ensures
            old(self).reaches(
                *final(self),
                post_inc_code(old(self).env(classes@), *e, val, old(self).pos()),
                old(self).pos().step(
                    counter_labels(old(self).env(classes@), *e),
                    counter_locals(old(self).env(classes@), *e),
                ),
            ),
        decreases e, 1nat,
    {
        let ghost env = self.env(classes@);
        match &e.kind {
            ExprKind::Identifier(i) => match self.field_of(i.symbol) {
                Some(class) => {
                    self.owner(classes, &i.owner);  // ref
                    let get = self.get_field(classes, class, i.symbol);
                    let put = self.put_field(classes, class, i.symbol);
                    self.emit_all(
                        vec![
                            Instruction::Dup,  // ref ref
                            get,  // ref x
                            Instruction::DupX1,  // x ref x
                            Instruction::IntConst(val),  // x ref x 1
                            Instruction::IAdd,  // x ref x+1
                            put,  // x
                        ],
                    );
                },
                None => {
                    let index: u8 = self.slot[i.symbol.position()];
                    self.emit_all(
                        vec![
                            Instruction::ILoad(index),
                            Instruction::IInc(index, signed_byte(val)),
                        ],
                    );
                },
            },
            ExprKind::Indexed(i) => {
                self.indexed(classes, i, &e.type_, true);  // arr idx
                self.emit_all(
                    vec![
                        Instruction::Dup2,  // arr idx arr idx
                        Instruction::IALoad,  // arr idx x
                        Instruction::DupX2,  // x arr idx x
                        Instruction::IntConst(val),  // x arr idx x 1
                        Instruction::IAdd,  // x arr idx x+1
                        Instruction::IAStore,  // x
                    ],
                );
            },
            _ => unreached(),
        }
        assert(self.insns() =~= old(self).insns() + post_inc_code(env, *e, val, old(self).pos()));
    }

    /// Pushes true where the branch to `yes` is taken, and false where it is not.
    pub fn choice(&mut self, branch: Insn, yes: u16, out: u16)
        ensures
            old(self).reaches(*final(self), choice_code(branch@, yes, out), old(self).pos()),
    {
        let ghost first = branch@;
        self.emit_all(
            vec![
                branch,
                Instruction::BoolConst(false),
                Instruction::Goto(out),
                Instruction::Label(yes),
                Instruction::BoolConst(true),
                Instruction::Label(out),
            ],
        );
        assert(self.insns() =~= old(self).insns() + choice_code(first, yes, out));
    }

    /// Generates an operator with one operand.
    pub fn unary(&mut self, classes: &Vec<ClassDef>, u: &Unary)
        requires
            old(self).wf(),
            unary_ok(old(self).env(classes@), *u),
            old(self).room(
                unary_labels(old(self).env(classes@), *u),
                unary_locals(old(self).env(classes@), *u),
            ),
        ensures
            old(self).reaches(
                *final(self),
                unary_code(old(self).env(classes@), *u, old(self).pos()),
                old(self).pos().step(
                    unary_labels(old(self).env(classes@), *u),
                    unary_locals(old(self).env(classes@), *u),
                ),
            ),
        decreases u, 0nat,
    {
        let ghost env = self.env(classes@);
        match u.op {
            Operator::Neg => {
                self.expr(classes, &u.r);
                self.emit(Instruction::INeg);
            },
            Operator::Not => {
                let true_label: u16 = self.new_label();
                let out_label: u16 = self.new_label();
                self.expr(classes, &u.r);
                self.choice(Instruction::IfEq(true_label), true_label, out_label);
            },
            Operator::PreInc => self.pre_inc_dec(classes, &u.r, 1),
            Operator::PreDec => self.pre_inc_dec(classes, &u.r, -1),
            Operator::PostInc => self.post_inc_dec(classes, &u.r, 1),
            Operator::PostDec => self.post_inc_dec(classes, &u.r, -1),
            _ => unreached(),
        }
        assert(self.insns() =~= old(self).insns() + unary_code(env, *u, old(self).pos()));
    }

    /// The branch to `yes` where the comparison of two values of type `t` holds.
    pub fn comparison(op: Operator, t: &SemanticType, yes: u16) -> (insn: Insn)
        requires
            is_comparison(op),
        ensures
            insn@ == comparison_insn(op, *t, yes),
    {
        let references: bool = match t {
            SemanticType::Null | SemanticType::Object(_) => true,
            SemanticType::Basic(b) => matches!(b, BasicType::Text),
            SemanticType::Array(_) => false,
        };
        match op {
            Operator::Le => Instruction::IfICmpLe(yes),
            Operator::Lt => Instruction::IfICmpLt(yes),
            Operator::Ge => Instruction::IfICmpGe(yes),
            Operator::Gt => Instruction::IfICmpGt(yes),
            Operator::Eq => if references {
                Instruction::IfACmpEq(yes)
            } else {
                Instruction::IfICmpEq(yes)
            },
            _ => if references {
                Instruction::IfACmpNe(yes)
            } else {
                Instruction::IfICmpNe(yes)
            },
        }
    }

    /// The instruction of an operator on two numbers.
    pub fn arithmetic(op: Operator) -> (insn: Insn)
        requires
            !is_unary(op),
            !is_comparison(op),
            !(op is Repeat || op is And || op is Or),
        ensures
            insn@ == arithmetic_insn(op),
    {
        match op {
            Operator::Add => Instruction::IAdd,
            Operator::Sub => Instruction::ISub,
            Operator::Mul => Instruction::IMul,
            Operator::Div => Instruction::IDiv,
            Operator::Mod => Instruction::IRem,
            Operator::BAnd => Instruction::IAnd,
            Operator::BOr => Instruction::IOr,
            Operator::BXor => Instruction::IXor,
            Operator::Shl => Instruction::IShl,
            Operator::Shr => Instruction::IUShr,
            _ => unreached(),
        }
    }

    /// Generates an operator with two operands.
    pub fn binary(&mut self, classes: &Vec<ClassDef>, b: &Binary)
        requires
            old(self).wf(),
            binary_ok(old(self).env(classes@), *b),
            old(self).room(
                binary_labels(old(self).env(classes@), *b),
                binary_locals(old(self).env(classes@), *b),
            ),
        ensures
            old(self).reaches(
                *final(self),
                binary_code(old(self).env(classes@), *b, old(self).pos()),
                old(self).pos().step(
                    binary_labels(old(self).env(classes@), *b),
                    binary_locals(old(self).env(classes@), *b),
                ),
            ),
        decreases b, 0nat,
    {
        let ghost env = self.env(classes@);
        match b.op {
            Operator::Repeat => {
                let before: u16 = self.new_label();
                let after: u16 = self.new_label();
                let val: u8 = self.new_local();
                let it: u8 = self.new_local();
                let arr: u8 = self.new_local();
                self.expr(classes, &b.l);
                let val_t = b.l.get_type();
                self.store_to_stack(val_t, val);
                self.expr(classes, &b.r);
                self.fill(classes, val_t, (before, after), (val, it, arr));
            },
            Operator::And => {
                let out_label: u16 = self.new_label();
                let false_label: u16 = self.new_label();
                self.expr(classes, &b.l);
                self.emit(Instruction::IfEq(false_label));
                self.expr(classes, &b.r);
                self.emit_all(
                    vec![
                        Instruction::IfEq(false_label),
                        Instruction::BoolConst(true),
                        Instruction::Goto(out_label),
                        Instruction::Label(false_label),
                        Instruction::BoolConst(false),
                        Instruction::Label(out_label),
                    ],
                );
            },
            Operator::Or => {
                let out_label: u16 = self.new_label();
                let true_label: u16 = self.new_label();
                self.expr(classes, &b.l);
                self.emit(Instruction::IfNe(true_label));
                self.expr(classes, &b.r);
                self.emit_all(
                    vec![
                        Instruction::IfNe(true_label),
                        Instruction::BoolConst(false),
                        Instruction::Goto(out_label),
                        Instruction::Label(true_label),
                        Instruction::BoolConst(true),
                        Instruction::Label(out_label),
                    ],
                );
            },
            op => {
                self.expr(classes, &b.l);
                self.expr(classes, &b.r);
                match op {
                    Operator::Le
                    | Operator::Lt
                    | Operator::Ge
                    | Operator::Gt
                    | Operator::Eq
                    | Operator::Ne => {
                        let before_else: u16 = self.new_label();
                        let after_else: u16 = self.new_label();
                        self.choice(
                            Self::comparison(op, b.l.get_type(), before_else),
                            before_else,
                            after_else,
                        );
                    },
                    _ => self.emit(Self::arithmetic(op)),
                }
            },
        }
        assert(self.insns() =~= old(self).insns() + binary_code(env, *b, old(self).pos()));
    }

    /// Replaces a length by a new array that holds the value in local variable `val` in every
    /// place.
    pub fn fill(
        &mut self,
        classes: &Vec<ClassDef>,
        elem: &SemanticType,
        labels: (u16, u16),
        locals: (u8, u8, u8),
    )
        requires
            can_be_element(classes@, *elem),
        ensures
            old(self).reaches(
                *final(self),
                fill_code(classes@, *elem, labels, locals),
                old(self).pos(),
            ),
    {
        let (before, after) = labels;
        let (val, it, arr) = locals;
        self.gen_new_array(classes, elem);
        self.emit_all(
            vec![
                Instruction::AStore(arr),
                Instruction::IntConst(0),
                Instruction::IStore(it),
                Instruction::Label(before),
                Instruction::ILoad(it),
                Instruction::ALoad(arr),
                Instruction::ArrayLength,
                Instruction::IfICmpGe(after),
                Instruction::ALoad(arr),
                Instruction::ILoad(it),
            ],
        );
        self.load_from_stack(elem, val);
        self.emit_all(
            vec![
                elem.array_store(),
                Instruction::IInc(it, 1),
                Instruction::Goto(before),
                Instruction::Label(after),
                Instruction::ALoad(arr),
            ],
        );
        assert(self.insns() =~= old(self).insns() + fill_code(classes@, *elem, labels, locals));
    }

    /// Generates an array element with a default.
    pub fn default(&mut self, classes: &Vec<ClassDef>, d: &DefaultIndexed, type_: &SemanticType)
        requires
            old(self).wf(),
            default_ok(old(self).env(classes@), *d),
            has_values(*type_),
            old(self).room(
                default_labels(old(self).env(classes@), *d),
                default_locals(old(self).env(classes@), *d),
            ),
        ensures
            old(self).reaches(
                *final(self),
                default_code(old(self).env(classes@), *d, *type_, old(self).pos()),
                old(self).pos().step(
                    default_labels(old(self).env(classes@), *d),
                    default_locals(old(self).env(classes@), *d),
                ),
            ),
        decreases d, 0nat,
    {
        let ghost env = self.env(classes@);
        let arr: u8 = self.new_local();
        let dft: u16 = self.new_label();
        let after: u16 = self.new_label();
        self.expr(classes, &d.arr);
        self.emit(Instruction::AStore(arr));
        self.expr(classes, &d.idx);
        self.emit_all(
            vec![
                Instruction::Dup,
                Instruction::IfLt(dft),
                Instruction::Dup,
                Instruction::ALoad(arr),
                Instruction::ArrayLength,
                Instruction::IfICmpGe(dft),
                Instruction::Dup,
                Instruction::ALoad(arr),
                Instruction::Swap,
                type_.array_load(),
                Instruction::Goto(after),
                Instruction::Label(dft),
            ],
        );
        self.expr(classes, &d.dft);
        self.emit(Instruction::Label(after));
        assert(self.insns() =~= old(self).insns() + default_code(
            env,
            *d,
            *type_,
            old(self).pos(),
        ));
    }
}

/// The byte whose signed value is `val`, where one exists.
pub fn signed_byte(val: i32) -> (b: u8)
    ensures
        b == inc_operand(val),
{
    #[verifier::truncate]
    (val as u8)
}

} // verus!
