//! The state of the generator, and the steps that all code is made of.

use vstd::prelude::*;

use crate::ast::{ClassDef, MethodSymbol, ScopeKind, SemanticType, Symbols, Var, VarSymbol};
use crate::instr::{
    code_view, members_view, types_view, Insn, InsnView, Instruction, JMember, JavaType, MemberView,
};
use crate::scheme::{Env, Pos};
use crate::types::{can_be_element, has_values, load_insn, new_array_insn, store_insn};

verus! {

/// Generates the classes of a program.
#[derive(Debug)]
pub struct JvmCodeGen {
    /// What names stand for.
    pub symbols: Symbols,
    /// The local variable that holds each declared variable.
    pub slot: Vec<u8>,
    /// The class whose method `main` starts the program, once it is known.
    pub main: Option<usize>,
    /// The members of the class in hand.
    pub members: Vec<JMember>,
    /// The code of the method in hand.
    pub code: Vec<Insn>,
    /// The labels behind the loops that are open, the innermost last.
    pub break_stack: Vec<u16>,
    /// The next label.
    pub label: u16,
    /// The next local variable.
    pub stack_index: u8,
}

impl JvmCodeGen {
    pub open spec fn env(self, classes: Seq<ClassDef>) -> Env {
        Env { classes, vars: self.symbols.vars(), methods: self.symbols.methods() }
    }

    pub open spec fn pos(self) -> Pos {
        Pos { label: self.label as nat, local: self.stack_index as nat, slots: self.slot@ }
    }

    /// The code of the method in hand.
    pub open spec fn insns(self) -> Seq<InsnView> {
        code_view(self.code@)
    }

    /// The label behind the innermost loop.
    pub open spec fn brk(self) -> u16 {
        self.break_stack@.last()
    }

    /// Every declared variable has a place in the table of local variables.
    pub open spec fn wf(self) -> bool {
        self.slot@.len() == self.symbols.var@.len()
    }

    /// So many labels and local variables can still be taken.
    pub open spec fn room(self, labels: nat, locals: nat) -> bool {
        self.label + labels <= u16::MAX && self.stack_index + locals <= u8::MAX
    }

    /// From here to `next` exactly `code` was added, generation moved to `end`, and nothing else
    /// changed.
    pub open spec fn reaches(self, next: JvmCodeGen, code: Seq<InsnView>, end: Pos) -> bool {
        &&& next.symbols == self.symbols
        &&& next.main == self.main
        &&& next.members == self.members
        &&& next.break_stack@ == self.break_stack@
        &&& next.slot@.len() == self.slot@.len()
        &&& next.insns() == self.insns() + code
        &&& next.pos() == end
    }

    /// From here to `next` exactly `code` was added to the method in hand and `fields` to the class
    /// in hand, generation moved to `end`, and nothing else changed.
    pub open spec fn grows(
        self,
        next: JvmCodeGen,
        code: Seq<InsnView>,
        end: Pos,
        fields: Seq<MemberView>,
    ) -> bool {
        &&& next.symbols == self.symbols
        &&& next.main == self.main
        &&& next.break_stack@ == self.break_stack@
        &&& next.slot@.len() == self.slot@.len()
        &&& next.insns() == self.insns() + code
        &&& next.pos() == end
        &&& members_view(next.members@) == members_view(self.members@) + fields
    }

    /// A generator that has seen nothing yet.
    pub fn new() -> (gen: JvmCodeGen)
        ensures
            gen.symbols.vars() == Seq::<VarSymbol<Seq<char>>>::empty(),
            gen.symbols.methods() == Seq::<MethodSymbol<Seq<char>, Seq<usize>>>::empty(),
            gen.slot@ == Seq::<u8>::empty(),
            gen.main is None,
            gen.members@ == Seq::<JMember>::empty(),
            gen.insns() == Seq::<InsnView>::empty(),
            gen.break_stack@ == Seq::<u16>::empty(),
            gen.label == 0,
            gen.stack_index == 0,
            gen.wf(),
    {
        JvmCodeGen {
            symbols: Symbols { var: Vec::new(), method: Vec::new() },
            slot: Vec::new(),
            main: None,
            members: Vec::new(),
            code: Vec::new(),
            break_stack: Vec::new(),
            label: 0,
            stack_index: 0,
        }
    }

    /// Adds an instruction to the method in hand.
    pub fn emit(&mut self, insn: Insn)
        ensures
            old(self).reaches(*final(self), seq![insn@], old(self).pos()),
    {
        self.code.push(insn);
        assert(self.insns() =~= old(self).insns() + seq![insn@]);
    }

    /// Adds instructions to the method in hand.
    pub fn emit_all(&mut self, insns: Vec<Insn>)
        ensures
            old(self).reaches(*final(self), code_view(insns@), old(self).pos()),
    {
        let ghost added = insns@;
        let mut insns = insns;
        self.code.append(&mut insns);
        assert(self.insns() =~= old(self).insns() + code_view(added));
    }

    /// Takes a local variable.
    pub fn new_local(&mut self) -> (index: u8)
        requires
            old(self).room(0, 1),
        ensures
            index == old(self).stack_index,
            old(self).reaches(*final(self), Seq::empty(), old(self).pos().step(0, 1)),
    {
        let ret: u8 = self.stack_index;
        self.stack_index = self.stack_index + 1;
        assert(self.insns() =~= old(self).insns() + Seq::empty());
        ret
    }

    /// Takes a label.
    pub fn new_label(&mut self) -> (label: u16)
        requires
            old(self).room(1, 0),
        ensures
            label == old(self).label,
            old(self).reaches(*final(self), Seq::empty(), old(self).pos().step(1, 0)),
    {
        let ret: u16 = self.label;
        self.label = self.label + 1;
        assert(self.insns() =~= old(self).insns() + Seq::empty());
        ret
    }

    /// Pops a value of type `t` into a local variable.
    pub fn store_to_stack(&mut self, t: &SemanticType, index: u8)
        requires
            has_values(*t),
        ensures
            old(self).reaches(*final(self), seq![store_insn(*t, index)], old(self).pos()),
    {
        self.emit(t.store(index));
    }

    /// Pushes a value of type `t` from a local variable.
    pub fn load_from_stack(&mut self, t: &SemanticType, index: u8)
        requires
            has_values(*t),
        ensures
            old(self).reaches(*final(self), seq![load_insn(*t, index)], old(self).pos()),
    {
        self.emit(t.load(index));
    }

    /// Replaces the length on top of the stack by a new array with elements of type `elem_t`.
    pub fn gen_new_array(&mut self, classes: &Vec<ClassDef>, elem_t: &SemanticType)
        requires
            can_be_element(classes@, *elem_t),
        ensures
            old(self).reaches(
                *final(self),
                seq![new_array_insn(classes@, *elem_t)],
                old(self).pos(),
            ),
    {
        self.emit(elem_t.new_array(classes));
    }

    /// The class that the variable is a field of, if it is one.
    pub fn field_of(&self, var: Var) -> (class: Option<usize>)
        requires
            self.env(Seq::empty()).knows(var),
        ensures
            class == self.env(Seq::empty()).field_of(var),
    {
        match var {
            Var::VarDef(v) => match self.symbols.var[v].scope {
                ScopeKind::Class(class) => Some(class),
                _ => None,
            },
            Var::VarAssign(_) => None,
        }
    }

    /// The instruction that replaces an object by its field `var`.
    pub fn get_field(&self, classes: &Vec<ClassDef>, class: usize, var: Var) -> (insn: Insn)
        requires
            self.env(classes@).knows(var),
            self.env(classes@).field_exists(class, var),
        ensures
            insn@ == self.env(classes@).get_field(class, self.env(classes@).var(var)),
    {
        let v: usize = var.position();
        Instruction::GetField {
            class: classes[class].name.clone(),
            name: self.symbols.var[v].name.clone(),
            type_: self.symbols.var[v].type_.to_java(classes),
        }
    }

    /// The instruction that pops an object and the new value of its field `var`.
    pub fn put_field(&self, classes: &Vec<ClassDef>, class: usize, var: Var) -> (insn: Insn)
        requires
            self.env(classes@).knows(var),
            self.env(classes@).field_exists(class, var),
        ensures
            insn@ == self.env(classes@).put_field(class, self.env(classes@).var(var)),
    {
        let v: usize = var.position();
        Instruction::PutField {
            class: classes[class].name.clone(),
            name: self.symbols.var[v].name.clone(),
            type_: self.symbols.var[v].type_.to_java(classes),
        }
    }

    /// The machine types of the parameters of a method, without the first `from`.
    pub fn param_types(&self, classes: &Vec<ClassDef>, method: usize, from: usize) -> (types: Vec<
        JavaType<String>,
    >)
        requires
            method < self.symbols.method@.len(),
            from <= self.symbols.method@[method as int].param@.len(),
            self.env(classes@).params_exist(self.symbols.method@[method as int].param@),
        ensures
            types_view(types@) == self.env(classes@).param_types(
                self.symbols.method@[method as int].param@,
            ).skip(from as int),
    {
        let param = &self.symbols.method[method].param;
        let ghost env = self.env(classes@);
        let mut types: Vec<JavaType<String>> = Vec::new();
        let mut i: usize = from;
        while i < param.len()
            invariant
                from <= i <= param@.len(),
                env == self.env(classes@),
                env.params_exist(param@),
                types@.len() == i - from,
                forall|j: int|
                    0 <= j < types@.len() ==> (#[trigger] types@[j])@ == env.var_java_type(
                        param@[from + j],
                    ),
            decreases param@.len() - i,
        {
            assert(env.var_has_java_type(param@[i as int]));
            let v: usize = param[i];
            types.push(self.symbols.var[v].type_.to_java(classes));
            i += 1;
        }
        assert(types_view(types@) =~= env.param_types(param@).skip(from as int));
        types
    }
}

impl Var {
    /// The position of the variable in the table of variables.
    pub fn position(self) -> (v: usize)
        ensures
            v == match self {
                Var::VarDef(v) => v,
                Var::VarAssign(v) => v,
            },
    {
        match self {
            Var::VarDef(v) => v,
            Var::VarAssign(v) => v,
        }
    }
}

} // verus!
