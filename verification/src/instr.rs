//! What the generator produces: instructions, members and classes of the Java virtual machine.
//!
//! The types are parameterised by the form in which names (`N`) and argument lists (`A`) are held:
//! `String` and `Vec` in compiled code, sequences in contracts.

use vstd::prelude::*;

verus! {

/// A type of the machine.
#[derive(Debug, PartialEq, Eq)]
pub enum JavaType<N> {
    Int,
    Void,
    Boolean,
    Class(N),
    Array(Box<JavaType<N>>),
}

/// A machine type with names seen as sequences of characters.
pub type JType = JavaType<Seq<char>>;

impl JavaType<String> {
    pub open spec fn view(&self) -> JType
        decreases self,
    {
        match self {
            JavaType::Int => JavaType::Int,
            JavaType::Void => JavaType::Void,
            JavaType::Boolean => JavaType::Boolean,
            JavaType::Class(name) => JavaType::Class(name@),
            JavaType::Array(elem) => JavaType::Array(Box::new(elem.view())),
        }
    }
}

/// The class operand of an instruction that makes an array of references.
#[derive(Debug, PartialEq, Eq)]
pub enum ElemClass<N> {
    /// The elements are instances of the named class.
    Named(N),
    /// The elements are arrays; the operand is the descriptor of this type.
    Described(JavaType<N>),
}

impl ElemClass<String> {
    pub open spec fn view(&self) -> ElemClass<Seq<char>> {
        match self {
            ElemClass::Named(name) => ElemClass::Named(name@),
            ElemClass::Described(t) => ElemClass::Described(t@),
        }
    }
}

/// One instruction, or the place of a label. Labels are numbered within a method.
#[derive(Debug, PartialEq, Eq)]
pub enum Instruction<N, A> {
    ILoad(u8),
    ALoad(u8),
    IStore(u8),
    AStore(u8),
    /// Adds the second operand, read as a signed byte, to the local variable.
    IInc(u8, u8),
    IntConst(i32),
    BoolConst(bool),
    StringConst(N),
    AConstNull,
    Dup,
    DupX1,
    DupX2,
    Dup2,
    Pop,
    Swap,
    IAdd,
    ISub,
    IMul,
    IDiv,
    IRem,
    INeg,
    IAnd,
    IOr,
    IXor,
    IShl,
    IUShr,
    IALoad,
    BALoad,
    AALoad,
    IAStore,
    BAStore,
    AAStore,
    ArrayLength,
    NewIntArray,
    NewBoolArray,
    ANewArray(ElemClass<N>),
    New(N),
    GetField { class: N, name: N, type_: JavaType<N> },
    PutField { class: N, name: N, type_: JavaType<N> },
    GetStatic { class: N, name: N, type_: JavaType<N> },
    InvokeSpecial { class: N, name: N, args: A, ret: JavaType<N> },
    InvokeStatic { class: N, name: N, args: A, ret: JavaType<N> },
    InvokeVirtual { class: N, name: N, args: A, ret: JavaType<N> },
    CheckCast(N),
    InstanceOf(N),
    Label(u16),
    Goto(u16),
    IfEq(u16),
    IfNe(u16),
    IfLt(u16),
    IfICmpEq(u16),
    IfICmpNe(u16),
    IfICmpLt(u16),
    IfICmpGe(u16),
    IfICmpGt(u16),
    IfICmpLe(u16),
    IfACmpEq(u16),
    IfACmpNe(u16),
    IReturn,
    AReturn,
    Return,
}

/// An instruction as it is generated.
pub type Insn = Instruction<String, Vec<JavaType<String>>>;

/// An instruction with its names and argument lists seen as sequences.
pub type InsnView = Instruction<Seq<char>, Seq<JType>>;

pub open spec fn types_view(args: Seq<JavaType<String>>) -> Seq<JType> {
    Seq::new(args.len(), |i: int| args[i]@)
}

impl Instruction<String, Vec<JavaType<String>>> {
    pub open spec fn view(&self) -> InsnView {
        match self {
            Instruction::ILoad(i) => Instruction::ILoad(*i),
            Instruction::ALoad(i) => Instruction::ALoad(*i),
            Instruction::IStore(i) => Instruction::IStore(*i),
            Instruction::AStore(i) => Instruction::AStore(*i),
            Instruction::IInc(i, n) => Instruction::IInc(*i, *n),
            Instruction::IntConst(v) => Instruction::IntConst(*v),
            Instruction::BoolConst(v) => Instruction::BoolConst(*v),
            Instruction::StringConst(v) => Instruction::StringConst(v@),
            Instruction::AConstNull => Instruction::AConstNull,
            Instruction::Dup => Instruction::Dup,
            Instruction::DupX1 => Instruction::DupX1,
            Instruction::DupX2 => Instruction::DupX2,
            Instruction::Dup2 => Instruction::Dup2,
            Instruction::Pop => Instruction::Pop,
            Instruction::Swap => Instruction::Swap,
            Instruction::IAdd => Instruction::IAdd,
            Instruction::ISub => Instruction::ISub,
            Instruction::IMul => Instruction::IMul,
            Instruction::IDiv => Instruction::IDiv,
            Instruction::IRem => Instruction::IRem,
            Instruction::INeg => Instruction::INeg,
            Instruction::IAnd => Instruction::IAnd,
            Instruction::IOr => Instruction::IOr,
            Instruction::IXor => Instruction::IXor,
            Instruction::IShl => Instruction::IShl,
            Instruction::IUShr => Instruction::IUShr,
            Instruction::IALoad => Instruction::IALoad,
            Instruction::BALoad => Instruction::BALoad,
            Instruction::AALoad => Instruction::AALoad,
            Instruction::IAStore => Instruction::IAStore,
            Instruction::BAStore => Instruction::BAStore,
            Instruction::AAStore => Instruction::AAStore,
            Instruction::ArrayLength => Instruction::ArrayLength,
            Instruction::NewIntArray => Instruction::NewIntArray,
            Instruction::NewBoolArray => Instruction::NewBoolArray,
            Instruction::ANewArray(elem) => Instruction::ANewArray(elem@),
            Instruction::New(class) => Instruction::New(class@),
            Instruction::GetField { class, name, type_ } => Instruction::GetField {
                class: class@,
                name: name@,
                type_: type_@,
            },
            Instruction::PutField { class, name, type_ } => Instruction::PutField {
                class: class@,
                name: name@,
                type_: type_@,
            },
            Instruction::GetStatic { class, name, type_ } => Instruction::GetStatic {
                class: class@,
                name: name@,
                type_: type_@,
            },
            Instruction::InvokeSpecial { class, name, args, ret } => Instruction::InvokeSpecial {
                class: class@,
                name: name@,
                args: types_view(args@),
                ret: ret@,
            },
            Instruction::InvokeStatic { class, name, args, ret } => Instruction::InvokeStatic {
                class: class@,
                name: name@,
                args: types_view(args@),
                ret: ret@,
            },
            Instruction::InvokeVirtual { class, name, args, ret } => Instruction::InvokeVirtual {
                class: class@,
                name: name@,
                args: types_view(args@),
                ret: ret@,
            },
            Instruction::CheckCast(class) => Instruction::CheckCast(class@),
            Instruction::InstanceOf(class) => Instruction::InstanceOf(class@),
            Instruction::Label(l) => Instruction::Label(*l),
            Instruction::Goto(l) => Instruction::Goto(*l),
            Instruction::IfEq(l) => Instruction::IfEq(*l),
            Instruction::IfNe(l) => Instruction::IfNe(*l),
            Instruction::IfLt(l) => Instruction::IfLt(*l),
            Instruction::IfICmpEq(l) => Instruction::IfICmpEq(*l),
            Instruction::IfICmpNe(l) => Instruction::IfICmpNe(*l),
            Instruction::IfICmpLt(l) => Instruction::IfICmpLt(*l),
            Instruction::IfICmpGe(l) => Instruction::IfICmpGe(*l),
            Instruction::IfICmpGt(l) => Instruction::IfICmpGt(*l),
            Instruction::IfICmpLe(l) => Instruction::IfICmpLe(*l),
            Instruction::IfACmpEq(l) => Instruction::IfACmpEq(*l),
            Instruction::IfACmpNe(l) => Instruction::IfACmpNe(*l),
            Instruction::IReturn => Instruction::IReturn,
            Instruction::AReturn => Instruction::AReturn,
            Instruction::Return => Instruction::Return,
        }
    }
}

pub open spec fn code_view(code: Seq<Insn>) -> Seq<InsnView> {
    Seq::new(code.len(), |i: int| code[i]@)
}

/// The access flags of a class or a member.
#[derive(Clone, Copy, Debug, PartialEq, Eq, Structural)]
pub struct Access {
    pub public: bool,
    pub static_: bool,
    pub final_: bool,
}

/// A member of a generated class, in the order in which the members are written.
#[derive(Debug, PartialEq, Eq)]
pub enum Member<N, A, C> {
    Field { access: Access, name: N, type_: JavaType<N> },
    Method { access: Access, name: N, args: A, ret: JavaType<N>, code: C, max_locals: u16 },
}

/// A member as it is generated.
pub type JMember = Member<String, Vec<JavaType<String>>, Vec<Insn>>;

/// A member with its names, argument list and code seen as sequences.
pub type MemberView = Member<Seq<char>, Seq<JType>, Seq<InsnView>>;

impl Member<String, Vec<JavaType<String>>, Vec<Insn>> {
    pub open spec fn view(&self) -> MemberView {
        match self {
            Member::Field { access, name, type_ } => Member::Field {
                access: *access,
                name: name@,
                type_: type_@,
            },
            Member::Method { access, name, args, ret, code, max_locals } => Member::Method {
                access: *access,
                name: name@,
                args: types_view(args@),
                ret: ret@,
                code: code_view(code@),
                max_locals: *max_locals,
            },
        }
    }
}

pub open spec fn members_view(members: Seq<JMember>) -> Seq<MemberView> {
    Seq::new(members.len(), |i: int| members[i]@)
}

/// A generated class and the name of the file that holds it.
#[derive(Debug, PartialEq, Eq)]
pub struct ClassFile<N, M> {
    pub file: N,
    pub access: Access,
    pub name: N,
    pub parent: N,
    pub members: M,
}

/// A class as it is generated.
pub type JClass = ClassFile<String, Vec<JMember>>;

/// A class with its names and members seen as sequences.
pub type ClassView = ClassFile<Seq<char>, Seq<MemberView>>;

impl ClassFile<String, Vec<JMember>> {
    pub open spec fn view(&self) -> ClassView {
        ClassFile {
            file: self.file@,
            access: self.access,
            name: self.name@,
            parent: self.parent@,
            members: members_view(self.members@),
        }
    }
}

pub open spec fn classes_view(classes: Seq<JClass>) -> Seq<ClassView> {
    Seq::new(classes.len(), |i: int| classes[i]@)
}

/// A machine type seen with its names as sequences is the same type with the same names.
pub proof fn law_type_seen(t: JavaType<String>)
    ensures
        t is Int <==> t@ is Int,
        t is Void <==> t@ is Void,
        t is Boolean <==> t@ is Boolean,
        t is Class <==> t@ is Class,
        t is Array <==> t@ is Array,
        t is Class ==> t@->Class_0 == t->Class_0@,
        t is Array ==> *t@->Array_0 == t->Array_0@,
{
    if let JavaType::Array(elem) = t {
        assert(t@ == JavaType::Array(Box::new(elem@)));
    }
}

/// An instruction seen with its names and arguments as sequences is the same instruction, with the
/// same operands.
pub proof fn law_insn_seen(i: Insn)
    ensures
        i is ILoad <==> i@ is ILoad,
        i is ALoad <==> i@ is ALoad,
        i is IStore <==> i@ is IStore,
        i is AStore <==> i@ is AStore,
        i is IInc <==> i@ is IInc,
        i is IntConst <==> i@ is IntConst,
        i is BoolConst <==> i@ is BoolConst,
        i is StringConst <==> i@ is StringConst,
        i is AConstNull <==> i@ is AConstNull,
        i is Dup <==> i@ is Dup,
        i is DupX1 <==> i@ is DupX1,
        i is DupX2 <==> i@ is DupX2,
        i is Dup2 <==> i@ is Dup2,
        i is Pop <==> i@ is Pop,
        i is Swap <==> i@ is Swap,
        i is IAdd <==> i@ is IAdd,
        i is ISub <==> i@ is ISub,
        i is IMul <==> i@ is IMul,
        i is IDiv <==> i@ is IDiv,
        i is IRem <==> i@ is IRem,
        i is INeg <==> i@ is INeg,
        i is IAnd <==> i@ is IAnd,
        i is IOr <==> i@ is IOr,
        i is IXor <==> i@ is IXor,
        i is IShl <==> i@ is IShl,
        i is IUShr <==> i@ is IUShr,
        i is IALoad <==> i@ is IALoad,
        i is BALoad <==> i@ is BALoad,
        i is AALoad <==> i@ is AALoad,
        i is IAStore <==> i@ is IAStore,
        i is BAStore <==> i@ is BAStore,
        i is AAStore <==> i@ is AAStore,
        i is ArrayLength <==> i@ is ArrayLength,
        i is NewIntArray <==> i@ is NewIntArray,
        i is NewBoolArray <==> i@ is NewBoolArray,
        i is ANewArray <==> i@ is ANewArray,
        i is New <==> i@ is New,
        i is GetField <==> i@ is GetField,
        i is PutField <==> i@ is PutField,
        i is GetStatic <==> i@ is GetStatic,
        i is InvokeSpecial <==> i@ is InvokeSpecial,
        i is InvokeStatic <==> i@ is InvokeStatic,
        i is InvokeVirtual <==> i@ is InvokeVirtual,
        i is CheckCast <==> i@ is CheckCast,
        i is InstanceOf <==> i@ is InstanceOf,
        i is Label <==> i@ is Label,
        i is Goto <==> i@ is Goto,
        i is IfEq <==> i@ is IfEq,
        i is IfNe <==> i@ is IfNe,
        i is IfLt <==> i@ is IfLt,
        i is IfICmpEq <==> i@ is IfICmpEq,
        i is IfICmpNe <==> i@ is IfICmpNe,
        i is IfICmpLt <==> i@ is IfICmpLt,
        i is IfICmpGe <==> i@ is IfICmpGe,
        i is IfICmpGt <==> i@ is IfICmpGt,
        i is IfICmpLe <==> i@ is IfICmpLe,
        i is IfACmpEq <==> i@ is IfACmpEq,
        i is IfACmpNe <==> i@ is IfACmpNe,
        i is IReturn <==> i@ is IReturn,
        i is AReturn <==> i@ is AReturn,
        i is Return <==> i@ is Return,
        i is ILoad ==> i@->ILoad_0 == i->ILoad_0,
        i is ALoad ==> i@->ALoad_0 == i->ALoad_0,
        i is IStore ==> i@->IStore_0 == i->IStore_0,
        i is AStore ==> i@->AStore_0 == i->AStore_0,
        i is IInc ==> i@->IInc_0 == i->IInc_0,
        i is IInc ==> i@->IInc_1 == i->IInc_1,
        i is IntConst ==> i@->IntConst_0 == i->IntConst_0,
        i is BoolConst ==> i@->BoolConst_0 == i->BoolConst_0,
        i is StringConst ==> i@->StringConst_0 == i->StringConst_0@,
        i is ANewArray ==> i@->ANewArray_0 == i->ANewArray_0@,
        i is New ==> i@->New_0 == i->New_0@,
        i is GetField ==> i@->GetField_class == i->GetField_class@,
        i is GetField ==> i@->GetField_name == i->GetField_name@,
        i is GetField ==> i@->GetField_type_ == i->GetField_type_@,
        i is PutField ==> i@->PutField_class == i->PutField_class@,
        i is PutField ==> i@->PutField_name == i->PutField_name@,
        i is PutField ==> i@->PutField_type_ == i->PutField_type_@,
        i is GetStatic ==> i@->GetStatic_class == i->GetStatic_class@,
        i is GetStatic ==> i@->GetStatic_name == i->GetStatic_name@,
        i is GetStatic ==> i@->GetStatic_type_ == i->GetStatic_type_@,
        i is InvokeSpecial ==> i@->InvokeSpecial_class == i->InvokeSpecial_class@,
        i is InvokeSpecial ==> i@->InvokeSpecial_name == i->InvokeSpecial_name@,
        i is InvokeSpecial ==> i@->InvokeSpecial_args.len() == i->InvokeSpecial_args@.len(),
        i is InvokeSpecial ==> forall|k: int|
            0 <= k < i->InvokeSpecial_args@.len() ==> (#[trigger] i@->InvokeSpecial_args[k])
                == i->InvokeSpecial_args@[k]@,
        i is InvokeSpecial ==> i@->InvokeSpecial_ret == i->InvokeSpecial_ret@,
        i is InvokeStatic ==> i@->InvokeStatic_class == i->InvokeStatic_class@,
        i is InvokeStatic ==> i@->InvokeStatic_name == i->InvokeStatic_name@,
        i is InvokeStatic ==> i@->InvokeStatic_args.len() == i->InvokeStatic_args@.len(),
        i is InvokeStatic ==> forall|k: int|
            0 <= k < i->InvokeStatic_args@.len() ==> (#[trigger] i@->InvokeStatic_args[k])
                == i->InvokeStatic_args@[k]@,
        i is InvokeStatic ==> i@->InvokeStatic_ret == i->InvokeStatic_ret@,
        i is InvokeVirtual ==> i@->InvokeVirtual_class == i->InvokeVirtual_class@,
        i is InvokeVirtual ==> i@->InvokeVirtual_name == i->InvokeVirtual_name@,
        i is InvokeVirtual ==> i@->InvokeVirtual_args.len() == i->InvokeVirtual_args@.len(),
        i is InvokeVirtual ==> forall|k: int|
            0 <= k < i->InvokeVirtual_args@.len() ==> (#[trigger] i@->InvokeVirtual_args[k])
                == i->InvokeVirtual_args@[k]@,
        i is InvokeVirtual ==> i@->InvokeVirtual_ret == i->InvokeVirtual_ret@,
        i is CheckCast ==> i@->CheckCast_0 == i->CheckCast_0@,
        i is InstanceOf ==> i@->InstanceOf_0 == i->InstanceOf_0@,
        i is Label ==> i@->Label_0 == i->Label_0,
        i is Goto ==> i@->Goto_0 == i->Goto_0,
        i is IfEq ==> i@->IfEq_0 == i->IfEq_0,
        i is IfNe ==> i@->IfNe_0 == i->IfNe_0,
        i is IfLt ==> i@->IfLt_0 == i->IfLt_0,
        i is IfICmpEq ==> i@->IfICmpEq_0 == i->IfICmpEq_0,
        i is IfICmpNe ==> i@->IfICmpNe_0 == i->IfICmpNe_0,
        i is IfICmpLt ==> i@->IfICmpLt_0 == i->IfICmpLt_0,
        i is IfICmpGe ==> i@->IfICmpGe_0 == i->IfICmpGe_0,
        i is IfICmpGt ==> i@->IfICmpGt_0 == i->IfICmpGt_0,
        i is IfICmpLe ==> i@->IfICmpLe_0 == i->IfICmpLe_0,
        i is IfACmpEq ==> i@->IfACmpEq_0 == i->IfACmpEq_0,
        i is IfACmpNe ==> i@->IfACmpNe_0 == i->IfACmpNe_0,
{
}

/// A member seen with its parts as sequences has the same parts.
pub proof fn law_member_seen(m: JMember)
    ensures
        m is Field <==> m@ is Field,
        m is Field ==> m@->Field_access == m->Field_access && m@->Field_name == m->Field_name@
            && m@->Field_type_ == m->Field_type_@,
        m is Method ==> m@->Method_access == m->Method_access && m@->Method_name
            == m->Method_name@ && m@->ret == m->ret@ && m@->max_locals == m->max_locals,
        m is Method ==> m@->args.len() == m->args@.len() && forall|k: int|
            0 <= k < m->args@.len() ==> (#[trigger] m@->args[k]) == m->args@[k]@,
        m is Method ==> m@->code.len() == m->code@.len() && forall|k: int|
            0 <= k < m->code@.len() ==> (#[trigger] m@->code[k]) == m->code@[k]@,
{
}

/// A class seen with its parts as sequences has the same parts.
pub proof fn law_class_seen(c: JClass)
    ensures
        c@.file == c.file@,
        c@.access == c.access,
        c@.name == c.name@,
        c@.parent == c.parent@,
        c@.members.len() == c.members@.len(),
        forall|k: int|
            0 <= k < c.members@.len() ==> (#[trigger] c@.members[k]) == c.members@[k]@,
{
}

} // verus!
