//! How the types of the source language appear on the machine.

use vstd::prelude::*;

use crate::ast::{BasicType, ClassDef, SemanticType};
use crate::instr::{ElemClass, Insn, InsnView, Instruction, JType, JavaType};
use vstd::pervasive::unreached;

verus! {

/// The values of the type are held as machine integers.
pub open spec fn is_integral(t: SemanticType) -> bool {
    t is Basic && (t->Basic_0 is Int || t->Basic_0 is Bool)
}

/// The values of the type are held as references. A string is one of them.
pub open spec fn is_reference(t: SemanticType) -> bool {
    !(t is Basic) || t->Basic_0 is Text
}

/// The type has values at all, so that it can be held in a variable or an array.
pub open spec fn has_values(t: SemanticType) -> bool {
    is_integral(t) || is_reference(t)
}

/// The type has a counterpart on the machine: `null` occurs nowhere in it, and its classes exist.
pub open spec fn has_java_type(classes: Seq<ClassDef>, t: SemanticType) -> bool
    decreases t,
{
    match t {
        SemanticType::Basic(_) => true,
        SemanticType::Object(class) => class < classes.len(),
        SemanticType::Array(elem) => has_java_type(classes, *elem),
        SemanticType::Null => false,
    }
}

/// The counterpart of a type on the machine.
pub open spec fn java_type(classes: Seq<ClassDef>, t: SemanticType) -> JType
    decreases t,
{
    match t {
        SemanticType::Basic(BasicType::Int) => JavaType::Int,
        SemanticType::Basic(BasicType::Bool) => JavaType::Boolean,
        SemanticType::Basic(BasicType::Text) => JavaType::Class("java/lang/String"@),
        SemanticType::Basic(BasicType::Void) => JavaType::Void,
        SemanticType::Object(class) => JavaType::Class(classes[class as int].name@),
        SemanticType::Array(elem) => JavaType::Array(Box::new(java_type(classes, *elem))),
        SemanticType::Null => JavaType::Void,
    }
}

/// Pushes the local variable `index` of type `t`.
pub open spec fn load_insn(t: SemanticType, index: u8) -> InsnView {
    if is_integral(t) {
        Instruction::ILoad(index)
    } else {
        Instruction::ALoad(index)
    }
}

/// Pops the local variable `index` of type `t`.
pub open spec fn store_insn(t: SemanticType, index: u8) -> InsnView {
    if is_integral(t) {
        Instruction::IStore(index)
    } else {
        Instruction::AStore(index)
    }
}

/// Replaces an array and an index by the element of type `t`.
pub open spec fn array_load_insn(t: SemanticType) -> InsnView {
    if t == SemanticType::Basic(BasicType::Int) {
        Instruction::IALoad
    } else if t == SemanticType::Basic(BasicType::Bool) {
        Instruction::BALoad
    } else {
        Instruction::AALoad
    }
}

/// Pops an array, an index and a value of type `t`, and stores the value.
pub open spec fn array_store_insn(t: SemanticType) -> InsnView {
    if t == SemanticType::Basic(BasicType::Int) {
        Instruction::IAStore
    } else if t == SemanticType::Basic(BasicType::Bool) {
        Instruction::BAStore
    } else {
        Instruction::AAStore
    }
}

/// Leaves a method with a value of type `t`.
pub open spec fn return_insn(t: SemanticType) -> InsnView {
    if is_integral(t) {
        Instruction::IReturn
    } else {
        Instruction::AReturn
    }
}

/// Pushes the initial value of a variable of type `t`: 0 for a number or a truth value, `null` for
/// anything else.
pub open spec fn zero_insn(t: SemanticType) -> InsnView {
    if is_integral(t) {
        Instruction::IntConst(0)
    } else {
        Instruction::AConstNull
    }
}

/// An array can have elements of the type.
pub open spec fn can_be_element(classes: Seq<ClassDef>, t: SemanticType) -> bool {
    has_values(t) && has_java_type(classes, t)
}

/// Replaces a length by a new array with elements of type `t`.
pub open spec fn new_array_insn(classes: Seq<ClassDef>, t: SemanticType) -> InsnView {
    match t {
        SemanticType::Basic(BasicType::Int) => Instruction::NewIntArray,
        SemanticType::Basic(BasicType::Bool) => Instruction::NewBoolArray,
        SemanticType::Basic(_) => Instruction::ANewArray(ElemClass::Named("java/lang/String"@)),
        SemanticType::Object(class) => Instruction::ANewArray(
            ElemClass::Named(classes[class as int].name@),
        ),
        _ => Instruction::ANewArray(ElemClass::Described(java_type(classes, t))),
    }
}

impl SemanticType {
    /// The counterpart of the type on the machine, in a program with the given classes.
    pub fn to_java(&self, classes: &Vec<ClassDef>) -> (t: JavaType<String>)
        requires
            has_java_type(classes@, *self),
        ensures
            t@ == java_type(classes@, *self),
        decreases self,
    {
        match self {
            SemanticType::Basic(BasicType::Int) => JavaType::Int,
            SemanticType::Basic(BasicType::Void) => JavaType::Void,
            SemanticType::Basic(BasicType::Bool) => JavaType::Boolean,
            SemanticType::Basic(BasicType::Text) => JavaType::Class("java/lang/String".to_owned()),
            SemanticType::Object(class) => JavaType::Class(classes[*class].name.clone()),
            SemanticType::Array(elem) => JavaType::Array(Box::new(elem.to_java(classes))),
            SemanticType::Null => unreached(),
        }
    }

    /// Tells whether the values of the type are held as machine integers.
    pub fn is_integral(&self) -> (b: bool)
        ensures
            b == is_integral(*self),
    {
        matches!(self, SemanticType::Basic(BasicType::Int) | SemanticType::Basic(BasicType::Bool))
    }

    /// Tells whether this is the type of whole numbers.
    pub fn is_int(&self) -> (b: bool)
        ensures
            b == (*self == SemanticType::Basic(BasicType::Int)),
    {
        matches!(self, SemanticType::Basic(BasicType::Int))
    }

    /// Tells whether this is the type of truth values.
    pub fn is_bool(&self) -> (b: bool)
        ensures
            b == (*self == SemanticType::Basic(BasicType::Bool)),
    {
        matches!(self, SemanticType::Basic(BasicType::Bool))
    }

    /// The instruction that pushes a local variable of the type.
    pub fn load(&self, index: u8) -> (insn: Insn)
        requires
            has_values(*self),
        ensures
            insn@ == load_insn(*self, index),
    {
        if self.is_integral() {
            Instruction::ILoad(index)
        } else {
            Instruction::ALoad(index)
        }
    }

    /// The instruction that pops a local variable of the type.
    pub fn store(&self, index: u8) -> (insn: Insn)
        requires
            has_values(*self),
        ensures
            insn@ == store_insn(*self, index),
    {
        if self.is_integral() {
            Instruction::IStore(index)
        } else {
            Instruction::AStore(index)
        }
    }

    /// The instruction that pushes an array element of the type.
    pub fn array_load(&self) -> (insn: Insn)
        requires
            has_values(*self),
        ensures
            insn@ == array_load_insn(*self),
    {
        if self.is_int() {
            Instruction::IALoad
        } else if self.is_bool() {
            Instruction::BALoad
        } else {
            Instruction::AALoad
        }
    }

    /// The instruction that pops an array element of the type.
    pub fn array_store(&self) -> (insn: Insn)
        requires
            has_values(*self),
        ensures
            insn@ == array_store_insn(*self),
    {
        if self.is_int() {
            Instruction::IAStore
        } else if self.is_bool() {
            Instruction::BAStore
        } else {
            Instruction::AAStore
        }
    }

    /// The instruction that leaves a method with a value of the type.
    pub fn return_(&self) -> (insn: Insn)
        requires
            has_values(*self),
        ensures
            insn@ == return_insn(*self),
    {
        if self.is_integral() {
            Instruction::IReturn
        } else {
            Instruction::AReturn
        }
    }

    /// The instruction that pushes the initial value of a variable of the type.
    pub fn zero(&self) -> (insn: Insn)
        requires
            has_values(*self),
        ensures
            insn@ == zero_insn(*self),
    {
        if self.is_integral() {
            Instruction::IntConst(0)
        } else {
            Instruction::AConstNull
        }
    }

    /// The instruction that makes an array with elements of the type. An element class is given by
    /// its name, an element array by its descriptor.
    pub fn new_array(&self, classes: &Vec<ClassDef>) -> (insn: Insn)
        requires
            can_be_element(classes@, *self),
        ensures
            insn@ == new_array_insn(classes@, *self),
    {
        match self {
            SemanticType::Basic(BasicType::Int) => Instruction::NewIntArray,
            SemanticType::Basic(BasicType::Bool) => Instruction::NewBoolArray,
            SemanticType::Basic(_) => Instruction::ANewArray(
                ElemClass::Named("java/lang/String".to_owned()),
            ),
            SemanticType::Object(class) => Instruction::ANewArray(
                ElemClass::Named(classes[*class].name.clone()),
            ),
            _ => Instruction::ANewArray(ElemClass::Described(self.to_java(classes))),
        }
    }
}

} // verus!
