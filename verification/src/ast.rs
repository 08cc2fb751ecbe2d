//! The checked syntax tree that code is generated from.
//!
//! The tree is what a parser and a type checker leave behind: every expression carries its type,
//! every name is resolved. Classes, variables and methods refer to one another by position: a
//! class by its position in `Program::class`, a variable by its position in `Symbols::var`, a
//! method by its position in `Symbols::method`.

use vstd::prelude::*;

verus! {

/// The types that are not built from others. A string is a basic type of the source language,
/// although the machine treats it as an object.
#[derive(Clone, Copy, Debug, PartialEq, Eq, Structural)]
pub enum BasicType {
    Int,
    Bool,
    Void,
    Text,
}

/// The type of an expression, a variable or a method's result.
#[derive(Debug)]
pub enum SemanticType {
    Basic(BasicType),
    /// An instance of the class at this position.
    Object(usize),
    Array(Box<SemanticType>),
    /// The type of `null`.
    Null,
}

/// Where a variable is declared.
#[derive(Clone, Copy, Debug, PartialEq, Eq, Structural)]
pub enum ScopeKind {
    Local,
    Parameter,
    /// A field of the class at this position.
    Class(usize),
    Global,
}

/// A declared variable. `N` is the form in which names are held.
#[derive(Debug)]
pub struct VarSymbol<N> {
    pub name: N,
    pub type_: SemanticType,
    pub scope: ScopeKind,
}

/// A declared method. The parameter list of an instance method starts with `this`.
#[derive(Debug)]
pub struct MethodSymbol<N, P> {
    /// The class that declares the method.
    pub class: usize,
    pub name: N,
    pub static_: bool,
    /// The parameters, as positions in `Symbols::var`.
    pub param: P,
    pub ret_t: SemanticType,
}

/// A variable with its name seen as a sequence of characters.
pub type VarView = VarSymbol<Seq<char>>;

/// A method with its name and its parameters seen as sequences.
pub type MethodView = MethodSymbol<Seq<char>, Seq<usize>>;

impl VarSymbol<String> {
    pub open spec fn view(&self) -> VarView {
        VarSymbol { name: self.name@, type_: self.type_, scope: self.scope }
    }
}

impl MethodSymbol<String, Vec<usize>> {
    pub open spec fn view(&self) -> MethodView {
        MethodSymbol {
            class: self.class,
            name: self.name@,
            static_: self.static_,
            param: self.param@,
            ret_t: self.ret_t,
        }
    }
}

/// All variables and methods of a program.
#[derive(Debug)]
pub struct Symbols {
    pub var: Vec<VarSymbol<String>>,
    pub method: Vec<MethodSymbol<String, Vec<usize>>>,
}

impl Symbols {
    pub open spec fn vars(self) -> Seq<VarView> {
        Seq::new(self.var@.len(), |i: int| self.var@[i]@)
    }

    pub open spec fn methods(self) -> Seq<MethodView> {
        Seq::new(self.method@.len(), |i: int| self.method@[i]@)
    }
}

#[derive(Debug)]
pub struct Program {
    pub class: Vec<ClassDef>,
    /// The class whose method `main` starts the program, if there is one.
    pub main: Option<usize>,
    pub symbols: Symbols,
}

#[derive(Debug)]
pub struct ClassDef {
    pub name: String,
    pub parent: Option<String>,
    pub sealed: bool,
    pub field: Vec<FieldDef>,
}

/// A member of a class.
#[derive(Debug)]
pub enum FieldDef {
    MethodDef(MethodDef),
    VarDef(usize),
}

#[derive(Debug)]
pub struct MethodDef {
    /// The method's position in `Symbols::method`.
    pub symbol: usize,
    pub body: Block,
}

#[derive(Debug)]
pub struct Block {
    pub stmt: Vec<Stmt>,
}

#[derive(Debug)]
pub enum Stmt {
    Simple(Simple),
    If(If),
    While(While),
    For(For),
    Return(Return),
    Print(Print),
    Break,
    SCopy(SCopy),
    Foreach(Foreach),
    Guarded(Guarded),
    Block(Block),
}

#[derive(Debug)]
pub enum Simple {
    Assign(Assign),
    VarAssign(VarAssign),
    Expr(Expr),
    Skip,
}

#[derive(Debug)]
pub struct Assign {
    pub dst: Expr,
    pub src: Expr,
}

/// A local variable declared in a statement, with or without an initial value.
#[derive(Debug)]
pub struct VarAssign {
    pub var: usize,
    pub src: Option<Expr>,
}

#[derive(Debug)]
pub struct If {
    pub cond: Expr,
    pub on_true: Block,
    pub on_false: Option<Block>,
}

#[derive(Debug)]
pub struct While {
    pub cond: Expr,
    pub body: Block,
}

#[derive(Debug)]
pub struct For {
    pub init: Simple,
    pub cond: Expr,
    pub update: Simple,
    pub body: Block,
}

#[derive(Debug)]
pub struct Return {
    pub expr: Option<Expr>,
}

#[derive(Debug)]
pub struct Print {
    pub print: Vec<Expr>,
}

/// A shallow copy of an object into a variable.
#[derive(Debug)]
pub struct SCopy {
    pub dst_sym: Var,
    pub src: Expr,
}

/// A loop over the elements of an array, left when `cond` fails.
#[derive(Debug)]
pub struct Foreach {
    pub def: usize,
    pub arr: Expr,
    pub cond: Option<Expr>,
    pub body: Block,
}

/// Blocks that each run when their own condition holds, one after another.
#[derive(Debug)]
pub struct Guarded {
    pub guarded: Vec<(Expr, Block)>,
}

/// A resolved variable: one of a declaration list (a parameter, a field, a loop variable), or one
/// declared by a `VarAssign` statement. The number is its position in `Symbols::var`.
#[derive(Clone, Copy, Debug, PartialEq, Eq, Structural)]
pub enum Var {
    VarDef(usize),
    VarAssign(usize),
}

#[derive(Debug)]
pub struct Expr {
    pub type_: SemanticType,
    pub kind: ExprKind,
}

#[derive(Debug)]
pub enum ExprKind {
    Identifier(Identifier),
    Indexed(Indexed),
    Const(Const),
    Call(Call),
    Unary(Unary),
    Binary(Binary),
    This,
    NewClass(NewClass),
    NewArray(NewArray),
    TypeCast(TypeCast),
    TypeTest(TypeTest),
    Default(DefaultIndexed),
}

#[derive(Debug)]
pub struct Identifier {
    pub symbol: Var,
    /// The object whose field this is.
    pub owner: Option<Box<Expr>>,
}

#[derive(Debug)]
pub struct Indexed {
    pub arr: Box<Expr>,
    pub idx: Box<Expr>,
}

#[derive(Debug)]
pub enum Const {
    IntConst(i32),
    BoolConst(bool),
    StringConst(String),
    Null,
}

#[derive(Debug)]
pub struct Call {
    pub owner: Option<Box<Expr>>,
    pub arg: Vec<Expr>,
    /// The method called; none for the length of an array.
    pub method: Option<usize>,
    pub is_arr_len: bool,
}

#[derive(Clone, Copy, Debug, PartialEq, Eq, Structural)]
pub enum Operator {
    Neg,
    Not,
    PreInc,
    PreDec,
    PostInc,
    PostDec,
    Repeat,
    And,
    Or,
    Add,
    Sub,
    Mul,
    Div,
    Mod,
    BAnd,
    BOr,
    BXor,
    Shl,
    Shr,
    Le,
    Lt,
    Ge,
    Gt,
    Eq,
    Ne,
}

#[derive(Debug)]
pub struct Unary {
    pub op: Operator,
    pub r: Box<Expr>,
}

#[derive(Debug)]
pub struct Binary {
    pub op: Operator,
    pub l: Box<Expr>,
    pub r: Box<Expr>,
}

#[derive(Debug)]
pub struct NewClass {
    pub name: String,
}

#[derive(Debug)]
pub struct NewArray {
    pub len: Box<Expr>,
}

#[derive(Debug)]
pub struct TypeCast {
    pub expr: Box<Expr>,
    pub name: String,
}

#[derive(Debug)]
pub struct TypeTest {
    pub expr: Box<Expr>,
    pub name: String,
}

/// `arr[idx] default dft`: the element, or `dft` where the index is out of bounds.
#[derive(Debug)]
pub struct DefaultIndexed {
    pub arr: Box<Expr>,
    pub idx: Box<Expr>,
    pub dft: Box<Expr>,
}

impl Expr {
    /// The type that the checker recorded.
    pub fn get_type(&self) -> (t: &SemanticType)
        ensures
            *t == self.type_,
    {
        &self.type_
    }
}

} // verus!
