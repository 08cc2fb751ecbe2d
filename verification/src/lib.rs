//! Code generation for the Java virtual machine.
//!
//! [`jvm_code_gen::JvmCodeGen`] turns a checked syntax tree ([`ast`]) into classes with their
//! members and instructions ([`instr`]). What it must produce is laid down in [`types`],
//! [`scheme`] and [`program`]; the trees that it takes are those of [`valid`], and [`check`] tells
//! them apart from others. The generator itself is in [`jvm_code_gen`], [`expr`], [`stmt`] and
//! [`class`].
//!
//! The other modules are about the code that comes out. What it is made of is said by [`forms`]
//! (which instructions, and what they name), [`layout`] (the order of the parts) and [`members`]
//! (classes, methods and fields), and which trees it is made for by [`accepts`]. Then there are its
//! labels ([`labels`]), its operand stack ([`stack`]), its local variables ([`locals`], [`taken`]),
//! and what it does when it runs on the machine of [`machine`] ([`meaning`], [`counters`],
//! [`arrays`], [`action`]).

pub mod accepts;
pub mod action;
pub mod arrays;
pub mod ast;
pub mod check;
pub mod class;
pub mod count;
pub mod counters;
pub mod expr;
pub mod forms;
pub mod instr;
pub mod jvm_code_gen;
pub mod labels;
pub mod layout;
pub mod locals;
pub mod machine;
pub mod meaning;
pub mod members;
pub mod program;
pub mod scheme;
pub mod stack;
pub mod stmt;
pub mod taken;
pub mod types;
pub mod valid;
