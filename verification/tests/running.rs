//! Generated code run on a small machine: labels, stack, local variables and values.

use jvm_code_gen::ast::{
    Assign, BasicType, Binary, Block, Call, ClassDef, Const, DefaultIndexed, Expr, ExprKind,
    FieldDef, For, Foreach, Guarded, Identifier, If, Indexed, MethodDef, MethodSymbol, NewArray,
    NewClass, Operator, Print, Program, SCopy, ScopeKind, SemanticType, Simple, Stmt, Symbols,
    TypeCast, TypeTest, Unary, Var, VarAssign, VarSymbol, While,
};
use jvm_code_gen::instr::{Insn, Instruction, JMember, Member};
use jvm_code_gen::jvm_code_gen::JvmCodeGen;
use std::collections::HashMap;

// ---------------------------------------------------------------------------------------------
// The machine
// ---------------------------------------------------------------------------------------------

#[derive(Clone, Copy, Debug, PartialEq)]
enum Value {
    Int(i32),
    Ref(Option<usize>),
    Text(&'static str),
    Stream,
}

#[derive(Clone, Debug, PartialEq)]
enum Thing {
    Object(String, HashMap<String, Value>),
    Array(Vec<Value>),
}

#[derive(Debug)]
struct Machine {
    stack: Vec<Value>,
    locals: HashMap<u8, Value>,
    heap: Vec<Thing>,
    output: Vec<Value>,
}

impl Machine {
    fn new() -> Machine {
        Machine { stack: vec![], locals: HashMap::new(), heap: vec![], output: vec![] }
    }

    // Every class here extends the root of all classes.
    fn instance(&self, v: Value, class: &str) -> bool {
        match v {
            Value::Ref(Some(a)) => match &self.heap[a] {
                Thing::Object(own, _) => own == class || class == "java/lang/Object",
                Thing::Array(_) => panic!("no object"),
            },
            Value::Ref(None) => false,
            other => panic!("no object: {:?}", other),
        }
    }

    fn whole(&mut self) -> i32 {
        match self.stack.pop() {
            Some(Value::Int(v)) => v,
            other => panic!("no number: {:?}", other),
        }
    }

    fn reference(&mut self) -> usize {
        match self.stack.pop() {
            Some(Value::Ref(Some(a))) => a,
            other => panic!("no reference: {:?}", other),
        }
    }

    fn any(&mut self) -> Value {
        self.stack.pop().expect("a value")
    }

    fn push(&mut self, v: i32) {
        self.stack.push(Value::Int(v));
    }

    fn new_thing(&mut self, t: Thing) {
        self.heap.push(t);
        self.stack.push(Value::Ref(Some(self.heap.len() - 1)));
    }

    fn array(&mut self, a: usize) -> &mut Vec<Value> {
        match &mut self.heap[a] {
            Thing::Array(s) => s,
            Thing::Object(_, _) => panic!("no array"),
        }
    }

    // Runs until a way out, and gives what it returns.
    fn run(&mut self, code: &[Insn]) -> Option<Value> {
        let place = |l: u16| {
            let at: Vec<usize> =
                (0..code.len()).filter(|i| code[*i] == Instruction::Label(l)).collect();
            assert_eq!(at.len(), 1);
            at[0]
        };
        let mut pc = 0;
        loop {
            let insn = &code[pc];
            pc += 1;
            match insn {
                Instruction::ILoad(x) | Instruction::ALoad(x) => {
                    self.stack.push(self.locals[x]);
                }
                Instruction::IStore(x) | Instruction::AStore(x) => {
                    let v = self.any();
                    self.locals.insert(*x, v);
                }
                Instruction::IInc(x, b) => match self.locals[x] {
                    Value::Int(v) => {
                        self.locals.insert(*x, Value::Int(v.wrapping_add(*b as i8 as i32)));
                    }
                    _ => panic!("no number"),
                },
                Instruction::IntConst(v) => self.push(*v),
                Instruction::BoolConst(v) => self.push(*v as i32),
                Instruction::AConstNull => self.stack.push(Value::Ref(None)),
                Instruction::StringConst(v) => {
                    self.stack.push(Value::Text(Box::leak(v.clone().into_boxed_str())));
                }
                Instruction::CheckCast(class) => {
                    let v = self.any();
                    assert!(v == Value::Ref(None) || self.instance(v, class));
                    self.stack.push(v);
                }
                Instruction::InstanceOf(class) => {
                    let v = self.any();
                    let b = self.instance(v, class);
                    self.push(b as i32);
                }
                Instruction::GetStatic { class, name, .. } => {
                    assert_eq!((class.as_str(), name.as_str()), ("java/lang/System", "out"));
                    self.stack.push(Value::Stream);
                }
                Instruction::InvokeVirtual { class, name, args, .. } => {
                    assert_eq!((class.as_str(), name.as_str()), ("java/io/PrintStream", "print"));
                    assert_eq!(args.len(), 1);
                    let v = self.any();
                    assert_eq!(self.any(), Value::Stream);
                    self.output.push(v);
                }
                Instruction::Dup => {
                    let v = self.any();
                    self.stack.extend(vec![v, v]);
                }
                Instruction::DupX1 => {
                    let (b, a) = (self.any(), self.any());
                    self.stack.extend(vec![b, a, b]);
                }
                Instruction::DupX2 => {
                    let (c, b, a) = (self.any(), self.any(), self.any());
                    self.stack.extend(vec![c, a, b, c]);
                }
                Instruction::Dup2 => {
                    let (b, a) = (self.any(), self.any());
                    self.stack.extend(vec![a, b, a, b]);
                }
                Instruction::Pop => {
                    self.any();
                }
                Instruction::Swap => {
                    let (b, a) = (self.any(), self.any());
                    self.stack.extend(vec![b, a]);
                }
                Instruction::IAdd
                | Instruction::ISub
                | Instruction::IMul
                | Instruction::IDiv
                | Instruction::IRem
                | Instruction::IAnd
                | Instruction::IOr
                | Instruction::IXor
                | Instruction::IShl
                | Instruction::IUShr => {
                    let (b, a) = (self.whole(), self.whole());
                    let v = match insn {
                        Instruction::IAdd => a.wrapping_add(b),
                        Instruction::ISub => a.wrapping_sub(b),
                        Instruction::IMul => a.wrapping_mul(b),
                        Instruction::IDiv => a.wrapping_div(b),
                        Instruction::IRem => a.wrapping_rem(b),
                        Instruction::IAnd => a & b,
                        Instruction::IOr => a | b,
                        Instruction::IXor => a ^ b,
                        Instruction::IShl => a << (b & 31),
                        _ => ((a as u32) >> (b & 31)) as i32,
                    };
                    self.push(v);
                }
                Instruction::INeg => {
                    let v = self.whole();
                    self.push(v.wrapping_neg());
                }
                Instruction::IALoad | Instruction::BALoad | Instruction::AALoad => {
                    let (i, a) = (self.whole(), self.reference());
                    let v = self.array(a)[i as usize];
                    self.stack.push(v);
                }
                Instruction::IAStore | Instruction::BAStore | Instruction::AAStore => {
                    let (v, i, a) = (self.any(), self.whole(), self.reference());
                    self.array(a)[i as usize] = v;
                }
                Instruction::ArrayLength => {
                    let a = self.reference();
                    let n = self.array(a).len();
                    self.push(n as i32);
                }
                Instruction::NewIntArray | Instruction::NewBoolArray => {
                    let n = self.whole();
                    self.new_thing(Thing::Array(vec![Value::Int(0); n as usize]));
                }
                Instruction::ANewArray(_) => {
                    let n = self.whole();
                    self.new_thing(Thing::Array(vec![Value::Ref(None); n as usize]));
                }
                Instruction::New(class) => {
                    self.new_thing(Thing::Object(class.clone(), HashMap::new()));
                }
                Instruction::InvokeSpecial { .. } => {
                    self.reference();
                }
                Instruction::GetField { name, .. } => {
                    let a = self.reference();
                    match &self.heap[a] {
                        Thing::Object(_, f) => self.stack.push(f[name]),
                        Thing::Array(_) => panic!("no object"),
                    }
                }
                Instruction::PutField { name, .. } => {
                    let (v, a) = (self.any(), self.reference());
                    match &mut self.heap[a] {
                        Thing::Object(_, f) => {
                            f.insert(name.clone(), v);
                        }
                        Thing::Array(_) => panic!("no object"),
                    }
                }
                Instruction::InvokeStatic { args, .. } => {
                    // gives back the digits that it is passed, as one number
                    let passed = self.stack.split_off(self.stack.len() - args.len());
                    let n = passed.into_iter().fold(0, |n, v| match v {
                        Value::Int(d) => 10 * n + d,
                        other => panic!("no number: {:?}", other),
                    });
                    self.push(n);
                }
                Instruction::Label(_) => {}
                Instruction::Goto(l) => pc = place(*l),
                Instruction::IfEq(l) => {
                    if self.whole() == 0 {
                        pc = place(*l);
                    }
                }
                Instruction::IfNe(l) => {
                    if self.whole() != 0 {
                        pc = place(*l);
                    }
                }
                Instruction::IfLt(l) => {
                    if self.whole() < 0 {
                        pc = place(*l);
                    }
                }
                Instruction::IfACmpEq(l) => {
                    if self.any() == self.any() {
                        pc = place(*l);
                    }
                }
                Instruction::IfACmpNe(l) => {
                    if self.any() != self.any() {
                        pc = place(*l);
                    }
                }
                Instruction::IfICmpEq(l)
                | Instruction::IfICmpNe(l)
                | Instruction::IfICmpLt(l)
                | Instruction::IfICmpGe(l)
                | Instruction::IfICmpGt(l)
                | Instruction::IfICmpLe(l) => {
                    let (b, a) = (self.whole(), self.whole());
                    let yes = match insn {
                        Instruction::IfICmpEq(_) => a == b,
                        Instruction::IfICmpNe(_) => a != b,
                        Instruction::IfICmpLt(_) => a < b,
                        Instruction::IfICmpGe(_) => a >= b,
                        Instruction::IfICmpGt(_) => a > b,
                        _ => a <= b,
                    };
                    if yes {
                        pc = place(*l);
                    }
                }
                Instruction::IReturn | Instruction::AReturn => return Some(self.any()),
                Instruction::Return => return None,
                other => panic!("not on this machine: {:?}", other),
            }
        }
    }
}

// ---------------------------------------------------------------------------------------------
// Programs with one method
// ---------------------------------------------------------------------------------------------

// variables: 0 Point.x, 1 Point.y, 2 int i, 3 int j, 4 int[] a, 5 Point p, 6 Point q, 7 int e,
//            8 int k, 9 int[][] g, 10 int u, 11 int v
// methods: 0 Main.test(), 1 Main.digits(int u, int v): int
fn number() -> SemanticType {
    SemanticType::Basic(BasicType::Int)
}

fn boolean() -> SemanticType {
    SemanticType::Basic(BasicType::Bool)
}

fn array(t: SemanticType) -> SemanticType {
    SemanticType::Array(Box::new(t))
}

fn point() -> SemanticType {
    SemanticType::Object(1)
}

fn program(ret_t: SemanticType, stmt: Vec<Stmt>) -> Program {
    let symbol = |name: &str, type_: SemanticType, scope: ScopeKind| VarSymbol {
        name: name.to_owned(),
        type_,
        scope,
    };
    Program {
        class: vec![
            ClassDef {
                name: "Main".to_owned(),
                parent: None,
                sealed: false,
                field: vec![FieldDef::MethodDef(MethodDef { symbol: 0, body: Block { stmt } })],
            },
            ClassDef {
                name: "Point".to_owned(),
                parent: None,
                sealed: false,
                field: vec![FieldDef::VarDef(0), FieldDef::VarDef(1)],
            },
        ],
        main: Some(1),
        symbols: Symbols {
            var: vec![
                symbol("x", number(), ScopeKind::Class(1)),
                symbol("y", number(), ScopeKind::Class(1)),
                symbol("i", number(), ScopeKind::Local),
                symbol("j", number(), ScopeKind::Local),
                symbol("a", array(number()), ScopeKind::Local),
                symbol("p", point(), ScopeKind::Local),
                symbol("q", point(), ScopeKind::Local),
                symbol("e", number(), ScopeKind::Local),
                symbol("k", number(), ScopeKind::Local),
                symbol("g", array(array(number())), ScopeKind::Local),
                symbol("u", number(), ScopeKind::Parameter),
                symbol("v", number(), ScopeKind::Parameter),
            ],
            method: vec![
                MethodSymbol {
                    class: 0,
                    name: "test".to_owned(),
                    static_: true,
                    param: vec![],
                    ret_t,
                },
                MethodSymbol {
                    class: 0,
                    name: "digits".to_owned(),
                    static_: true,
                    param: vec![10, 11],
                    ret_t: number(),
                },
            ],
        },
    }
}

fn method(ret_t: SemanticType, stmt: Vec<Stmt>) -> (Vec<Insn>, u16) {
    let mut files =
        JvmCodeGen::new().try_gen(program(ret_t, stmt)).expect("code can be generated");
    let member: JMember = files[0].members.remove(1);
    match member {
        Member::Method { code, max_locals, .. } => (code, max_locals),
        Member::Field { .. } => panic!("a method"),
    }
}

fn run(ret_t: SemanticType, stmt: Vec<Stmt>) -> (Option<Value>, Machine) {
    let (code, max_locals) = method(ret_t, stmt);
    check_labels(&code);
    check_stack(&code);
    check_locals(&code, max_locals);
    let mut m = Machine::new();
    let v = m.run(&code);
    assert!(m.stack.is_empty());
    (v, m)
}

fn result(stmt: Vec<Stmt>) -> i32 {
    match run(number(), stmt).0 {
        Some(Value::Int(v)) => v,
        other => panic!("no number: {:?}", other),
    }
}

fn expr(type_: SemanticType, kind: ExprKind) -> Expr {
    Expr { type_, kind }
}

fn num(n: i32) -> Expr {
    expr(number(), ExprKind::Const(Const::IntConst(n)))
}

fn truth(b: bool) -> Expr {
    expr(boolean(), ExprKind::Const(Const::BoolConst(b)))
}

fn var(v: usize) -> Expr {
    let t = match v {
        4 => array(number()),
        5 | 6 => point(),
        9 => array(array(number())),
        _ => number(),
    };
    expr(
        t,
        ExprKind::Identifier(Identifier {
            symbol: Var::VarAssign(v),
            owner: None,
        }),
    )
}

fn field(v: usize, owner: Expr) -> Expr {
    expr(
        number(),
        ExprKind::Identifier(Identifier {
            symbol: Var::VarDef(v),
            owner: Some(Box::new(owner)),
        }),
    )
}

fn element(arr: Expr, idx: Expr) -> Expr {
    let t = match &arr.type_ {
        SemanticType::Array(t) => match **t {
            SemanticType::Basic(_) => number(),
            _ => array(number()),
        },
        _ => panic!("an array"),
    };
    expr(
        t,
        ExprKind::Indexed(Indexed { arr: Box::new(arr), idx: Box::new(idx) }),
    )
}

fn length(arr: Expr) -> Expr {
    expr(
        number(),
        ExprKind::Call(Call {
            owner: Some(Box::new(arr)),
            arg: vec![],
            method: None,
            is_arr_len: true,
        }),
    )
}

fn unary(op: Operator, r: Expr) -> Expr {
    expr(number(), ExprKind::Unary(Unary { op, r: Box::new(r) }))
}

fn binary(op: Operator, l: Expr, r: Expr) -> Expr {
    let t = match op {
        Operator::Repeat => match &l.type_ {
            SemanticType::Array(_) => array(array(number())),
            _ => array(number()),
        },
        _ => number(),
    };
    expr(t, ExprKind::Binary(Binary { op, l: Box::new(l), r: Box::new(r) }))
}

fn declare(v: usize, src: Expr) -> Stmt {
    Stmt::Simple(Simple::VarAssign(VarAssign { var: v, src: Some(src) }))
}

fn set(dst: Expr, src: Expr) -> Stmt {
    Stmt::Simple(Simple::Assign(Assign { dst, src }))
}

fn ret(e: Expr) -> Stmt {
    Stmt::Return(jvm_code_gen::ast::Return { expr: Some(e) })
}

fn block(stmt: Vec<Stmt>) -> Block {
    Block { stmt }
}

fn value(e: Expr) -> i32 {
    result(vec![ret(e)])
}

// ---------------------------------------------------------------------------------------------
// Checks on code
// ---------------------------------------------------------------------------------------------

fn target(i: &Insn) -> Option<u16> {
    match i {
        Instruction::Goto(l)
        | Instruction::IfEq(l)
        | Instruction::IfNe(l)
        | Instruction::IfLt(l)
        | Instruction::IfICmpEq(l)
        | Instruction::IfICmpNe(l)
        | Instruction::IfICmpLt(l)
        | Instruction::IfICmpGe(l)
        | Instruction::IfICmpGt(l)
        | Instruction::IfICmpLe(l)
        | Instruction::IfACmpEq(l)
        | Instruction::IfACmpNe(l) => Some(*l),
        _ => None,
    }
}

// Every label is placed once, in a row from 0 on, and every jump goes to one of them.
fn check_labels(code: &[Insn]) {
    let mut placed: Vec<u16> = code
        .iter()
        .filter_map(|i| match i {
            Instruction::Label(l) => Some(*l),
            _ => None,
        })
        .collect();
    placed.sort();
    assert_eq!(placed, (0..placed.len() as u16).collect::<Vec<u16>>());
    for i in code {
        if let Some(l) = target(i) {
            assert!((l as usize) < placed.len());
        }
    }
}

fn effect(i: &Insn) -> (usize, usize) {
    match i {
        Instruction::ILoad(_) | Instruction::ALoad(_) => (0, 1),
        Instruction::IStore(_) | Instruction::AStore(_) => (1, 0),
        Instruction::IInc(_, _) | Instruction::Label(_) | Instruction::Goto(_) => (0, 0),
        Instruction::IntConst(_)
        | Instruction::BoolConst(_)
        | Instruction::StringConst(_)
        | Instruction::AConstNull
        | Instruction::GetStatic { .. }
        | Instruction::New(_) => (0, 1),
        Instruction::Dup => (1, 2),
        Instruction::DupX1 => (2, 3),
        Instruction::DupX2 => (3, 4),
        Instruction::Dup2 => (2, 4),
        Instruction::Swap => (2, 2),
        Instruction::Pop | Instruction::IfEq(_) | Instruction::IfNe(_) | Instruction::IfLt(_) => {
            (1, 0)
        }
        Instruction::INeg
        | Instruction::ArrayLength
        | Instruction::NewIntArray
        | Instruction::NewBoolArray
        | Instruction::ANewArray(_)
        | Instruction::CheckCast(_)
        | Instruction::InstanceOf(_)
        | Instruction::GetField { .. } => (1, 1),
        Instruction::IALoad | Instruction::BALoad | Instruction::AALoad => (2, 1),
        Instruction::IAStore | Instruction::BAStore | Instruction::AAStore => (3, 0),
        Instruction::PutField { .. } | Instruction::InvokeVirtual { .. } => (2, 0),
        Instruction::InvokeSpecial { .. } => (1, 0),
        Instruction::InvokeStatic { args, .. } => (args.len(), 1),
        Instruction::IReturn | Instruction::AReturn => (1, 0),
        Instruction::Return => (0, 0),
        other => match target(other) {
            Some(_) => (2, 0),
            None => (2, 1),
        },
    }
}

// Every instruction is reached with one number of values on the stack.
fn check_stack(code: &[Insn]) {
    let mut at: HashMap<u16, usize> = HashMap::new();
    let mut depth: Option<usize> = Some(0);
    for i in code {
        if let Instruction::Label(l) = i {
            match (depth, at.get(l)) {
                (Some(d), Some(e)) => assert_eq!(d, *e),
                (None, Some(e)) => depth = Some(*e),
                (Some(d), None) => {
                    at.insert(*l, d);
                }
                (None, None) => panic!("a label that only later jumps lead to"),
            }
        }
        let (pops, pushes) = effect(i);
        let d = match depth {
            Some(d) => d,
            None => continue,
        };
        assert!(d >= pops);
        if let Some(l) = target(i) {
            assert_eq!(*at.entry(l).or_insert(d - pops), d - pops);
        }
        depth = match i {
            Instruction::Goto(_)
            | Instruction::IReturn
            | Instruction::AReturn
            | Instruction::Return => None,
            _ => Some(d - pops + pushes),
        };
    }
}

// Every local variable that is touched is among those that the method asks for.
fn check_locals(code: &[Insn], max_locals: u16) {
    for i in code {
        match i {
            Instruction::ILoad(x)
            | Instruction::IStore(x)
            | Instruction::ALoad(x)
            | Instruction::AStore(x)
            | Instruction::IInc(x, _) => assert!((*x as u16) < max_locals),
            _ => {}
        }
    }
}

// ---------------------------------------------------------------------------------------------
// Values
// ---------------------------------------------------------------------------------------------

#[test]
fn arithmetic() {
    assert_eq!(value(binary(Operator::Add, num(i32::MAX), num(1))), i32::MIN);
    assert_eq!(value(binary(Operator::Sub, num(3), num(5))), -2);
    assert_eq!(value(binary(Operator::Mul, num(-3), num(5))), -15);
    assert_eq!(value(binary(Operator::Div, num(-7), num(2))), -3);
    assert_eq!(value(binary(Operator::Mod, num(-7), num(2))), -1);
    assert_eq!(value(binary(Operator::BAnd, num(12), num(10))), 8);
    assert_eq!(value(binary(Operator::BOr, num(12), num(10))), 14);
    assert_eq!(value(binary(Operator::BXor, num(12), num(10))), 6);
    assert_eq!(value(binary(Operator::Shl, num(1), num(33))), 2);
    assert_eq!(value(binary(Operator::Shr, num(-1), num(28))), 15);
    assert_eq!(value(unary(Operator::Neg, num(4))), -4);
}

#[test]
fn comparisons() {
    assert_eq!(value(binary(Operator::Lt, num(1), num(2))), 1);
    assert_eq!(value(binary(Operator::Lt, num(2), num(2))), 0);
    assert_eq!(value(binary(Operator::Le, num(2), num(2))), 1);
    assert_eq!(value(binary(Operator::Gt, num(3), num(2))), 1);
    assert_eq!(value(binary(Operator::Ge, num(1), num(2))), 0);
    assert_eq!(value(binary(Operator::Eq, num(2), num(2))), 1);
    assert_eq!(value(binary(Operator::Ne, num(2), num(2))), 0);
    assert_eq!(value(unary(Operator::Not, truth(false))), 1);
    assert_eq!(value(unary(Operator::Not, truth(true))), 0);
}

#[test]
fn and_or_compute_their_right_operand_only_if_needed() {
    let count = |op, left| {
        result(vec![
            declare(2, num(0)),
            declare(3, binary(op, truth(left), unary(Operator::PreInc, var(2)))),
            ret(binary(Operator::Add, binary(Operator::Mul, var(2), num(10)), var(3))),
        ])
    };
    assert_eq!(count(Operator::And, true), 11);
    assert_eq!(count(Operator::And, false), 0);
    assert_eq!(count(Operator::Or, true), 1);
    assert_eq!(count(Operator::Or, false), 11);
}

// The value of an operator on a place that holds 5, times 100, and what is there afterwards.
fn counted(op: Operator, place: fn() -> Expr, before: Vec<Stmt>) -> i32 {
    let mut stmt = before;
    stmt.push(set(place(), num(5)));
    stmt.push(declare(8, unary(op, place())));
    stmt.push(ret(binary(Operator::Add, binary(Operator::Mul, var(8), num(100)), place())));
    result(stmt)
}

#[test]
fn counting_in_a_variable() {
    let place: fn() -> Expr = || var(2);
    let before = || vec![declare(2, num(0))];
    assert_eq!(counted(Operator::PreInc, place, before()), 606);
    assert_eq!(counted(Operator::PreDec, place, before()), 404);
    assert_eq!(counted(Operator::PostInc, place, before()), 506);
    assert_eq!(counted(Operator::PostDec, place, before()), 504);
}

#[test]
fn counting_in_a_field() {
    let place: fn() -> Expr = || field(0, var(5));
    let before = || {
        vec![declare(
            5,
            expr(point(), ExprKind::NewClass(NewClass { name: "Point".to_owned() })),
        )]
    };
    assert_eq!(counted(Operator::PreInc, place, before()), 606);
    assert_eq!(counted(Operator::PreDec, place, before()), 404);
    assert_eq!(counted(Operator::PostInc, place, before()), 506);
    assert_eq!(counted(Operator::PostDec, place, before()), 504);
}

#[test]
fn counting_in_an_array() {
    let place: fn() -> Expr = || element(var(4), num(1));
    let before = || {
        vec![declare(
            4,
            expr(array(number()), ExprKind::NewArray(NewArray { len: Box::new(num(3)) })),
        )]
    };
    assert_eq!(counted(Operator::PreInc, place, before()), 606);
    assert_eq!(counted(Operator::PreDec, place, before()), 404);
    assert_eq!(counted(Operator::PostInc, place, before()), 506);
    assert_eq!(counted(Operator::PostDec, place, before()), 504);
}

#[test]
fn a_repeated_value_fills_the_array() {
    let (_, m) = run(
        SemanticType::Basic(BasicType::Void),
        vec![declare(4, binary(Operator::Repeat, num(7), num(3)))],
    );
    assert_eq!(m.heap, vec![Thing::Array(vec![Value::Int(7); 3])]);
    let (_, m) = run(
        SemanticType::Basic(BasicType::Void),
        vec![declare(4, binary(Operator::Repeat, num(7), num(0)))],
    );
    assert_eq!(m.heap, vec![Thing::Array(vec![])]);
    let inner = binary(Operator::Repeat, num(1), num(2));
    let (_, m) = run(
        SemanticType::Basic(BasicType::Void),
        vec![declare(9, binary(Operator::Repeat, inner, num(2)))],
    );
    // both rows are one array
    assert_eq!(m.heap[1], Thing::Array(vec![Value::Ref(Some(0)); 2]));
}

#[test]
fn the_length_does_not_disturb_the_value() {
    let (_, m) = run(
        SemanticType::Basic(BasicType::Void),
        vec![
            declare(2, num(1)),
            declare(4, binary(Operator::Repeat, var(2), unary(Operator::PreInc, var(2)))),
        ],
    );
    assert_eq!(m.heap, vec![Thing::Array(vec![Value::Int(1); 2])]);
}

#[test]
fn a_repeated_value_inside_other_expressions() {
    let five = || binary(Operator::Repeat, num(5), num(3));
    assert_eq!(value(length(five())), 3);
    assert_eq!(value(element(five(), num(2))), 5);
    assert_eq!(
        value(binary(Operator::Add, element(five(), num(0)), element(five(), num(1)))),
        10
    );
    // the length of one is the length of another
    let inner = binary(Operator::Repeat, num(1), num(4));
    assert_eq!(value(length(binary(Operator::Repeat, num(2), length(inner)))), 4);
}

fn literal(s: &str) -> Expr {
    expr(
        SemanticType::Basic(BasicType::Text),
        ExprKind::Const(Const::StringConst(s.to_owned())),
    )
}

#[test]
fn literals_are_the_same_string_if_they_read_the_same() {
    let text = SemanticType::Basic(BasicType::Text);
    assert_eq!(run(text, vec![ret(literal("one"))]).0, Some(Value::Text("one")));
    assert_eq!(value(binary(Operator::Eq, literal("one"), literal("one"))), 1);
    assert_eq!(value(binary(Operator::Eq, literal("one"), literal("two"))), 0);
    assert_eq!(value(binary(Operator::Ne, literal("one"), literal("two"))), 1);
}

#[test]
fn casts_keep_the_object_and_tests_look_at_its_class() {
    let new = || expr(point(), ExprKind::NewClass(NewClass { name: "Point".to_owned() }));
    let null = || expr(SemanticType::Null, ExprKind::Const(Const::Null));
    let cast = |e: Expr| {
        expr(point(), ExprKind::TypeCast(TypeCast { expr: Box::new(e), name: "Point".to_owned() }))
    };
    let is = |e: Expr, class: &str| {
        expr(boolean(), ExprKind::TypeTest(TypeTest { expr: Box::new(e), name: class.to_owned() }))
    };
    assert_eq!(run(point(), vec![ret(cast(new()))]).0, Some(Value::Ref(Some(0))));
    assert_eq!(run(point(), vec![ret(cast(null()))]).0, Some(Value::Ref(None)));
    assert_eq!(value(is(new(), "Point")), 1);
    assert_eq!(value(is(new(), "java/lang/Object")), 1);
    assert_eq!(value(is(new(), "Main")), 0);
    assert_eq!(value(is(null(), "Point")), 0);
}

#[test]
fn arguments_are_found_and_passed_in_order() {
    let digits = |u: Expr, v: Expr| {
        expr(
            number(),
            ExprKind::Call(Call {
                owner: None,
                arg: vec![u, v],
                method: Some(1),
                is_arr_len: false,
            }),
        )
    };
    assert_eq!(value(digits(num(4), num(2))), 42);
    let count = || unary(Operator::PreInc, var(2));
    assert_eq!(result(vec![declare(2, num(0)), ret(digits(count(), count()))]), 12);
    // the result is one operand among others, and is dropped where it is not used
    assert_eq!(
        result(vec![
            declare(2, num(0)),
            Stmt::Simple(Simple::Expr(digits(count(), count()))),
            ret(binary(Operator::Sub, digits(num(5), num(0)), var(2))),
        ]),
        48
    );
}

#[test]
fn values_are_printed_in_order() {
    let (_, m) = run(
        SemanticType::Basic(BasicType::Void),
        vec![
            declare(2, num(4)),
            Stmt::Print(Print {
                print: vec![unary(Operator::PostInc, var(2)), literal("and"), var(2)],
            }),
        ],
    );
    assert_eq!(m.output, vec![Value::Int(4), Value::Text("and"), Value::Int(5)]);
}

#[test]
fn a_return_leaves_the_method_from_within_loops() {
    let n = result(vec![
        declare(2, num(0)),
        Stmt::While(While {
            cond: truth(true),
            body: block(vec![
                Stmt::Simple(Simple::Expr(unary(Operator::PreInc, var(2)))),
                Stmt::If(If {
                    cond: binary(Operator::Eq, var(2), num(3)),
                    on_true: block(vec![ret(binary(Operator::Mul, var(2), num(7)))]),
                    on_false: None,
                }),
            ]),
        }),
        ret(num(1)),
    ]);
    assert_eq!(n, 21);
}

#[test]
fn an_element_or_its_default() {
    let get = |i: i32| {
        let e = expr(
            number(),
            ExprKind::Default(DefaultIndexed {
                arr: Box::new(binary(Operator::Repeat, num(7), num(3))),
                idx: Box::new(num(i)),
                dft: Box::new(num(9)),
            }),
        );
        let (code, max_locals) = method(number(), vec![ret(e)]);
        check_labels(&code);
        check_stack(&code);
        check_locals(&code, max_locals);
        let mut m = Machine::new();
        let v = m.run(&code);
        // the index is left below the value
        assert_eq!(m.stack, vec![Value::Int(i)]);
        v
    };
    assert_eq!(get(0), Some(Value::Int(7)));
    assert_eq!(get(2), Some(Value::Int(7)));
    assert_eq!(get(3), Some(Value::Int(9)));
    assert_eq!(get(-1), Some(Value::Int(9)));
}

#[test]
fn branches_take_one_side() {
    let pick = |c: bool| {
        result(vec![
            declare(2, num(0)),
            Stmt::If(If {
                cond: truth(c),
                on_true: block(vec![set(var(2), num(1))]),
                on_false: Some(block(vec![set(var(2), num(2))])),
            }),
            ret(var(2)),
        ])
    };
    assert_eq!(pick(true), 1);
    assert_eq!(pick(false), 2);
}

#[test]
fn loops_run_to_their_end() {
    let sum = result(vec![
        declare(2, num(0)),
        declare(3, num(0)),
        Stmt::While(While {
            cond: binary(Operator::Lt, var(2), num(5)),
            body: block(vec![
                set(var(3), binary(Operator::Add, var(3), var(2))),
                set(var(2), binary(Operator::Add, var(2), num(1))),
            ]),
        }),
        ret(var(3)),
    ]);
    assert_eq!(sum, 10);
    let product = result(vec![
        declare(3, num(1)),
        Stmt::For(For {
            init: Simple::VarAssign(VarAssign { var: 2, src: Some(num(1)) }),
            cond: binary(Operator::Le, var(2), num(5)),
            update: Simple::Expr(unary(Operator::PostInc, var(2))),
            body: block(vec![set(var(3), binary(Operator::Mul, var(3), var(2)))]),
        }),
        ret(var(3)),
    ]);
    assert_eq!(product, 120);
}

#[test]
fn a_break_ends_the_loop() {
    let n = result(vec![
        declare(2, num(0)),
        Stmt::While(While {
            cond: truth(true),
            body: block(vec![
                set(var(2), binary(Operator::Add, var(2), num(1))),
                Stmt::If(If {
                    cond: binary(Operator::Eq, var(2), num(4)),
                    on_true: block(vec![Stmt::Break]),
                    on_false: None,
                }),
            ]),
        }),
        ret(var(2)),
    ]);
    assert_eq!(n, 4);
}

#[test]
fn a_walk_sees_every_element_until_its_condition_fails() {
    let sum = |cond: Option<Expr>| {
        result(vec![
            declare(4, binary(Operator::Repeat, num(3), num(4))),
            set(element(var(4), num(2)), num(10)),
            declare(3, num(0)),
            Stmt::Foreach(Foreach {
                def: 7,
                arr: var(4),
                cond,
                body: block(vec![set(var(3), binary(Operator::Add, var(3), var(7)))]),
            }),
            ret(var(3)),
        ])
    };
    assert_eq!(sum(None), 19);
    assert_eq!(sum(Some(binary(Operator::Lt, var(7), num(10)))), 6);
    assert_eq!(sum(Some(truth(false))), 0);
}

#[test]
fn guarded_blocks_each_look_at_their_condition() {
    let n = result(vec![
        declare(2, num(0)),
        Stmt::Guarded(Guarded {
            guarded: vec![
                (truth(true), block(vec![set(var(2), num(1))])),
                (
                    binary(Operator::Eq, var(2), num(1)),
                    block(vec![set(var(2), binary(Operator::Add, var(2), num(10)))]),
                ),
                (truth(false), block(vec![set(var(2), num(0))])),
            ],
        }),
        ret(var(2)),
    ]);
    assert_eq!(n, 11);
}

#[test]
fn a_copy_has_the_fields_and_its_own_place() {
    let n = result(vec![
        declare(5, expr(point(), ExprKind::NewClass(NewClass { name: "Point".to_owned() }))),
        set(field(0, var(5)), num(1)),
        set(field(1, var(5)), num(2)),
        Stmt::Simple(Simple::VarAssign(VarAssign { var: 6, src: None })),
        Stmt::SCopy(SCopy { dst_sym: Var::VarAssign(6), src: var(5) }),
        set(field(0, var(5)), num(7)),
        ret(binary(
            Operator::Add,
            binary(
                Operator::Add,
                binary(Operator::Mul, field(0, var(6)), num(100)),
                binary(Operator::Mul, field(1, var(6)), num(10)),
            ),
            field(0, var(5)),
        )),
    ]);
    assert_eq!(n, 127);
}

#[test]
fn the_length_of_a_new_array() {
    assert_eq!(
        value(length(expr(
            array(number()),
            ExprKind::NewArray(NewArray { len: Box::new(num(6)) }),
        ))),
        6
    );
}

#[test]
fn a_body_without_a_return_gives_the_initial_value() {
    assert_eq!(result(vec![declare(2, num(3))]), 0);
    assert_eq!(run(point(), vec![]).0, Some(Value::Ref(None)));
    assert_eq!(run(SemanticType::Basic(BasicType::Void), vec![]).0, None);
}

#[test]
fn no_two_variables_share_a_local_variable() {
    let p = program(
        SemanticType::Basic(BasicType::Void),
        vec![
            declare(2, num(1)),
            Stmt::Block(block(vec![declare(3, num(2))])),
            Stmt::Foreach(Foreach {
                def: 7,
                arr: binary(Operator::Repeat, num(1), num(2)),
                cond: None,
                body: block(vec![declare(8, num(3))]),
            }),
            declare(4, binary(Operator::Repeat, num(1), num(2))),
        ],
    );
    let mut g = JvmCodeGen::new();
    g.enter(p.symbols, p.main);
    assert!(g.try_program(&p.class).is_some());
    let mut slots: Vec<u8> = vec![2, 3, 7, 8, 4].into_iter().map(|v| g.slot[v]).collect();
    assert_eq!(slots, vec![0, 1, 2, 8, 9]);
    slots.dedup();
    assert_eq!(slots.len(), 5);
}
