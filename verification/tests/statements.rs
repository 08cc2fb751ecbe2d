//! The code of single statements, written out.

use jvm_code_gen::ast::{
    Assign, BasicType, Block, Call, ClassDef, Const, Expr, ExprKind, FieldDef, For, Foreach,
    Guarded, Identifier, If, Indexed, MethodSymbol, Operator, Print, Return, SCopy, ScopeKind,
    SemanticType, Simple, Stmt, Symbols, Unary, Var, VarAssign, VarSymbol, While,
};
use jvm_code_gen::check::Cost;
use jvm_code_gen::instr::{Access, Insn, Instruction, JavaType, Member};
use jvm_code_gen::jvm_code_gen::JvmCodeGen;

// classes: 0 Main, 1 Point with the fields x and y
// variables: 0 Point.x, 1 Point.y, 2 int i, 3 boolean b, 4 int[] a, 5 Point p, 6 Point q,
//            7 int k, 8 string s, 9 boolean c, 10 int e, 11 Point z
// methods: 0 Main.run(): void, 1 Main.get(): int

fn number() -> SemanticType {
    SemanticType::Basic(BasicType::Int)
}

fn boolean() -> SemanticType {
    SemanticType::Basic(BasicType::Bool)
}

fn text() -> SemanticType {
    SemanticType::Basic(BasicType::Text)
}

fn void() -> SemanticType {
    SemanticType::Basic(BasicType::Void)
}

fn array(t: SemanticType) -> SemanticType {
    SemanticType::Array(Box::new(t))
}

fn point() -> SemanticType {
    SemanticType::Object(1)
}

fn symbol(name: &str, type_: SemanticType, scope: ScopeKind) -> VarSymbol<String> {
    VarSymbol { name: name.to_owned(), type_, scope }
}

fn classes() -> Vec<ClassDef> {
    vec![
        ClassDef { name: "Main".to_owned(), parent: None, sealed: false, field: vec![] },
        ClassDef {
            name: "Point".to_owned(),
            parent: None,
            sealed: false,
            field: vec![FieldDef::VarDef(0), FieldDef::VarDef(1)],
        },
    ]
}

fn generator() -> JvmCodeGen {
    let mut g = JvmCodeGen::new();
    g.symbols = Symbols {
        var: vec![
            symbol("x", number(), ScopeKind::Class(1)),
            symbol("y", boolean(), ScopeKind::Class(1)),
            symbol("i", number(), ScopeKind::Local),
            symbol("b", boolean(), ScopeKind::Local),
            symbol("a", array(number()), ScopeKind::Local),
            symbol("p", point(), ScopeKind::Local),
            symbol("q", point(), ScopeKind::Local),
            symbol("k", number(), ScopeKind::Local),
            symbol("s", text(), ScopeKind::Local),
            symbol("c", boolean(), ScopeKind::Local),
            symbol("e", number(), ScopeKind::Local),
            symbol("z", point(), ScopeKind::Local),
        ],
        method: vec![
            MethodSymbol {
                class: 0,
                name: "run".to_owned(),
                static_: true,
                param: vec![],
                ret_t: void(),
            },
            MethodSymbol {
                class: 0,
                name: "get".to_owned(),
                static_: true,
                param: vec![],
                ret_t: number(),
            },
        ],
    };
    g.slot = vec![0, 0, 2, 3, 4, 5, 6, 0, 0, 0, 0, 0];
    g.stack_index = 7;
    g
}

fn expr(type_: SemanticType, kind: ExprKind) -> Expr {
    Expr { type_, kind }
}

fn num(n: i32) -> Expr {
    expr(number(), ExprKind::Const(Const::IntConst(n)))
}

fn truth(b: bool) -> Expr {
    expr(boolean(), ExprKind::Const(Const::BoolConst(b)))
}

fn variable(v: usize, t: SemanticType) -> Expr {
    expr(
        t,
        ExprKind::Identifier(Identifier {
            symbol: Var::VarDef(v),
            owner: None,
        }),
    )
}

fn call(method: usize, t: SemanticType) -> Expr {
    expr(
        t,
        ExprKind::Call(Call {
            owner: None,
            arg: vec![],
            method: Some(method),
            is_arr_len: false,
        }),
    )
}

fn assign(dst: Expr, src: Expr) -> Simple {
    Simple::Assign(Assign { dst, src })
}

fn set_i(n: i32) -> Stmt {
    Stmt::Simple(assign(variable(2, number()), num(n)))
}

fn block(stmt: Vec<Stmt>) -> Block {
    Block { stmt }
}

fn next_i() -> Simple {
    Simple::Expr(expr(
        number(),
        ExprKind::Unary(Unary {
            op: Operator::PostInc,
            r: Box::new(variable(2, number())),
        }),
    ))
}

fn generated(s: &Stmt) -> JvmCodeGen {
    let classes = classes();
    let mut g = generator();
    let cost = g.check_stmt(&classes, s, false).expect("code can be generated");
    g.stmt(&classes, s);
    assert_eq!(g.label as u32, cost.labels);
    assert_eq!(g.stack_index as u32, 7 + cost.locals);
    assert!(g.break_stack.is_empty());
    g
}

fn code(s: &Stmt) -> Vec<Insn> {
    generated(s).code
}

fn refused(s: &Stmt) -> bool {
    generator().check_stmt(&classes(), s, false).is_none()
}

#[test]
fn assignments_to_variables() {
    assert_eq!(code(&set_i(5)), vec![Instruction::IntConst(5), Instruction::IStore(2)]);
    assert_eq!(
        code(&Stmt::Simple(assign(variable(5, point()), variable(6, point())))),
        vec![Instruction::ALoad(6), Instruction::AStore(5)]
    );
}

#[test]
fn assignments_to_fields() {
    let dst = expr(
        number(),
        ExprKind::Identifier(Identifier {
            symbol: Var::VarDef(0),
            owner: Some(Box::new(variable(5, point()))),
        }),
    );
    assert_eq!(
        code(&Stmt::Simple(assign(dst, num(5)))),
        vec![
            Instruction::ALoad(5),
            Instruction::IntConst(5),
            Instruction::PutField {
                class: "Point".to_owned(),
                name: "x".to_owned(),
                type_: JavaType::Int,
            },
        ]
    );
}

#[test]
fn assignments_to_elements() {
    let dst = |t| {
        expr(
            t,
            ExprKind::Indexed(Indexed {
                arr: Box::new(variable(4, array(number()))),
                idx: Box::new(num(1)),
            }),
        )
    };
    let stored = |insn| {
        vec![Instruction::ALoad(4), Instruction::IntConst(1), Instruction::IntConst(5), insn]
    };
    assert_eq!(
        code(&Stmt::Simple(assign(dst(number()), num(5)))),
        stored(Instruction::IAStore)
    );
    assert_eq!(
        code(&Stmt::Simple(assign(dst(boolean()), num(5)))),
        stored(Instruction::BAStore)
    );
    assert_eq!(code(&Stmt::Simple(assign(dst(text()), num(5)))), stored(Instruction::AAStore));
    assert!(refused(&Stmt::Simple(assign(dst(void()), num(5)))));
    assert!(refused(&Stmt::Simple(assign(num(1), num(5)))));
}

#[test]
fn declared_variables_take_the_next_slot() {
    let s = Stmt::Simple(Simple::VarAssign(VarAssign { var: 7, src: Some(num(9)) }));
    let g = generated(&s);
    assert_eq!(g.code, vec![Instruction::IntConst(9), Instruction::IStore(7)]);
    assert_eq!(g.slot[7], 7);
    let s = Stmt::Simple(Simple::VarAssign(VarAssign { var: 7, src: None }));
    assert_eq!(code(&s), vec![Instruction::IntConst(0), Instruction::IStore(7)]);
    let s = Stmt::Simple(Simple::VarAssign(VarAssign { var: 9, src: None }));
    assert_eq!(code(&s), vec![Instruction::IntConst(0), Instruction::IStore(7)]);
    let s = Stmt::Simple(Simple::VarAssign(VarAssign { var: 8, src: None }));
    assert_eq!(code(&s), vec![Instruction::AConstNull, Instruction::AStore(7)]);
    let s = Stmt::Simple(Simple::VarAssign(VarAssign { var: 12, src: None }));
    assert!(refused(&s));
}

#[test]
fn values_of_statements_are_dropped() {
    assert_eq!(
        code(&Stmt::Simple(next_i())),
        vec![Instruction::ILoad(2), Instruction::IInc(2, 1), Instruction::Pop]
    );
    let invoke = |name: &str, ret| Instruction::InvokeStatic {
        class: "Main".to_owned(),
        name: name.to_owned(),
        args: vec![],
        ret,
    };
    assert_eq!(
        code(&Stmt::Simple(Simple::Expr(call(1, number())))),
        vec![invoke("get", JavaType::Int), Instruction::Pop]
    );
    assert_eq!(
        code(&Stmt::Simple(Simple::Expr(call(0, void())))),
        vec![invoke("run", JavaType::Void)]
    );
    assert_eq!(code(&Stmt::Simple(Simple::Skip)), vec![]);
}

#[test]
fn branches() {
    let with_else = Stmt::If(If {
        cond: variable(3, boolean()),
        on_true: block(vec![set_i(1)]),
        on_false: Some(block(vec![set_i(2)])),
    });
    assert_eq!(
        code(&with_else),
        vec![
            Instruction::ILoad(3),
            Instruction::IfEq(0),
            Instruction::IntConst(1),
            Instruction::IStore(2),
            Instruction::Goto(1),
            Instruction::Label(0),
            Instruction::IntConst(2),
            Instruction::IStore(2),
            Instruction::Label(1),
        ]
    );
    let without = Stmt::If(If {
        cond: variable(3, boolean()),
        on_true: block(vec![set_i(1)]),
        on_false: None,
    });
    assert_eq!(
        code(&without),
        vec![
            Instruction::ILoad(3),
            Instruction::IfEq(0),
            Instruction::IntConst(1),
            Instruction::IStore(2),
            Instruction::Goto(1),
            Instruction::Label(0),
            Instruction::Label(1),
        ]
    );
}

#[test]
fn while_loops() {
    let s = Stmt::While(While {
        cond: variable(3, boolean()),
        body: block(vec![set_i(1), Stmt::Break]),
    });
    assert_eq!(
        code(&s),
        vec![
            Instruction::Label(0),
            Instruction::ILoad(3),
            Instruction::IfEq(1),
            Instruction::IntConst(1),
            Instruction::IStore(2),
            Instruction::Goto(1),
            Instruction::Goto(0),
            Instruction::Label(1),
        ]
    );
}

#[test]
fn for_loops() {
    let s = Stmt::For(For {
        init: Simple::VarAssign(VarAssign { var: 7, src: Some(num(0)) }),
        cond: truth(true),
        update: next_i(),
        body: block(vec![Stmt::Break]),
    });
    assert_eq!(
        code(&s),
        vec![
            Instruction::IntConst(0),
            Instruction::IStore(7),
            Instruction::Label(0),
            Instruction::BoolConst(true),
            Instruction::IfEq(1),
            Instruction::Goto(1),
            Instruction::ILoad(2),
            Instruction::IInc(2, 1),
            Instruction::Pop,
            Instruction::Goto(0),
            Instruction::Label(1),
        ]
    );
}

#[test]
fn a_break_leaves_the_innermost_loop() {
    let inner = Stmt::While(While { cond: truth(true), body: block(vec![Stmt::Break]) });
    let s = Stmt::While(While {
        cond: truth(true),
        body: block(vec![inner, Stmt::Break]),
    });
    assert_eq!(
        code(&s),
        vec![
            Instruction::Label(0),
            Instruction::BoolConst(true),
            Instruction::IfEq(1),
            Instruction::Label(2),
            Instruction::BoolConst(true),
            Instruction::IfEq(3),
            Instruction::Goto(3),
            Instruction::Goto(2),
            Instruction::Label(3),
            Instruction::Goto(1),
            Instruction::Goto(0),
            Instruction::Label(1),
        ]
    );
}

#[test]
fn a_break_outside_loops_is_refused() {
    assert!(refused(&Stmt::Break));
    assert!(refused(&Stmt::Block(block(vec![Stmt::Break]))));
    assert!(refused(&Stmt::Guarded(Guarded {
        guarded: vec![(truth(true), block(vec![Stmt::Break]))],
    })));
}

#[test]
fn ways_out_of_a_method() {
    assert_eq!(
        code(&Stmt::Return(Return { expr: Some(num(1)) })),
        vec![Instruction::IntConst(1), Instruction::IReturn]
    );
    assert_eq!(
        code(&Stmt::Return(Return { expr: Some(variable(5, point())) })),
        vec![Instruction::ALoad(5), Instruction::AReturn]
    );
    assert_eq!(code(&Stmt::Return(Return { expr: None })), vec![Instruction::Return]);
    assert!(refused(&Stmt::Return(Return { expr: Some(call(0, void())) })));
}

#[test]
fn printing_goes_value_by_value() {
    let s = Stmt::Print(Print {
        print: vec![
            num(1),
            expr(text(), ExprKind::Const(Const::StringConst("a".to_owned()))),
        ],
    });
    let stream = || Instruction::GetStatic {
        class: "java/lang/System".to_owned(),
        name: "out".to_owned(),
        type_: JavaType::Class("java/io/PrintStream".to_owned()),
    };
    let print = |t| Instruction::InvokeVirtual {
        class: "java/io/PrintStream".to_owned(),
        name: "print".to_owned(),
        args: vec![t],
        ret: JavaType::Void,
    };
    assert_eq!(
        code(&s),
        vec![
            stream(),
            Instruction::IntConst(1),
            print(JavaType::Int),
            stream(),
            Instruction::StringConst("a".to_owned()),
            print(JavaType::Class("java/lang/String".to_owned())),
        ]
    );
    let null = expr(SemanticType::Null, ExprKind::Const(Const::Null));
    assert!(refused(&Stmt::Print(Print { print: vec![null] })));
}

#[test]
fn a_shallow_copy_takes_every_field() {
    let s = Stmt::SCopy(SCopy { dst_sym: Var::VarAssign(6), src: variable(5, point()) });
    let name = || "Point".to_owned();
    assert_eq!(
        code(&s),
        vec![
            Instruction::ALoad(5),
            Instruction::AStore(7),
            Instruction::New(name()),
            Instruction::Dup,
            Instruction::InvokeSpecial {
                class: name(),
                name: "<init>".to_owned(),
                args: vec![],
                ret: JavaType::Void,
            },
            Instruction::AStore(8),
            Instruction::ALoad(8),
            Instruction::ALoad(7),
            Instruction::GetField { class: name(), name: "x".to_owned(), type_: JavaType::Int },
            Instruction::PutField { class: name(), name: "x".to_owned(), type_: JavaType::Int },
            Instruction::ALoad(8),
            Instruction::ALoad(7),
            Instruction::GetField {
                class: name(),
                name: "y".to_owned(),
                type_: JavaType::Boolean,
            },
            Instruction::PutField {
                class: name(),
                name: "y".to_owned(),
                type_: JavaType::Boolean,
            },
            Instruction::ALoad(8),
            Instruction::AStore(6),
        ]
    );
    let s = Stmt::SCopy(SCopy { dst_sym: Var::VarAssign(6), src: num(1) });
    assert!(refused(&s));
}

#[test]
fn walks_over_arrays() {
    let s = Stmt::Foreach(Foreach {
        def: 10,
        arr: variable(4, array(number())),
        cond: Some(variable(3, boolean())),
        body: block(vec![Stmt::Break]),
    });
    let g = generated(&s);
    assert_eq!(g.slot[10], 7);
    assert_eq!(
        g.code,
        vec![
            Instruction::IntConst(0),
            Instruction::IStore(8),
            Instruction::ALoad(4),
            Instruction::AStore(9),
            Instruction::Label(0),
            Instruction::ILoad(8),
            Instruction::ALoad(9),
            Instruction::ArrayLength,
            Instruction::IfICmpGe(1),
            Instruction::ALoad(9),
            Instruction::ILoad(8),
            Instruction::IALoad,
            Instruction::IStore(7),
            Instruction::ILoad(3),
            Instruction::IfEq(1),
            Instruction::Goto(1),
            Instruction::IInc(8, 1),
            Instruction::Goto(0),
            Instruction::Label(1),
        ]
    );
}

#[test]
fn walks_load_by_the_type_of_the_variable() {
    let head = |def| {
        let s = Stmt::Foreach(Foreach {
            def,
            arr: variable(4, array(number())),
            cond: None,
            body: block(vec![]),
        });
        let mut c = code(&s);
        assert_eq!(c.len(), 16);
        (c.remove(11), c.remove(11))
    };
    assert_eq!(head(10), (Instruction::IALoad, Instruction::IStore(7)));
    assert_eq!(head(9), (Instruction::BALoad, Instruction::IStore(7)));
    assert_eq!(head(11), (Instruction::AALoad, Instruction::AStore(7)));
}

#[test]
fn a_loop_variable_that_is_a_field_is_added_to_the_class() {
    let s = Stmt::Foreach(Foreach {
        def: 0,
        arr: variable(4, array(number())),
        cond: None,
        body: block(vec![]),
    });
    let g = generated(&s);
    assert_eq!(
        g.members,
        vec![Member::Field {
            access: Access { public: true, static_: false, final_: false },
            name: "x".to_owned(),
            type_: JavaType::Int,
        }]
    );
    // only the counter and the array get local variables
    assert_eq!((g.slot[0], g.stack_index), (0, 9));
    assert_eq!(
        g.code,
        vec![
            Instruction::IntConst(0),
            Instruction::IStore(7),
            Instruction::ALoad(4),
            Instruction::AStore(8),
            Instruction::Label(0),
            Instruction::ILoad(7),
            Instruction::ALoad(8),
            Instruction::ArrayLength,
            Instruction::IfICmpGe(1),
            Instruction::ALoad(8),
            Instruction::ILoad(7),
            Instruction::IALoad,
            Instruction::IStore(0),
            Instruction::IInc(7, 1),
            Instruction::Goto(0),
            Instruction::Label(1),
        ]
    );
}

#[test]
fn a_loop_variable_outside_all_classes_is_refused() {
    let mut g = generator();
    g.symbols.var[10].scope = ScopeKind::Global;
    let s = Stmt::Foreach(Foreach {
        def: 10,
        arr: variable(4, array(number())),
        cond: None,
        body: block(vec![]),
    });
    assert!(g.check_stmt(&classes(), &s, false).is_none());
}

#[test]
fn guarded_blocks_run_one_after_another() {
    let s = Stmt::Guarded(Guarded {
        guarded: vec![
            (variable(3, boolean()), block(vec![set_i(1)])),
            (truth(true), block(vec![set_i(2)])),
        ],
    });
    assert_eq!(
        code(&s),
        vec![
            Instruction::ILoad(3),
            Instruction::IfEq(0),
            Instruction::IntConst(1),
            Instruction::IStore(2),
            Instruction::Label(0),
            Instruction::BoolConst(true),
            Instruction::IfEq(1),
            Instruction::IntConst(2),
            Instruction::IStore(2),
            Instruction::Label(1),
        ]
    );
}

#[test]
fn costs_add_up_to_the_limit() {
    let a = Cost { labels: 3, locals: 4 };
    let b = Cost { labels: 65536, locals: 1 };
    assert_eq!(a.plus(a), Cost { labels: 6, locals: 8 });
    assert_eq!(a.plus(b), Cost { labels: 65536, locals: 5 });
    assert_eq!(a.and(2, 3), Cost { labels: 5, locals: 7 });
}
