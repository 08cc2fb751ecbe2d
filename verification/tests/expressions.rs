//! The code of single expressions, written out.

use jvm_code_gen::ast::{
    BasicType, Binary, Call, ClassDef, Const, DefaultIndexed, Expr, ExprKind, FieldDef, Identifier,
    Indexed, MethodSymbol, NewArray, NewClass, Operator, ScopeKind, SemanticType, Symbols,
    TypeCast, TypeTest, Unary, Var, VarSymbol,
};
use jvm_code_gen::check::Cost;
use jvm_code_gen::instr::{ElemClass, Insn, Instruction, JavaType};
use jvm_code_gen::jvm_code_gen::JvmCodeGen;

// classes: 0 Main, 1 Point
// variables: 0 Point.x, 1 Point.y, 2 int i, 3 boolean b, 4 int[] a, 5 Point p, 6 string s,
//            7 Point this, 8 int parameter, 9 a variable outside all classes, 10 boolean[] f,
//            11 void v
// methods: 0 Point.move(int), 1 Main.run(), 2 Main.twice(int)

fn number() -> SemanticType {
    SemanticType::Basic(BasicType::Int)
}

fn boolean() -> SemanticType {
    SemanticType::Basic(BasicType::Bool)
}

fn text() -> SemanticType {
    SemanticType::Basic(BasicType::Text)
}

fn void() -> SemanticType {
    SemanticType::Basic(BasicType::Void)
}

fn array(t: SemanticType) -> SemanticType {
    SemanticType::Array(Box::new(t))
}

fn point() -> SemanticType {
    SemanticType::Object(1)
}

fn symbol(name: &str, type_: SemanticType, scope: ScopeKind) -> VarSymbol<String> {
    VarSymbol { name: name.to_owned(), type_, scope }
}

fn method(
    class: usize,
    name: &str,
    static_: bool,
    param: Vec<usize>,
    ret_t: SemanticType,
) -> MethodSymbol<String, Vec<usize>> {
    MethodSymbol { class, name: name.to_owned(), static_, param, ret_t }
}

fn classes() -> Vec<ClassDef> {
    vec![
        ClassDef { name: "Main".to_owned(), parent: None, sealed: false, field: vec![] },
        ClassDef {
            name: "Point".to_owned(),
            parent: None,
            sealed: false,
            field: vec![FieldDef::VarDef(0), FieldDef::VarDef(1)],
        },
    ]
}

fn generator() -> JvmCodeGen {
    let mut g = JvmCodeGen::new();
    g.symbols = Symbols {
        var: vec![
            symbol("x", number(), ScopeKind::Class(1)),
            symbol("y", text(), ScopeKind::Class(1)),
            symbol("i", number(), ScopeKind::Local),
            symbol("b", boolean(), ScopeKind::Local),
            symbol("a", array(number()), ScopeKind::Local),
            symbol("p", point(), ScopeKind::Local),
            symbol("s", text(), ScopeKind::Local),
            symbol("this", point(), ScopeKind::Parameter),
            symbol("n", number(), ScopeKind::Parameter),
            symbol("out", number(), ScopeKind::Global),
            symbol("f", array(boolean()), ScopeKind::Local),
            symbol("v", void(), ScopeKind::Local),
        ],
        method: vec![
            method(1, "move", false, vec![7, 8], void()),
            method(0, "run", true, vec![], number()),
            method(0, "twice", true, vec![8], number()),
        ],
    };
    g.slot = vec![0, 0, 2, 3, 4, 5, 6, 0, 1, 0, 7, 8];
    g.stack_index = 9;
    g.label = 10;
    g
}

fn expr(type_: SemanticType, kind: ExprKind) -> Expr {
    Expr { type_, kind }
}

fn num(n: i32) -> Expr {
    expr(number(), ExprKind::Const(Const::IntConst(n)))
}

fn truth(b: bool) -> Expr {
    expr(boolean(), ExprKind::Const(Const::BoolConst(b)))
}

fn null() -> Expr {
    expr(SemanticType::Null, ExprKind::Const(Const::Null))
}

fn variable(v: usize, t: SemanticType) -> Expr {
    expr(
        t,
        ExprKind::Identifier(Identifier {
            symbol: Var::VarDef(v),
            owner: None,
        }),
    )
}

fn field(v: usize, t: SemanticType, owner: Expr) -> Expr {
    expr(
        t,
        ExprKind::Identifier(Identifier {
            symbol: Var::VarDef(v),
            owner: Some(Box::new(owner)),
        }),
    )
}

fn element(arr: Expr, idx: Expr, t: SemanticType) -> Expr {
    expr(
        t,
        ExprKind::Indexed(Indexed { arr: Box::new(arr), idx: Box::new(idx) }),
    )
}

fn unary(op: Operator, t: SemanticType, r: Expr) -> Expr {
    expr(t, ExprKind::Unary(Unary { op, r: Box::new(r) }))
}

fn binary(op: Operator, t: SemanticType, l: Expr, r: Expr) -> Expr {
    expr(t, ExprKind::Binary(Binary { op, l: Box::new(l), r: Box::new(r) }))
}

fn call(method: usize, t: SemanticType, owner: Option<Expr>, arg: Vec<Expr>) -> Expr {
    expr(
        t,
        ExprKind::Call(Call {
            owner: owner.map(Box::new),
            arg,
            method: Some(method),
            is_arr_len: false,
        }),
    )
}

fn code(e: &Expr) -> Vec<Insn> {
    let classes = classes();
    let mut g = generator();
    let cost = g.check_expr(&classes, e).expect("code can be generated");
    g.expr(&classes, e);
    assert_eq!(g.label as u32, 10 + cost.labels);
    assert_eq!(g.stack_index as u32, 9 + cost.locals);
    g.code
}

fn refused(e: &Expr) -> bool {
    generator().check_expr(&classes(), e).is_none()
}

fn get_x() -> Insn {
    Instruction::GetField {
        class: "Point".to_owned(),
        name: "x".to_owned(),
        type_: JavaType::Int,
    }
}

fn put_x() -> Insn {
    Instruction::PutField {
        class: "Point".to_owned(),
        name: "x".to_owned(),
        type_: JavaType::Int,
    }
}

#[test]
fn literals() {
    assert_eq!(code(&num(-7)), vec![Instruction::IntConst(-7)]);
    assert_eq!(code(&truth(true)), vec![Instruction::BoolConst(true)]);
    assert_eq!(
        code(&expr(text(), ExprKind::Const(Const::StringConst("hi".to_owned())))),
        vec![Instruction::StringConst("hi".to_owned())]
    );
    assert_eq!(code(&null()), vec![Instruction::AConstNull]);
}

#[test]
fn local_variables_are_loaded_by_type() {
    assert_eq!(code(&variable(2, number())), vec![Instruction::ILoad(2)]);
    assert_eq!(code(&variable(3, boolean())), vec![Instruction::ILoad(3)]);
    assert_eq!(code(&variable(4, array(number()))), vec![Instruction::ALoad(4)]);
    assert_eq!(code(&variable(5, point())), vec![Instruction::ALoad(5)]);
    assert_eq!(code(&variable(6, text())), vec![Instruction::ALoad(6)]);
    assert_eq!(code(&variable(8, number())), vec![Instruction::ILoad(1)]);
}

#[test]
fn declared_variables_are_loaded_from_their_slot() {
    let e = expr(
        number(),
        ExprKind::Identifier(Identifier {
            symbol: Var::VarAssign(2),
            owner: None,
        }),
    );
    assert_eq!(code(&e), vec![Instruction::ILoad(2)]);
}

#[test]
fn fields_belong_to_their_owner() {
    assert_eq!(
        code(&field(0, number(), variable(5, point()))),
        vec![Instruction::ALoad(5), get_x()]
    );
    assert_eq!(
        code(&field(1, text(), expr(point(), ExprKind::This))),
        vec![
            Instruction::ALoad(0),
            Instruction::GetField {
                class: "Point".to_owned(),
                name: "y".to_owned(),
                type_: JavaType::Class("java/lang/String".to_owned()),
            },
        ]
    );
}

#[test]
fn a_place_is_only_its_owner() {
    let classes = classes();
    let i = Identifier { symbol: Var::VarDef(0), owner: Some(Box::new(variable(5, point()))) };
    let mut g = generator();
    assert!(g.check_identifier(&classes, &i, true).is_some());
    g.identifier(&classes, &i, true);
    assert_eq!(g.code, vec![Instruction::ALoad(5)]);
    let i = Identifier { symbol: Var::VarDef(2), owner: None };
    let mut g = generator();
    assert!(g.check_identifier(&classes, &i, true).is_some());
    g.identifier(&classes, &i, true);
    assert_eq!(g.code, vec![]);
}

#[test]
fn the_place_of_an_element_is_its_array_and_its_index() {
    let classes = classes();
    let i = Indexed { arr: Box::new(variable(4, array(number()))), idx: Box::new(num(1)) };
    let mut g = generator();
    assert!(g.check_indexed(&classes, &i).is_some());
    g.indexed(&classes, &i, &number(), true);
    assert_eq!(g.code, vec![Instruction::ALoad(4), Instruction::IntConst(1)]);
}

#[test]
fn variables_that_have_no_code_are_refused() {
    assert!(refused(&variable(0, number())));
    assert!(refused(&variable(9, number())));
    assert!(refused(&variable(11, void())));
    assert!(refused(&variable(12, number())));
}

#[test]
fn elements_are_loaded_by_type() {
    assert_eq!(
        code(&element(variable(4, array(number())), num(1), number())),
        vec![Instruction::ALoad(4), Instruction::IntConst(1), Instruction::IALoad]
    );
    assert_eq!(
        code(&element(variable(10, array(boolean())), variable(2, number()), boolean())),
        vec![Instruction::ALoad(7), Instruction::ILoad(2), Instruction::BALoad]
    );
    assert_eq!(
        code(&element(null(), num(0), text())),
        vec![Instruction::AConstNull, Instruction::IntConst(0), Instruction::AALoad]
    );
    assert!(refused(&element(null(), num(0), void())));
}

#[test]
fn calls_pass_the_declared_types() {
    assert_eq!(
        code(&call(2, number(), None, vec![num(4)])),
        vec![
            Instruction::IntConst(4),
            Instruction::InvokeStatic {
                class: "Main".to_owned(),
                name: "twice".to_owned(),
                args: vec![JavaType::Int],
                ret: JavaType::Int,
            },
        ]
    );
    assert_eq!(
        code(&call(0, void(), Some(variable(5, point())), vec![num(4)])),
        vec![
            Instruction::ALoad(5),
            Instruction::IntConst(4),
            Instruction::InvokeVirtual {
                class: "Point".to_owned(),
                name: "move".to_owned(),
                args: vec![JavaType::Int],
                ret: JavaType::Void,
            },
        ]
    );
    assert!(refused(&call(3, number(), None, vec![])));
}

#[test]
fn the_length_of_an_array() {
    let length = |owner| {
        expr(
            number(),
            ExprKind::Call(Call { owner, arg: vec![], method: None, is_arr_len: true }),
        )
    };
    assert_eq!(
        code(&length(Some(Box::new(variable(4, array(number())))))),
        vec![Instruction::ALoad(4), Instruction::ArrayLength]
    );
    assert!(refused(&length(None)));
}

#[test]
fn negation() {
    assert_eq!(
        code(&unary(Operator::Neg, number(), num(3))),
        vec![Instruction::IntConst(3), Instruction::INeg]
    );
    assert_eq!(
        code(&unary(Operator::Not, boolean(), variable(3, boolean()))),
        vec![
            Instruction::ILoad(3),
            Instruction::IfEq(10),
            Instruction::BoolConst(false),
            Instruction::Goto(11),
            Instruction::Label(10),
            Instruction::BoolConst(true),
            Instruction::Label(11),
        ]
    );
    assert!(refused(&unary(Operator::Add, number(), num(3))));
}

#[test]
fn counting_a_local_variable() {
    assert_eq!(
        code(&unary(Operator::PreInc, number(), variable(2, number()))),
        vec![Instruction::IInc(2, 1), Instruction::ILoad(2)]
    );
    assert_eq!(
        code(&unary(Operator::PreDec, number(), variable(2, number()))),
        vec![Instruction::IInc(2, 255), Instruction::ILoad(2)]
    );
    assert_eq!(
        code(&unary(Operator::PostInc, number(), variable(2, number()))),
        vec![Instruction::ILoad(2), Instruction::IInc(2, 1)]
    );
    assert_eq!(
        code(&unary(Operator::PostDec, number(), variable(2, number()))),
        vec![Instruction::ILoad(2), Instruction::IInc(2, 255)]
    );
}

#[test]
fn counting_a_field() {
    assert_eq!(
        code(&unary(Operator::PreDec, number(), field(0, number(), variable(5, point())))),
        vec![
            Instruction::ALoad(5),
            Instruction::Dup,
            get_x(),
            Instruction::IntConst(-1),
            Instruction::IAdd,
            Instruction::DupX1,
            put_x(),
        ]
    );
    assert_eq!(
        code(&unary(Operator::PostInc, number(), field(0, number(), variable(5, point())))),
        vec![
            Instruction::ALoad(5),
            Instruction::Dup,
            get_x(),
            Instruction::DupX1,
            Instruction::IntConst(1),
            Instruction::IAdd,
            put_x(),
        ]
    );
    assert!(refused(&unary(Operator::PostInc, number(), variable(0, number()))));
}

#[test]
fn counting_an_element() {
    let place = || element(variable(4, array(number())), num(2), number());
    assert_eq!(
        code(&unary(Operator::PreInc, number(), place())),
        vec![
            Instruction::ALoad(4),
            Instruction::IntConst(2),
            Instruction::Dup2,
            Instruction::IALoad,
            Instruction::IntConst(1),
            Instruction::IAdd,
            Instruction::DupX2,
            Instruction::IAStore,
        ]
    );
    assert_eq!(
        code(&unary(Operator::PostDec, number(), place())),
        vec![
            Instruction::ALoad(4),
            Instruction::IntConst(2),
            Instruction::Dup2,
            Instruction::IALoad,
            Instruction::DupX2,
            Instruction::IntConst(-1),
            Instruction::IAdd,
            Instruction::IAStore,
        ]
    );
    assert!(refused(&unary(Operator::PreInc, number(), num(1))));
}

#[test]
fn both_forms_of_counting_have_the_same_instructions() {
    let places: Vec<fn() -> Expr> = vec![
        || variable(2, number()),
        || field(0, number(), variable(5, point())),
        || field(0, number(), call(1, point(), None, vec![])),
        || element(variable(4, array(number())), call(1, number(), None, vec![]), number()),
    ];
    let sorted = |op, place: fn() -> Expr| {
        let mut names: Vec<String> =
            code(&unary(op, number(), place())).iter().map(|i| format!("{:?}", i)).collect();
        names.sort();
        names
    };
    for place in places {
        assert_eq!(sorted(Operator::PreInc, place), sorted(Operator::PostInc, place));
        assert_eq!(sorted(Operator::PreDec, place), sorted(Operator::PostDec, place));
    }
}

#[test]
fn operators_on_numbers() {
    let operators = vec![
        (Operator::Add, Instruction::IAdd),
        (Operator::Sub, Instruction::ISub),
        (Operator::Mul, Instruction::IMul),
        (Operator::Div, Instruction::IDiv),
        (Operator::Mod, Instruction::IRem),
        (Operator::BAnd, Instruction::IAnd),
        (Operator::BOr, Instruction::IOr),
        (Operator::BXor, Instruction::IXor),
        (Operator::Shl, Instruction::IShl),
        (Operator::Shr, Instruction::IUShr),
    ];
    for (op, insn) in operators {
        assert_eq!(
            code(&binary(op, number(), num(6), num(2))),
            vec![Instruction::IntConst(6), Instruction::IntConst(2), insn]
        );
    }
    assert!(refused(&binary(Operator::Neg, number(), num(6), num(2))));
}

fn comparison(l: Insn, r: Insn, branch: Insn) -> Vec<Insn> {
    vec![
        l,
        r,
        branch,
        Instruction::BoolConst(false),
        Instruction::Goto(11),
        Instruction::Label(10),
        Instruction::BoolConst(true),
        Instruction::Label(11),
    ]
}

#[test]
fn comparisons_of_numbers() {
    let operators = vec![
        (Operator::Le, Instruction::IfICmpLe(10)),
        (Operator::Lt, Instruction::IfICmpLt(10)),
        (Operator::Ge, Instruction::IfICmpGe(10)),
        (Operator::Gt, Instruction::IfICmpGt(10)),
        (Operator::Eq, Instruction::IfICmpEq(10)),
        (Operator::Ne, Instruction::IfICmpNe(10)),
    ];
    for (op, branch) in operators {
        assert_eq!(
            code(&binary(op, boolean(), num(6), num(2))),
            comparison(Instruction::IntConst(6), Instruction::IntConst(2), branch)
        );
    }
}

#[test]
fn comparisons_of_references() {
    assert_eq!(
        code(&binary(Operator::Eq, boolean(), variable(5, point()), null())),
        comparison(Instruction::ALoad(5), Instruction::AConstNull, Instruction::IfACmpEq(10))
    );
    assert_eq!(
        code(&binary(Operator::Ne, boolean(), variable(6, text()), variable(6, text()))),
        comparison(Instruction::ALoad(6), Instruction::ALoad(6), Instruction::IfACmpNe(10))
    );
    assert_eq!(
        code(&binary(Operator::Ne, boolean(), null(), variable(5, point()))),
        comparison(Instruction::AConstNull, Instruction::ALoad(5), Instruction::IfACmpNe(10))
    );
    // arrays are compared like numbers
    assert_eq!(
        code(&binary(Operator::Eq, boolean(), variable(4, array(number())), null())),
        comparison(Instruction::ALoad(4), Instruction::AConstNull, Instruction::IfICmpEq(10))
    );
}

#[test]
fn and_skips_its_right_operand() {
    assert_eq!(
        code(&binary(Operator::And, boolean(), truth(true), variable(3, boolean()))),
        vec![
            Instruction::BoolConst(true),
            Instruction::IfEq(11),
            Instruction::ILoad(3),
            Instruction::IfEq(11),
            Instruction::BoolConst(true),
            Instruction::Goto(10),
            Instruction::Label(11),
            Instruction::BoolConst(false),
            Instruction::Label(10),
        ]
    );
}

#[test]
fn or_skips_its_right_operand() {
    assert_eq!(
        code(&binary(Operator::Or, boolean(), truth(true), variable(3, boolean()))),
        vec![
            Instruction::BoolConst(true),
            Instruction::IfNe(11),
            Instruction::ILoad(3),
            Instruction::IfNe(11),
            Instruction::BoolConst(false),
            Instruction::Goto(10),
            Instruction::Label(11),
            Instruction::BoolConst(true),
            Instruction::Label(10),
        ]
    );
}

fn repeated(value: Insn, store: Insn, new: Insn, load: Insn, put: Insn) -> Vec<Insn> {
    vec![
        value,
        store,
        Instruction::IntConst(3),
        new,
        Instruction::AStore(11),
        Instruction::IntConst(0),
        Instruction::IStore(10),
        Instruction::Label(10),
        Instruction::ILoad(10),
        Instruction::ALoad(11),
        Instruction::ArrayLength,
        Instruction::IfICmpGe(11),
        Instruction::ALoad(11),
        Instruction::ILoad(10),
        load,
        put,
        Instruction::IInc(10, 1),
        Instruction::Goto(10),
        Instruction::Label(11),
        Instruction::ALoad(11),
    ]
}

#[test]
fn repetition_fills_a_new_array() {
    assert_eq!(
        code(&binary(Operator::Repeat, array(number()), num(7), num(3))),
        repeated(
            Instruction::IntConst(7),
            Instruction::IStore(9),
            Instruction::NewIntArray,
            Instruction::ILoad(9),
            Instruction::IAStore,
        )
    );
    assert_eq!(
        code(&binary(Operator::Repeat, array(boolean()), truth(true), num(3))),
        repeated(
            Instruction::BoolConst(true),
            Instruction::IStore(9),
            Instruction::NewBoolArray,
            Instruction::ILoad(9),
            Instruction::BAStore,
        )
    );
    assert_eq!(
        code(&binary(Operator::Repeat, array(point()), variable(5, point()), num(3))),
        repeated(
            Instruction::ALoad(5),
            Instruction::AStore(9),
            Instruction::ANewArray(ElemClass::Named("Point".to_owned())),
            Instruction::ALoad(9),
            Instruction::AAStore,
        )
    );
    assert!(refused(&binary(Operator::Repeat, array(SemanticType::Null), null(), num(3))));
}

#[test]
fn objects() {
    assert_eq!(code(&expr(point(), ExprKind::This)), vec![Instruction::ALoad(0)]);
    assert_eq!(
        code(&expr(point(), ExprKind::NewClass(NewClass { name: "Point".to_owned() }))),
        vec![
            Instruction::New("Point".to_owned()),
            Instruction::Dup,
            Instruction::InvokeSpecial {
                class: "Point".to_owned(),
                name: "<init>".to_owned(),
                args: vec![],
                ret: JavaType::Void,
            },
        ]
    );
    assert_eq!(
        code(&expr(
            point(),
            ExprKind::TypeCast(TypeCast { expr: Box::new(null()), name: "Point".to_owned() }),
        )),
        vec![Instruction::AConstNull, Instruction::CheckCast("Point".to_owned())]
    );
    assert_eq!(
        code(&expr(
            boolean(),
            ExprKind::TypeTest(TypeTest { expr: Box::new(null()), name: "Point".to_owned() }),
        )),
        vec![Instruction::AConstNull, Instruction::InstanceOf("Point".to_owned())]
    );
}

#[test]
fn new_arrays_are_made_by_element_type() {
    let new = |t| expr(array(t), ExprKind::NewArray(NewArray { len: Box::new(num(5)) }));
    let len = || Instruction::IntConst(5);
    assert_eq!(code(&new(number())), vec![len(), Instruction::NewIntArray]);
    assert_eq!(code(&new(boolean())), vec![len(), Instruction::NewBoolArray]);
    assert_eq!(
        code(&new(text())),
        vec![len(), Instruction::ANewArray(ElemClass::Named("java/lang/String".to_owned()))]
    );
    assert_eq!(
        code(&new(point())),
        vec![len(), Instruction::ANewArray(ElemClass::Named("Point".to_owned()))]
    );
    assert_eq!(
        code(&new(array(point()))),
        vec![
            len(),
            Instruction::ANewArray(ElemClass::Described(JavaType::Array(Box::new(
                JavaType::Class("Point".to_owned()),
            )))),
        ]
    );
    assert!(refused(&new(void())));
    assert!(refused(&new(SemanticType::Null)));
    assert!(refused(&new(SemanticType::Object(2))));
    assert!(refused(&expr(number(), ExprKind::NewArray(NewArray { len: Box::new(num(5)) }))));
}

#[test]
fn an_element_with_a_default() {
    let e = expr(
        number(),
        ExprKind::Default(DefaultIndexed {
            arr: Box::new(variable(4, array(number()))),
            idx: Box::new(variable(2, number())),
            dft: Box::new(num(8)),
        }),
    );
    assert_eq!(
        code(&e),
        vec![
            Instruction::ALoad(4),
            Instruction::AStore(9),
            Instruction::ILoad(2),
            Instruction::Dup,
            Instruction::IfLt(10),
            Instruction::Dup,
            Instruction::ALoad(9),
            Instruction::ArrayLength,
            Instruction::IfICmpGe(10),
            Instruction::Dup,
            Instruction::ALoad(9),
            Instruction::Swap,
            Instruction::IALoad,
            Instruction::Goto(11),
            Instruction::Label(10),
            Instruction::IntConst(8),
            Instruction::Label(11),
        ]
    );
}

#[test]
fn labels_and_locals_go_on_from_operand_to_operand() {
    // !b && !b
    let e = binary(
        Operator::And,
        boolean(),
        unary(Operator::Not, boolean(), variable(3, boolean())),
        unary(Operator::Not, boolean(), variable(3, boolean())),
    );
    let labels: Vec<u16> = code(&e)
        .iter()
        .filter_map(|i| match i {
            Instruction::Label(l) => Some(*l),
            _ => None,
        })
        .collect();
    assert_eq!(labels, vec![12, 13, 14, 15, 11, 10]);
    let cost = generator().check_expr(&classes(), &e);
    assert_eq!(cost, Some(Cost { labels: 6, locals: 0 }));
}

#[test]
fn nested_repetition_costs_both() {
    let inner = binary(Operator::Repeat, array(number()), num(1), num(2));
    let e = binary(Operator::Repeat, array(array(number())), inner, num(3));
    assert_eq!(
        generator().check_expr(&classes(), &e),
        Some(Cost { labels: 4, locals: 6 })
    );
    let c = code(&e);
    // the inner array is made with the variables after those of the outer
    assert_eq!(c[1], Instruction::IStore(12));
    assert!(c.contains(&Instruction::ANewArray(ElemClass::Described(JavaType::Array(
        Box::new(JavaType::Int)
    )))));
}
