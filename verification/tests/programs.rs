//! Whole programs: classes, members, the method that starts the program, and what is refused.

use jvm_code_gen::ast::{
    BasicType, Block, Call, ClassDef, Const, Expr, ExprKind, FieldDef, MethodDef, MethodSymbol,
    Program, Return, ScopeKind, SemanticType, Simple, Stmt, Symbols, VarAssign, VarSymbol,
};
use jvm_code_gen::instr::{Access, Insn, Instruction, JClass, JMember, JavaType, Member};
use jvm_code_gen::jvm_code_gen::JvmCodeGen;

fn number() -> SemanticType {
    SemanticType::Basic(BasicType::Int)
}

fn void() -> SemanticType {
    SemanticType::Basic(BasicType::Void)
}

fn text() -> SemanticType {
    SemanticType::Basic(BasicType::Text)
}

fn symbol(name: &str, type_: SemanticType, scope: ScopeKind) -> VarSymbol<String> {
    VarSymbol { name: name.to_owned(), type_, scope }
}

fn method(
    class: usize,
    name: &str,
    static_: bool,
    param: Vec<usize>,
    ret_t: SemanticType,
) -> MethodSymbol<String, Vec<usize>> {
    MethodSymbol { class, name: name.to_owned(), static_, param, ret_t }
}

fn def(symbol: usize, stmt: Vec<Stmt>) -> FieldDef {
    FieldDef::MethodDef(MethodDef { symbol, body: Block { stmt } })
}

fn num(n: i32) -> Expr {
    Expr { type_: number(), kind: ExprKind::Const(Const::IntConst(n)) }
}

fn declare(var: usize, n: i32) -> Stmt {
    Stmt::Simple(Simple::VarAssign(VarAssign { var, src: Some(num(n)) }))
}

fn run(method: usize) -> Stmt {
    Stmt::Simple(Simple::Expr(Expr {
        type_: void(),
        kind: ExprKind::Call(Call {
            owner: None,
            arg: vec![],
            method: Some(method),
            is_arr_len: false,
        }),
    }))
}

// class Main { static void main() { int t = 1; } }
// final class Pair extends Base { int x; string y; int sum(int n) { int u = 2; return 3; } }
fn program() -> Program {
    Program {
        class: vec![
            ClassDef {
                name: "Main".to_owned(),
                parent: None,
                sealed: false,
                field: vec![def(0, vec![declare(2, 1)])],
            },
            ClassDef {
                name: "Pair".to_owned(),
                parent: Some("Base".to_owned()),
                sealed: true,
                field: vec![
                    FieldDef::VarDef(0),
                    FieldDef::VarDef(1),
                    def(1, vec![declare(5, 2), Stmt::Return(Return { expr: Some(num(3)) })]),
                ],
            },
        ],
        main: Some(0),
        symbols: Symbols {
            var: vec![
                symbol("x", number(), ScopeKind::Class(1)),
                symbol("y", text(), ScopeKind::Class(1)),
                symbol("t", number(), ScopeKind::Local),
                symbol("this", SemanticType::Object(1), ScopeKind::Parameter),
                symbol("n", number(), ScopeKind::Parameter),
                symbol("u", number(), ScopeKind::Local),
            ],
            method: vec![
                method(0, "main", true, vec![], void()),
                method(1, "sum", false, vec![3, 4], number()),
            ],
        },
    }
}

fn public(static_: bool) -> Access {
    Access { public: true, static_, final_: false }
}

fn constructor(parent: &str) -> JMember {
    Member::Method {
        access: public(false),
        name: "<init>".to_owned(),
        args: vec![],
        ret: JavaType::Void,
        code: vec![
            Instruction::ALoad(0),
            Instruction::InvokeSpecial {
                class: parent.to_owned(),
                name: "<init>".to_owned(),
                args: vec![],
                ret: JavaType::Void,
            },
            Instruction::Return,
        ],
        max_locals: 1,
    }
}

fn strings() -> JavaType<String> {
    JavaType::Array(Box::new(JavaType::Class("java/lang/String".to_owned())))
}

fn generated(p: Program) -> Vec<JClass> {
    JvmCodeGen::new().try_gen(p).expect("code can be generated")
}

fn refused(p: Program) -> bool {
    JvmCodeGen::new().try_gen(p).is_none()
}

fn code(m: &JMember) -> &Vec<Insn> {
    match m {
        Member::Method { code, .. } => code,
        Member::Field { .. } => panic!("a field has no code"),
    }
}

#[test]
fn a_new_generator_has_seen_nothing() {
    let g = JvmCodeGen::new();
    assert_eq!(g.label, 0);
    assert_eq!(g.stack_index, 0);
    assert!(g.code.is_empty());
    assert!(g.members.is_empty());
    assert!(g.break_stack.is_empty());
    assert!(g.slot.is_empty());
    assert_eq!(g.main, None);
}

#[test]
fn one_class_file_for_each_class() {
    let files = generated(program());
    assert_eq!(files.len(), 2);
    assert_eq!(files[0].file, "Main.class");
    assert_eq!(files[0].name, "Main");
    assert_eq!(files[0].parent, "java/lang/Object");
    assert_eq!(files[0].access, public(false));
    assert_eq!(files[1].file, "Pair.class");
    assert_eq!(files[1].name, "Pair");
    assert_eq!(files[1].parent, "Base");
    assert_eq!(files[1].access, Access { public: true, static_: false, final_: true });
}

#[test]
fn the_checked_way_and_the_plain_way_agree() {
    let checked = generated(program());
    let plain = JvmCodeGen::new().gen(program());
    assert_eq!(checked, plain);
}

#[test]
fn every_class_starts_with_its_constructor() {
    let files = generated(program());
    assert_eq!(files[0].members[0], constructor("java/lang/Object"));
    assert_eq!(files[1].members[0], constructor("Base"));
    assert_eq!(files[0].members.len(), 2);
    assert_eq!(files[1].members.len(), 4);
}

#[test]
fn main_gets_the_arguments() {
    let files = generated(program());
    assert_eq!(
        files[0].members[1],
        Member::Method {
            access: public(true),
            name: "main".to_owned(),
            args: vec![strings()],
            ret: JavaType::Void,
            code: vec![
                Instruction::IntConst(1),
                Instruction::IStore(1),
                Instruction::Return,
            ],
            max_locals: 2,
        }
    );
}

#[test]
fn only_main_of_the_main_class_gets_them() {
    for main in vec![Some(1), None] {
        let mut p = program();
        p.main = main;
        match &generated(p)[0].members[1] {
            Member::Method { args, max_locals, .. } => {
                assert!(args.is_empty());
                assert_eq!(*max_locals, 1);
            }
            Member::Field { .. } => panic!("main is a method"),
        }
    }
}

#[test]
fn fields_and_methods_in_order() {
    let files = generated(program());
    assert_eq!(
        files[1].members[1],
        Member::Field { access: public(false), name: "x".to_owned(), type_: JavaType::Int }
    );
    assert_eq!(
        files[1].members[2],
        Member::Field {
            access: public(false),
            name: "y".to_owned(),
            type_: JavaType::Class("java/lang/String".to_owned()),
        }
    );
    assert_eq!(
        files[1].members[3],
        Member::Method {
            access: public(false),
            name: "sum".to_owned(),
            args: vec![JavaType::Int],
            ret: JavaType::Int,
            code: vec![
                Instruction::IntConst(2),
                Instruction::IStore(2),
                Instruction::IntConst(3),
                Instruction::IReturn,
                Instruction::IntConst(0),
                Instruction::IReturn,
            ],
            max_locals: 3,
        }
    );
}

#[test]
fn parameters_come_first_in_order() {
    let p = program();
    let mut g = JvmCodeGen::new();
    g.enter(p.symbols, p.main);
    assert!(g.try_program(&p.class).is_some());
    // this, n and u of sum
    assert_eq!((g.slot[3], g.slot[4], g.slot[5]), (0, 1, 2));
    // the arguments of main, and t
    assert_eq!((g.slot[6], g.slot[2]), (0, 1));
}

#[test]
fn nothing_is_left_in_hand_but_the_counts() {
    let p = program();
    let mut g = JvmCodeGen::new();
    g.enter(p.symbols, p.main);
    assert!(g.try_class_def(&p.class, &p.class[0]).is_some());
    // main has its arguments and t
    assert_eq!((g.label, g.stack_index), (0, 2));
    assert!(g.code.is_empty());
    assert!(g.members.is_empty());
    assert!(g.try_field_def(&p.class, &p.class[1].field[0]));
    // a field changes neither
    assert_eq!((g.label, g.stack_index), (0, 2));
    assert_eq!(g.members.len(), 1);
    assert!(g.try_field_def(&p.class, &p.class[1].field[2]));
    // sum has this, n and u
    assert_eq!((g.label, g.stack_index), (0, 3));
    assert!(g.code.is_empty());
    assert_eq!(g.members.len(), 2);
}

#[test]
fn a_method_does_not_see_what_came_before() {
    let member = |label: u16, stack_index: u8| {
        let mut p = program();
        p.class[0].field[0] = def(0, vec![]);
        let mut g = JvmCodeGen::new();
        g.enter(p.symbols, p.main);
        g.label = label;
        g.stack_index = stack_index;
        assert!(g.try_field_def(&p.class, &p.class[0].field[0]));
        assert_eq!((g.label, g.stack_index), (0, 1));
        g.members.remove(0)
    };
    assert_eq!(member(0, 0), member(40, 50));
}

#[test]
fn a_new_generator_knows_no_main_class() {
    let p = program();
    let mut g = JvmCodeGen::new();
    g.enter(p.symbols, None);
    assert!(g.try_field_def(&p.class, &p.class[0].field[0]));
    match &g.members[0] {
        Member::Method { args, .. } => assert!(args.is_empty()),
        Member::Field { .. } => panic!("main is a method"),
    }
}

#[test]
fn every_method_ends_with_a_way_out() {
    let ends = |ret_t: SemanticType| {
        let mut p = program();
        p.symbols.method[0].ret_t = ret_t;
        let files = generated(p);
        let c = code(&files[0].members[1]);
        c[2..].iter().map(|i| format!("{:?}", i)).collect::<Vec<String>>()
    };
    assert_eq!(ends(void()), vec!["Return"]);
    assert_eq!(ends(number()), vec!["IntConst(0)", "IReturn"]);
    assert_eq!(ends(SemanticType::Basic(BasicType::Bool)), vec!["IntConst(0)", "IReturn"]);
    assert_eq!(ends(text()), vec!["AConstNull", "AReturn"]);
    assert_eq!(ends(SemanticType::Object(1)), vec!["AConstNull", "AReturn"]);
    assert_eq!(ends(SemanticType::Array(Box::new(number()))), vec!["AConstNull", "AReturn"]);
}

#[test]
fn labels_and_locals_start_anew_in_every_method() {
    let mut p = program();
    p.class[0].field.push(def(2, vec![declare(5, 4)]));
    p.symbols.method.push(method(0, "other", true, vec![], void()));
    let files = generated(p);
    assert_eq!(
        *code(&files[0].members[2]),
        vec![Instruction::IntConst(4), Instruction::IStore(0), Instruction::Return]
    );
}

#[test]
fn calls_of_main_pass_what_it_takes_by_then() {
    let call = |class: usize| {
        let mut p = program();
        p.class[class].field.insert(0, def(2, vec![run(0)]));
        p.symbols.method.push(method(class, "again", true, vec![], void()));
        let files = generated(p);
        match &code(&files[class].members[1])[0] {
            Instruction::InvokeStatic { args, .. } => args.len(),
            _ => panic!("a call"),
        }
    };
    // before main is generated it has no parameters, after that it has one
    assert_eq!(call(0), 0);
    assert_eq!(call(1), 1);
}

#[test]
fn methods_that_have_no_code_are_refused() {
    let mut p = program();
    p.symbols.method[1].ret_t = SemanticType::Null;
    assert!(refused(p));
    let mut p = program();
    p.symbols.method[1].param.clear();
    assert!(refused(p));
    let mut p = program();
    p.symbols.var[4].scope = ScopeKind::Global;
    assert!(refused(p));
    let mut p = program();
    p.symbols.method.pop();
    assert!(refused(p));
    let mut p = program();
    p.class[0].field.push(def(0, vec![Stmt::Break]));
    assert!(refused(p));
}

#[test]
fn fields_that_have_no_type_are_refused() {
    let mut p = program();
    p.symbols.var[0].type_ = SemanticType::Object(7);
    assert!(refused(p));
    let mut p = program();
    p.symbols.var[0].scope = ScopeKind::Global;
    assert!(refused(p));
    let mut p = program();
    p.class[1].field.push(FieldDef::VarDef(40));
    assert!(refused(p));
}

#[test]
fn a_parameter_that_is_a_field_is_added_to_the_class() {
    let mut p = program();
    p.symbols.var[4].scope = ScopeKind::Class(1);
    let files = generated(p);
    assert_eq!(files[1].members.len(), 5);
    // the field stands before the method that declares it
    assert_eq!(
        files[1].members[3],
        Member::Field { access: public(false), name: "n".to_owned(), type_: JavaType::Int }
    );
    match &files[1].members[4] {
        Member::Method { args, code, max_locals, .. } => {
            assert_eq!(*args, vec![JavaType::Int]);
            // it takes no local variable
            assert_eq!(code[1], Instruction::IStore(1));
            assert_eq!(*max_locals, 2);
        }
        Member::Field { .. } => panic!("sum is a method"),
    }
}

#[test]
fn a_member_that_is_no_field_takes_a_local_variable() {
    let mut p = program();
    p.symbols.var[1].scope = ScopeKind::Local;
    let classes = p.class;
    let mut g = JvmCodeGen::new();
    g.enter(p.symbols, p.main);
    assert!(g.try_class_def(&classes, &classes[0]).is_some());
    assert_eq!(g.stack_index, 2);
    assert!(g.try_field_def(&classes, &classes[1].field[1]));
    // nothing is added to the class, and the next local variable behind those of main is taken
    assert!(g.members.is_empty());
    assert_eq!((g.slot[1], g.stack_index), (2, 3));
    g.stack_index = 255;
    assert!(!g.try_field_def(&classes, &classes[1].field[1]));
}

#[test]
fn local_variables_run_out() {
    let many = |n: usize| {
        let mut p = program();
        p.class[1].field[2] = def(1, (0..n).map(|_| declare(5, 1)).collect());
        p
    };
    // two parameters and so many variables
    assert!(!refused(many(253)));
    assert!(refused(many(254)));
    let files = generated(many(253));
    match &files[1].members[3] {
        Member::Method { max_locals, .. } => assert_eq!(*max_locals, 255),
        Member::Field { .. } => panic!("a method"),
    }
}

#[test]
fn a_program_without_classes() {
    let mut p = program();
    p.class.clear();
    assert!(generated(p).is_empty());
}
