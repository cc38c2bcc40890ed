use lib::ast::{Declaration, Exp, Gate, Lval, ParameterDeclaration, Procedure, Program, QUpdate, Statement, Type};
use lib::env::Env;
use lib::show::{show_declaration, show_exp, show_parameter_declaration, show_procedure, show_program, show_statement, show_type};
use lib::types::{self, type_of_parameter_declaration, typecheck_exp, typecheck_program, typecheck_statement, CheckType, TypeEnv};
use lib::vars::{used_vars, NameSet};

fn float_text(b: u64) -> String {
    f64::from_bits(b).to_string()
}

fn var(n: &str) -> Lval {
    Lval::Var(n.to_string())
}

fn lv(n: &str) -> Exp {
    Exp::Lval(var(n))
}

fn bin(a: Exp, op: &str, b: Exp) -> Exp {
    Exp::Binary(Box::new(a), op.to_string(), Box::new(b))
}

#[test]
fn type_keywords() {
    assert_eq!(show_type(&Type::Int), "int");
    assert_eq!(show_type(&Type::Float), "float");
    assert_eq!(show_type(&Type::Cbit), "cbit");
    assert_eq!(show_type(&Type::Qbit), "qbit");
}

#[test]
fn parameter_declarations_are_written() {
    let p = ParameterDeclaration::ArrayConst { ty: Type::Qbit, name: "q".to_string(), size: 4 };
    assert_eq!(show_parameter_declaration(&p), "qbit q[4]");
    let p = ParameterDeclaration::ArrayVar { ty: Type::Float, name: "a".to_string(), size: "d".to_string() };
    assert_eq!(show_parameter_declaration(&p), "float a[d]");
    let p = ParameterDeclaration::Scalar { ty: Type::Cbit, name: "c".to_string() };
    assert_eq!(show_parameter_declaration(&p), "cbit c");
}

#[test]
fn expressions_are_parenthesized() {
    let e = bin(Exp::Int(-3), "+", Exp::Builtin2("arctan2".to_string(), Box::new(lv("y")), Box::new(Exp::Float(0.5f64.to_bits()))));
    assert_eq!(show_exp(&e, &float_text), "(-3 + arctan2(y,0.5))");
    let e = Exp::Unary("-".to_string(), Box::new(Exp::Lval(Lval::Array("a".to_string(), Box::new(Exp::Int(1))))));
    assert_eq!(show_exp(&e, &float_text), "(- a[1])");
}

#[test]
fn declarations_are_written() {
    let d = Declaration::InitArray {
        ty: Type::Int,
        name: "v".to_string(),
        size: Exp::Int(2),
        values: vec![Exp::Int(1), Exp::Int(2)],
    };
    assert_eq!(show_declaration(&d, &float_text), "int v[2] = [1, 2] ;");
}

#[test]
fn statements_are_indented() {
    let s = Statement::Block(
        vec![Declaration::Uninit { ty: Type::Qbit, lval: var("q") }],
        vec![Statement::If(
            lv("c"),
            Box::new(Statement::QUpdate(QUpdate::Gate(Gate::H, var("q")))),
            Box::new(Statement::ProcedureCall("f".to_string(), vec![var("q"), var("c")])),
        )],
    );
    let text = show_statement(&s, 0, &float_text);
    assert_eq!(text, "{\n  qbit q ;\n  if(c) {\n    H q ;\n  } else {\n    call 'f' (q, c) ;\n  }\n}");
}

#[test]
fn programs_are_separated_by_blank_lines() {
    let p = Program {
        procedures: vec![
            Procedure {
                name: "main".to_string(),
                params: vec![],
                body: Statement::Measure(var("q"), var("c")),
            },
            Procedure {
                name: "g".to_string(),
                params: vec![ParameterDeclaration::Scalar { ty: Type::Qbit, name: "q".to_string() }],
                body: Statement::Block(vec![], vec![Statement::QUpdate(QUpdate::Swap(var("q"), var("r")))]),
            },
        ],
    };
    assert_eq!(show_program(&p, &float_text), "main(){\n  measure q -> c ;\n}\n\ng(qbit q){\n  q <> r ;\n}");
}

#[test]
fn procedure_body_is_always_a_block() {
    let p = Procedure {
        name: "f".to_string(),
        params: vec![ParameterDeclaration::Scalar { ty: Type::Cbit, name: "c".to_string() }],
        body: Statement::While(lv("c"), Box::new(Statement::Measure(var("q"), var("c")))),
    };
    let text = show_procedure(&p, 0, &float_text);
    assert_eq!(text, "f(cbit c){\n  while(c) {\n    measure q -> c ;\n  }\n}");
    assert!(text.starts_with("f(cbit c){\n"));
    assert!(text.ends_with('}'));
}

fn type_env() -> TypeEnv {
    let mut env: TypeEnv = Env::new();
    env.insert("x".to_string(), CheckType::Int);
    env.insert("f".to_string(), CheckType::Float);
    env.insert("q".to_string(), CheckType::Qbit);
    env.insert("c".to_string(), CheckType::Cbit);
    env.insert("qs".to_string(), CheckType::Array(Box::new(CheckType::Qbit)));
    env
}

#[test]
fn checker_type_names() {
    assert_eq!(types::show_type(CheckType::Array(Box::new(CheckType::Int))), "Array[Int]");
    assert_eq!(types::show_type(CheckType::Cbit), "Cbit");
}

#[test]
fn parameter_types() {
    let p = ParameterDeclaration::ArrayConst { ty: Type::Qbit, name: "q".to_string(), size: 4 };
    assert!(matches!(type_of_parameter_declaration(&p), Ok(CheckType::Array(t)) if matches!(*t, CheckType::Qbit)));
}

#[test]
fn expression_types_widen() {
    let env = type_env();
    assert!(matches!(typecheck_exp(bin(lv("x"), "+", lv("f")), &env), Ok(CheckType::Float)));
    assert!(matches!(typecheck_exp(bin(lv("c"), "+", lv("x")), &env), Ok(CheckType::Int)));
    assert_eq!(typecheck_exp(lv("q"), &env).err(), Some("Qbits cannot appear in classical expressions".to_string()));
    assert_eq!(typecheck_exp(lv("nope"), &env).err(), Some("Unknown variable nope".to_string()));
    assert_eq!(
        typecheck_exp(bin(lv("x"), "+", Exp::Lval(Lval::Array("x".to_string(), Box::new(Exp::Int(0))))), &env).err(),
        Some("Variable x is not an array (found Int)".to_string())
    );
}

#[test]
fn statement_checks_report_first_problem() {
    let mut env = type_env();
    let s = Statement::Assignment(var("x"), lv("f"));
    assert_eq!(typecheck_statement(s, &mut env).err(), Some("Type mismatch in assignment: Int = Float".to_string()));
    let s = Statement::Assignment(var("q"), Exp::Int(1));
    assert_eq!(typecheck_statement(s, &mut env).err(), Some("Cannot assign to a qbit".to_string()));
    let s = Statement::Measure(var("q"), var("c"));
    assert_eq!(typecheck_statement(s, &mut env), Ok(()));
    let s = Statement::Measure(var("c"), var("q"));
    assert_eq!(typecheck_statement(s, &mut env).err(), Some("Measure source must be a qbit".to_string()));
    let s = Statement::ConditionalQUpdate(QUpdate::Gate(Gate::Not, var("q")), var("x"));
    assert_eq!(typecheck_statement(s, &mut env).err(), Some("Conditional qupdate must use a cbit".to_string()));
}

#[test]
fn block_declarations_do_not_leak() {
    let mut env = type_env();
    let s = Statement::Block(
        vec![Declaration::InitScalar { ty: Type::Float, name: "y".to_string(), value: lv("x") }],
        vec![Statement::Assignment(var("y"), Exp::Int(2))],
    );
    assert_eq!(typecheck_statement(s, &mut env), Ok(()));
    assert!(!env.contains("y"));
    let s = Statement::Block(
        vec![Declaration::InitScalar { ty: Type::Int, name: "z".to_string(), value: lv("f") }],
        vec![],
    );
    assert_eq!(typecheck_statement(s, &mut env).err(), Some("Type mismatch in declaration z: Int vs Float".to_string()));
}

#[test]
fn program_check_uses_parameters() {
    let mut env: TypeEnv = Env::new();
    let p = Program {
        procedures: vec![Procedure {
            name: "main".to_string(),
            params: vec![ParameterDeclaration::ArrayConst { ty: Type::Qbit, name: "q".to_string(), size: 2 }],
            body: Statement::QUpdate(QUpdate::Swap(
                Lval::Array("q".to_string(), Box::new(Exp::Int(0))),
                Lval::Array("q".to_string(), Box::new(Exp::Int(1))),
            )),
        }],
    };
    assert_eq!(typecheck_program(p, &mut env), Ok(()));
}

#[test]
fn used_vars_collects_read_and_written_names() {
    let s = Statement::Block(
        vec![Declaration::Uninit { ty: Type::Int, lval: var("hidden") }],
        vec![
            Statement::Assignment(Lval::Array("a".to_string(), Box::new(lv("i"))), bin(lv("b"), "+", Exp::Int(1))),
            Statement::ConditionalQUpdate(QUpdate::Gate(Gate::Not, var("t")), var("c")),
        ],
    );
    let used = used_vars(&s);
    let mut names = used.to_vec();
    names.sort();
    assert_eq!(names, vec!["a", "b", "c", "i"]);
    assert!(!used.contains("hidden"));
}

#[test]
fn name_sets_hold_each_name_once() {
    let mut set = NameSet::new();
    set.insert("x".to_string());
    set.insert("y".to_string());
    set.insert("x".to_string());
    let mut other = NameSet::new();
    other.insert("y".to_string());
    other.insert("z".to_string());
    set.extend(other);
    assert_eq!(set.to_vec(), vec!["x", "y", "z"]);
    assert!(set.contains("z"));
    assert!(!set.contains("w"));
}
