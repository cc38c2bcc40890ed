use lib::ast::{Declaration, Exp, Gate, Lval, ParameterDeclaration, Procedure, Program, QUpdate, Statement, Type};
use lib::env::Env;
use lib::typer::{check_declaration, check_exp, check_program, check_statement, type_declaration, type_exp, type_program, Ty, TyEnv};
use lib::part_eval::ProcMap;

fn var(n: &str) -> Lval {
    Lval::Var(n.to_string())
}

fn lv(n: &str) -> Exp {
    Exp::Lval(var(n))
}

fn bin(a: Exp, op: &str, b: Exp) -> Exp {
    Exp::Binary(Box::new(a), op.to_string(), Box::new(b))
}

fn proc(name: &str, params: Vec<ParameterDeclaration>, body: Statement) -> Procedure {
    Procedure { name: name.to_string(), params, body }
}

fn apply_h() -> Procedure {
    // apply(qbit q[n], int n) { ... }
    proc(
        "apply",
        vec![
            ParameterDeclaration::ArrayVar { ty: Type::Qbit, name: "q".to_string(), size: "n".to_string() },
        ],
        Statement::QUpdate(QUpdate::Gate(Gate::H, Lval::Array("q".to_string(), Box::new(Exp::Int(0))))),
    )
}

#[test]
fn comparisons_are_cbits_and_arithmetic_widens() {
    let mut env: TyEnv = Env::new();
    env.insert("i".to_string(), Ty::Scalar(Type::Int));
    env.insert("f".to_string(), Ty::Scalar(Type::Float));
    assert_eq!(type_exp(&bin(lv("i"), "<", lv("f")), &env), Type::Cbit);
    assert_eq!(type_exp(&bin(lv("i"), "+", lv("f")), &env), Type::Float);
    assert_eq!(type_exp(&Exp::NamedConst("true".to_string()), &env), Type::Cbit);
    assert_eq!(type_exp(&Exp::NamedConst("pi".to_string()), &env), Type::Float);
    assert_eq!(check_exp(&Exp::NamedConst("e".to_string()), &env), Err("Unknown constant".to_string()));
    assert_eq!(
        type_exp(&Exp::Builtin1("sin".to_string(), Box::new(lv("i"))), &env),
        Type::Float
    );
}

#[test]
fn well_typed_program_passes() {
    let main = proc(
        "main",
        vec![],
        Statement::Block(
            vec![
                Declaration::Uninit { ty: Type::Qbit, lval: Lval::Array("r".to_string(), Box::new(Exp::Int(2))) },
                Declaration::InitScalar { ty: Type::Int, name: "n".to_string(), value: Exp::Int(2) },
                Declaration::Uninit { ty: Type::Cbit, lval: var("c") },
            ],
            vec![
                Statement::ProcedureCall("apply".to_string(), vec![var("r"), var("n")]),
                Statement::Measure(Lval::Array("r".to_string(), Box::new(Exp::Int(0))), var("c")),
            ],
        ),
    );
    let p = Program { procedures: vec![main, apply_h()] };
    assert_eq!(check_program(&p), Err("Argument count mismatch in call to apply".to_string()));
    let mut apply = apply_h();
    apply.params.push(ParameterDeclaration::Scalar { ty: Type::Int, name: "n".to_string() });
    let main = proc(
        "main",
        vec![],
        Statement::Block(
            vec![
                Declaration::Uninit { ty: Type::Qbit, lval: Lval::Array("r".to_string(), Box::new(Exp::Int(2))) },
                Declaration::InitScalar { ty: Type::Int, name: "n".to_string(), value: Exp::Int(2) },
                Declaration::Uninit { ty: Type::Cbit, lval: var("c") },
            ],
            vec![
                Statement::ProcedureCall("apply".to_string(), vec![var("r"), var("n")]),
                Statement::Measure(Lval::Array("r".to_string(), Box::new(Exp::Int(0))), var("c")),
            ],
        ),
    );
    let p = Program { procedures: vec![main, apply] };
    assert_eq!(check_program(&p), Ok(()));
    type_program(&p);
}

#[test]
fn duplicate_procedures_are_refused() {
    let p = Program { procedures: vec![apply_h(), apply_h()] };
    assert_eq!(check_program(&p), Err("Duplicate procedure apply".to_string()));
}

#[test]
fn unknown_procedure_is_refused() {
    let main = proc("main", vec![], Statement::ProcedureCall("nothing".to_string(), vec![]));
    assert_eq!(check_program(&Program { procedures: vec![main] }), Err("Unknown procedure nothing".to_string()));
}

#[test]
fn assignment_checks() {
    let main = proc(
        "main",
        vec![ParameterDeclaration::Scalar { ty: Type::Int, name: "i".to_string() }],
        Statement::Assignment(var("i"), Exp::Float(1.5f64.to_bits())),
    );
    assert_eq!(check_program(&Program { procedures: vec![main] }), Err("Cannot assign Float to Int".to_string()));
    let main = proc(
        "main",
        vec![ParameterDeclaration::Scalar { ty: Type::Qbit, name: "q".to_string() }],
        Statement::Assignment(var("q"), Exp::Int(1)),
    );
    assert_eq!(check_program(&Program { procedures: vec![main] }), Err("Qbits not allowed in assignment".to_string()));
}

#[test]
fn conditions_must_be_cbits() {
    let main = proc(
        "main",
        vec![],
        Statement::While(Exp::Int(1), Box::new(Statement::Block(vec![], vec![]))),
    );
    assert_eq!(check_program(&Program { procedures: vec![main] }), Err("While condition must be cbit".to_string()));
}

#[test]
fn block_scope_ends_with_block() {
    let main = proc(
        "main",
        vec![],
        Statement::Block(
            vec![],
            vec![
                Statement::Block(vec![Declaration::Uninit { ty: Type::Qbit, lval: var("q") }], vec![]),
                Statement::QUpdate(QUpdate::Gate(Gate::Not, var("q"))),
            ],
        ),
    );
    assert_eq!(check_program(&Program { procedures: vec![main] }), Err("Unknown variable q".to_string()));
}

#[test]
fn if_condition_must_be_cbit() {
    let mut env: TyEnv = Env::new();
    env.insert("f".to_string(), Ty::Scalar(Type::Float));
    let procs: ProcMap = Env::new();
    let s = Statement::If(lv("f"), Box::new(Statement::Block(vec![], vec![])), Box::new(Statement::Block(vec![], vec![])));
    assert_eq!(check_statement(&s, &mut env, &procs), Err("If condition must be cbit".to_string()));
}

#[test]
fn array_declarations_check_size_and_values() {
    let mut env: TyEnv = Env::new();
    let bad_size = Declaration::InitArray { ty: Type::Int, name: "a".to_string(), size: Exp::Float(1.0f64.to_bits()), values: vec![] };
    assert_eq!(check_declaration(&bad_size, &mut env), Err("Array size must be int".to_string()));
    let bad_value = Declaration::InitArray { ty: Type::Int, name: "a".to_string(), size: Exp::Int(1), values: vec![Exp::Float(0)] };
    assert_eq!(check_declaration(&bad_value, &mut env), Err("Array init type mismatch".to_string()));
    let good = Declaration::InitArray { ty: Type::Float, name: "a".to_string(), size: Exp::Int(2), values: vec![Exp::Int(1), Exp::Float(0)] };
    type_declaration(&good, &mut env);
    assert!(matches!(env.get("a"), Some(Ty::Array(Type::Float, Some(2)))));
}
