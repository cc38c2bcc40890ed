use lib::ast::{Declaration, Exp, Gate, Lval, ParameterDeclaration, Procedure, Program, QUpdate, Statement, Type};
use lib::env::Env;
use lib::interpret::{interpret_exp, interpret_lval, try_interpret_exp, try_interpret_lval, ValueEnv};
use lib::part_eval::{
    part_eval_declaration, part_eval_exp, part_eval_program, part_eval_statement, try_part_eval_declaration,
    try_part_eval_program, try_part_eval_statement,
};
use lib::reduce::{reduce_exp, reduce_program, try_reduce_program};
use lib::value::{eval_binop, eval_const, eval_fun_1, eval_unop, try_eval_binop, try_eval_const, try_eval_fun_1, try_eval_unop, Array, EvalError, FloatOp, Scalar, Value};

fn float_ops(op: FloatOp) -> u64 {
    let f = f64::from_bits;
    match op {
        FloatOp::Add(x, y) => (f(x) + f(y)).to_bits(),
        FloatOp::Sub(x, y) => (f(x) - f(y)).to_bits(),
        FloatOp::Mul(x, y) => (f(x) * f(y)).to_bits(),
        FloatOp::Div(x, y) => (f(x) / f(y)).to_bits(),
        FloatOp::Pow(x, y) => f(x).powf(f(y)).to_bits(),
        FloatOp::Sin(x) => f(x).sin().to_bits(),
        FloatOp::Cos(x) => f(x).cos().to_bits(),
        FloatOp::Tan(x) => f(x).tan().to_bits(),
        FloatOp::Arcsin(x) => f(x).asin().to_bits(),
        FloatOp::Arccos(x) => f(x).acos().to_bits(),
        FloatOp::Exp(x) => f(x).exp().to_bits(),
        FloatOp::Sqrt(x) => f(x).sqrt().to_bits(),
        FloatOp::Atan2(y, x) => f(y).atan2(f(x)).to_bits(),
        FloatOp::FromInt(i) => (i as f64).to_bits(),
        FloatOp::ToInt(x) => (f(x) as i64) as u64,
        FloatOp::ToUsize(x) => (f(x) as usize) as u64,
    }
}

fn var(n: &str) -> Lval {
    Lval::Var(n.to_string())
}

fn lv(n: &str) -> Exp {
    Exp::Lval(var(n))
}

fn bin(a: Exp, op: &str, b: Exp) -> Exp {
    Exp::Binary(Box::new(a), op.to_string(), Box::new(b))
}

fn env_with(pairs: &[(&str, Value)]) -> ValueEnv {
    let mut env: ValueEnv = Env::new();
    for (n, v) in pairs {
        let v2 = match v {
            Value::Scalar(s) => Value::Scalar(*s),
            Value::Array(Array::Int(a)) => Value::Array(Array::Int(a.clone())),
            Value::Array(Array::Float(a)) => Value::Array(Array::Float(a.clone())),
            Value::Array(Array::Cbit(a)) => Value::Array(Array::Cbit(a.clone())),
        };
        env.insert(n.to_string(), v2);
    }
    env
}

#[test]
fn env_get_after_insert_finds_value() {
    let mut env: Env<Value> = Env::new();
    env.insert("x".to_string(), Value::Scalar(Scalar::Int(3)));
    assert!(matches!(env.get("x"), Some(Value::Scalar(Scalar::Int(3)))));
    assert!(env.get("y").is_none());
    assert!(env.contains("x"));
    assert!(!env.contains("y"));
}

#[test]
fn env_inner_scope_shadows_and_pop_restores() {
    let mut env: Env<Value> = Env::new();
    env.insert("x".to_string(), Value::Scalar(Scalar::Int(1)));
    env.push_empty_scope();
    assert_eq!(env.currect_scope(), 2);
    env.insert("x".to_string(), Value::Scalar(Scalar::Int(2)));
    assert!(matches!(env.get("x"), Some(Value::Scalar(Scalar::Int(2)))));
    env.pop_scope();
    assert_eq!(env.currect_scope(), 1);
    assert!(matches!(env.get("x"), Some(Value::Scalar(Scalar::Int(1)))));
}

#[test]
fn env_declared_without_value_is_skipped_by_get() {
    let mut env: Env<Value> = Env::new();
    env.insert("x".to_string(), Value::Scalar(Scalar::Int(1)));
    env.push_scope(vec![("x".to_string(), None)]);
    assert!(env.contains("x"));
    assert!(matches!(env.get("x"), Some(Value::Scalar(Scalar::Int(1)))));
}

#[test]
fn env_update_changes_innermost_declaration() {
    let mut env: Env<Value> = Env::new();
    env.insert("x".to_string(), Value::Scalar(Scalar::Int(1)));
    env.push_empty_scope();
    assert!(env.update("x", Value::Scalar(Scalar::Int(5))));
    env.pop_scope();
    assert!(matches!(env.get("x"), Some(Value::Scalar(Scalar::Int(5)))));
    assert!(!env.update("y", Value::Scalar(Scalar::Int(5))));
    assert!(env.update_none("x"));
    assert!(env.get("x").is_none());
    assert!(env.contains("x"));
}

#[test]
fn env_remove_returns_value() {
    let mut env: Env<Value> = Env::new();
    env.insert("x".to_string(), Value::Scalar(Scalar::Int(7)));
    assert!(matches!(env.remove("x"), Some(Value::Scalar(Scalar::Int(7)))));
    assert!(env.remove("x").is_none());
    assert!(!env.contains("x"));
}

#[test]
fn env_scope_prefix_names_scope() {
    let mut env: Env<Value> = Env::new();
    env.insert("x".to_string(), Value::Scalar(Scalar::Int(7)));
    env.push_empty_scope();
    env.insert("y".to_string(), Value::Scalar(Scalar::Int(8)));
    assert_eq!(env.scope_prefix("x".to_string()), "0x");
    assert_eq!(env.scope_prefix("y".to_string()), "1y");
    assert_eq!(env.scope_prefix("z".to_string()), "z");
}

#[test]
fn env_get_mut_writes_through() {
    let mut env: Env<Value> = Env::new();
    env.insert("x".to_string(), Value::Scalar(Scalar::Int(7)));
    if let Some(v) = env.get_mut("x") {
        *v = Value::Scalar(Scalar::Int(9));
    }
    assert!(matches!(env.get("x"), Some(Value::Scalar(Scalar::Int(9)))));
}

#[test]
fn integer_operators() {
    let a = float_ops;
    assert_eq!(eval_binop("+", Scalar::Int(2), Scalar::Int(3), &a), Scalar::Int(5));
    assert_eq!(eval_binop("-", Scalar::Int(2), Scalar::Int(3), &a), Scalar::Int(-1));
    assert_eq!(eval_binop("*", Scalar::Int(4), Scalar::Int(3), &a), Scalar::Int(12));
    assert_eq!(eval_binop("/", Scalar::Int(7), Scalar::Int(2), &a), Scalar::Int(3));
    assert_eq!(eval_binop("%", Scalar::Int(7), Scalar::Int(2), &a), Scalar::Int(1));
    assert_eq!(eval_binop("**", Scalar::Int(2), Scalar::Int(10), &a), Scalar::Int(1024));
    assert_eq!(eval_binop("<", Scalar::Int(2), Scalar::Int(10), &a), Scalar::Cbit(true));
    assert_eq!(eval_binop("==", Scalar::Int(2), Scalar::Int(10), &a), Scalar::Cbit(false));
    assert_eq!(eval_binop("xor", Scalar::Int(6), Scalar::Int(3), &a), Scalar::Int(5));
    assert_eq!(try_eval_binop("/", Scalar::Int(7), Scalar::Int(0), &a), Err(EvalError::DivisionByZero));
    assert_eq!(try_eval_binop("+", Scalar::Int(i64::MAX), Scalar::Int(1), &a), Err(EvalError::Overflow));
    assert_eq!(try_eval_binop("<<", Scalar::Int(1), Scalar::Int(1), &a), Err(EvalError::UnsupportedBinary));
}

#[test]
fn mixed_operands_are_floats() {
    let a = float_ops;
    let r = try_eval_binop("+", Scalar::Int(1), Scalar::Float(0.5f64.to_bits()), &a);
    assert_eq!(r, Ok(Scalar::Float(1.5f64.to_bits())));
    let r = try_eval_binop("-", Scalar::Float(2.0f64.to_bits()), Scalar::Int(1), &a);
    assert_eq!(r, Ok(Scalar::Float(1.0f64.to_bits())));
}

#[test]
fn unary_operators_and_constants() {
    assert_eq!(eval_unop("-", Scalar::Int(4)), Scalar::Int(-4));
    assert_eq!(eval_unop("~", Scalar::Int(0)), Scalar::Int(-1));
    assert_eq!(eval_unop("not", Scalar::Cbit(true)), Scalar::Cbit(false));
    assert_eq!(eval_unop("-", Scalar::Float(1.0f64.to_bits())), Scalar::Float((-1.0f64).to_bits()));
    assert_eq!(try_eval_unop("not", Scalar::Int(1)), Err(EvalError::UnsupportedUnary));
    assert_eq!(eval_const("pi"), Scalar::Float(std::f64::consts::PI.to_bits()));
    assert_eq!(eval_const("true"), Scalar::Cbit(true));
    assert_eq!(try_eval_const("tau"), Err(EvalError::UnknownConstant));
}

#[test]
fn builtin_of_int_is_taken_as_float() {
    let a = float_ops;
    assert_eq!(eval_fun_1("sqrt", Scalar::Int(4), &a), Scalar::Float(2.0f64.to_bits()));
    assert_eq!(try_eval_fun_1("frob", Scalar::Float(4.0f64.to_bits()), &a), Err(EvalError::UnsupportedFunction));
}

#[test]
fn interpret_reads_arrays_and_scalars() {
    let a = float_ops;
    let env = env_with(&[
        ("d", Value::Scalar(Scalar::Int(4))),
        ("v", Value::Array(Array::Int(vec![10, 20, 30]))),
    ]);
    let e = bin(lv("d"), "*", Exp::Int(2));
    assert_eq!(interpret_exp(&e, &env, &a), Some(Scalar::Int(8)));
    let l = Lval::Array("v".to_string(), Box::new(Exp::Int(1)));
    assert_eq!(interpret_lval(&l, &env, &a), Some(Scalar::Int(20)));
    let out = Lval::Array("v".to_string(), Box::new(Exp::Int(5)));
    assert_eq!(interpret_lval(&out, &env, &a), None);
    assert_eq!(interpret_exp(&lv("unknown"), &env, &a), None);
}

#[test]
fn part_eval_folds_known_values() {
    let a = float_ops;
    let env = env_with(&[("d", Value::Scalar(Scalar::Int(4)))]);
    let e = bin(bin(lv("d"), "+", Exp::Int(1)), "*", lv("q"));
    let r = part_eval_exp(e, &env, &a);
    match r {
        Exp::Binary(l, op, rr) => {
            assert!(matches!(*l, Exp::Int(5)));
            assert_eq!(op, "*");
            assert!(matches!(*rr, Exp::Lval(Lval::Var(ref n)) if n == "q"));
        }
        other => panic!("unexpected {:?}", other),
    }
    let c = part_eval_exp(bin(Exp::Int(2), "<", Exp::Int(3)), &env, &a);
    assert!(matches!(c, Exp::NamedConst(ref s) if s == "true"));
}

#[test]
fn part_eval_declaration_records_values() {
    let a = float_ops;
    let mut env: ValueEnv = Env::new();
    let d = Declaration::InitScalar { ty: Type::Float, name: "x".to_string(), value: Exp::Int(2) };
    part_eval_declaration(d, &mut env, &a);
    assert!(matches!(env.get("x"), Some(Value::Scalar(Scalar::Float(b))) if *b == 2.0f64.to_bits()));
    let d = Declaration::Uninit { ty: Type::Int, lval: Lval::Array("v".to_string(), Box::new(Exp::Int(3))) };
    part_eval_declaration(d, &mut env, &a);
    assert!(matches!(env.get("v"), Some(Value::Array(Array::Int(v))) if v == &vec![0, 0, 0]));
    let d = Declaration::Uninit { ty: Type::Qbit, lval: var("q") };
    part_eval_declaration(d, &mut env, &a);
    assert!(env.contains("q"));
    assert!(env.get("q").is_none());
}

fn counting_loop() -> Statement {
    // { int i = 0; while (i < 3) { i = i + 1; } }
    Statement::Block(
        vec![Declaration::InitScalar { ty: Type::Int, name: "i".to_string(), value: Exp::Int(0) }],
        vec![Statement::While(
            bin(lv("i"), "<", Exp::Int(3)),
            Box::new(Statement::Assignment(var("i"), bin(lv("i"), "+", Exp::Int(1)))),
        )],
    )
}

#[test]
fn part_eval_unrolls_known_loop() {
    let a = float_ops;
    let mut env: ValueEnv = Env::new();
    let r = part_eval_statement(counting_loop(), &mut env, None, &a);
    match r {
        Statement::Block(ds, ss) => {
            assert_eq!(ds.len(), 1);
            assert_eq!(ss.len(), 3);
            assert!(matches!(&ss[2], Statement::Assignment(Lval::Var(n), Exp::Int(3)) if n == "i"));
        }
        other => panic!("unexpected {:?}", other),
    }
}

#[test]
fn part_eval_takes_known_branch() {
    let a = float_ops;
    let mut env: ValueEnv = Env::new();
    let s = Statement::If(
        Exp::NamedConst("false".to_string()),
        Box::new(Statement::QUpdate(QUpdate::Gate(Gate::H, var("q")))),
        Box::new(Statement::QUpdate(QUpdate::Gate(Gate::Not, var("q")))),
    );
    let r = part_eval_statement(s, &mut env, None, &a);
    assert!(matches!(r, Statement::QUpdate(QUpdate::Gate(Gate::Not, _))));
    let bad = Statement::If(Exp::Int(1), Box::new(counting_loop()), Box::new(counting_loop()));
    assert_eq!(try_part_eval_statement(bad, &mut env, None, &a).err(), Some(EvalError::NonBooleanCondition));
}

fn two_procedures() -> Program {
    // main() { qbit q; call 'flip' (q); }   flip(qbit r) { not r; }
    let main = Procedure {
        name: "main".to_string(),
        params: vec![],
        body: Statement::Block(
            vec![Declaration::Uninit { ty: Type::Qbit, lval: var("q") }],
            vec![Statement::ProcedureCall("flip".to_string(), vec![var("q")])],
        ),
    };
    let flip = Procedure {
        name: "flip".to_string(),
        params: vec![ParameterDeclaration::Scalar { ty: Type::Qbit, name: "r".to_string() }],
        body: Statement::QUpdate(QUpdate::Gate(Gate::Not, var("r"))),
    };
    Program { procedures: vec![main, flip] }
}

#[test]
fn part_eval_program_inlines_calls() {
    let a = float_ops;
    let p = part_eval_program(two_procedures(), Env::new(), &a);
    assert_eq!(p.procedures.len(), 1);
    assert_eq!(p.procedures[0].name, "main");
    // The call's block is merged into main's block; only declarations whose
    // names are used stay.
    match &p.procedures[0].body {
        Statement::Block(ds, ss) => {
            assert_eq!(ds.len(), 1);
            assert!(matches!(&ds[0], Declaration::InitScalar { name, .. } if name == "r"));
            assert_eq!(ss.len(), 1);
            assert!(matches!(&ss[0], Statement::QUpdate(QUpdate::Gate(Gate::Not, Lval::Var(n))) if n == "r"));
        }
        other => panic!("unexpected {:?}", other),
    }
}

#[test]
fn part_eval_program_refuses_empty_program() {
    let a = float_ops;
    let r = try_part_eval_program(Program { procedures: vec![] }, Env::new(), &a);
    assert_eq!(r.err(), Some(EvalError::NoProcedures));
}

#[test]
fn part_eval_refuses_unknown_procedure_with_table() {
    let a = float_ops;
    let mut p = two_procedures();
    p.procedures.truncate(1);
    let r = try_part_eval_program(p, Env::new(), &a);
    assert_eq!(r.err(), Some(EvalError::UndefinedProcedure));
}

#[test]
fn reduce_program_keeps_unknown_calls_and_inlines_known() {
    let a = float_ops;
    let p = reduce_program(two_procedures(), Env::new(), &a);
    assert_eq!(p.procedures.len(), 1);
    let mut only_main = two_procedures();
    only_main.procedures.truncate(1);
    let p = reduce_program(only_main, Env::new(), &a);
    match &p.procedures[0].body {
        Statement::Block(_, ss) => {
            assert!(matches!(&ss[0], Statement::ProcedureCall(n, _) if n == "flip"));
        }
        Statement::ProcedureCall(n, _) => assert_eq!(n, "flip"),
        other => panic!("unexpected {:?}", other),
    }
    assert_eq!(try_reduce_program(Program { procedures: vec![] }, Env::new(), &a).err(), Some(EvalError::NoProcedures));
}

#[test]
fn qbit_cannot_hold_a_classical_value() {
    let a = float_ops;
    let mut env: ValueEnv = Env::new();
    let d = Declaration::InitScalar { ty: Type::Qbit, name: "q".to_string(), value: Exp::Int(1) };
    assert_eq!(try_part_eval_declaration(d, &mut env, &a).err(), Some(EvalError::QbitCast));
}

#[test]
fn store_outside_array_is_refused() {
    let a = float_ops;
    let mut env: ValueEnv = Env::new();
    let s = Statement::Block(
        vec![Declaration::Uninit { ty: Type::Int, lval: Lval::Array("v".to_string(), Box::new(Exp::Int(2))) }],
        vec![Statement::Assignment(Lval::Array("v".to_string(), Box::new(Exp::Int(5))), Exp::Int(1))],
    );
    assert_eq!(try_part_eval_statement(s, &mut env, None, &a).err(), Some(EvalError::IndexOutOfBounds));
}

#[test]
fn store_inside_array_is_recorded() {
    let a = float_ops;
    let mut env: ValueEnv = Env::new();
    let s = Statement::Block(
        vec![
            Declaration::Uninit { ty: Type::Float, lval: Lval::Array("v".to_string(), Box::new(Exp::Int(2))) },
            Declaration::Uninit { ty: Type::Int, lval: var("x") },
        ],
        vec![
            Statement::Assignment(Lval::Array("v".to_string(), Box::new(Exp::Int(1))), Exp::Int(3)),
            Statement::Assignment(var("x"), Exp::Lval(Lval::Array("v".to_string(), Box::new(Exp::Int(1))))),
        ],
    );
    let r = part_eval_statement(s, &mut env, None, &a);
    match r {
        Statement::Block(_, ss) => {
            assert!(matches!(&ss[1], Statement::Assignment(_, Exp::Float(b)) if *b == 3.0f64.to_bits()));
        }
        other => panic!("unexpected {:?}", other),
    }
}

#[test]
fn long_call_chains_are_inlined_completely() {
    let a = float_ops;
    let depth = 300;
    let mut procedures = Vec::new();
    for k in 0..depth {
        procedures.push(Procedure {
            name: format!("p{}", k),
            params: vec![],
            body: Statement::ProcedureCall(format!("p{}", k + 1), vec![]),
        });
    }
    procedures.push(Procedure {
        name: format!("p{}", depth),
        params: vec![],
        body: Statement::Measure(var("q"), var("c")),
    });
    let p = try_part_eval_program(Program { procedures }, Env::new(), &a).unwrap();
    assert_eq!(p.procedures.len(), 1);
    assert!(matches!(p.procedures[0].body, Statement::Measure(Lval::Var(ref q), Lval::Var(ref c)) if q == "q" && c == "c"));
}

#[test]
fn partial_evaluation_keeps_the_value_of_expressions() {
    let a = float_ops;
    let env = env_with(&[
        ("d", Value::Scalar(Scalar::Int(4))),
        ("v", Value::Array(Array::Float(vec![0.5f64.to_bits(), 1.5f64.to_bits()]))),
    ]);
    let exps = vec![
        bin(lv("d"), "**", Exp::Int(2)),
        Exp::Builtin1("sqrt".to_string(), Box::new(lv("d"))),
        bin(Exp::Lval(Lval::Array("v".to_string(), Box::new(bin(lv("d"), "-", Exp::Int(3))))), "*", Exp::Int(2)),
        bin(lv("d"), "<", Exp::Int(5)),
        bin(lv("unknown"), "+", lv("d")),
    ];
    for e in exps {
        let before = try_interpret_exp(&e, &env, &a);
        let shown = format!("{:?}", e);
        let folded = part_eval_exp(e, &env, &a);
        assert_eq!(try_interpret_exp(&folded, &env, &a), before, "{}", shown);
    }
}

#[test]
fn reduce_exp_folds_known_subexpressions() {
    let a = float_ops;
    let env = env_with(&[("k", Value::Scalar(Scalar::Int(2)))]);
    let r = reduce_exp(bin(lv("k"), "*", Exp::Int(3)), &env, &a);
    assert!(matches!(r, Exp::Int(6)));
    let r = reduce_exp(bin(lv("u"), "+", bin(Exp::Int(1), "+", Exp::Int(1))), &env, &a);
    match r {
        Exp::Binary(l, op, rr) => {
            assert!(matches!(*l, Exp::Lval(Lval::Var(ref n)) if n == "u"));
            assert_eq!(op, "+");
            assert!(matches!(*rr, Exp::Int(2)));
        }
        other => panic!("unexpected {:?}", other),
    }
}

#[test]
fn closing_a_scope_undoes_every_entry_made_in_it() {
    let mut env = env_with(&[("x", Value::Scalar(Scalar::Int(1)))]);
    env.push_empty_scope();
    env.insert("x".to_string(), Value::Scalar(Scalar::Int(2)));
    env.insert("y".to_string(), Value::Scalar(Scalar::Int(3)));
    env.insert_none("z".to_string());
    env.insert("y".to_string(), Value::Scalar(Scalar::Int(4)));
    assert_eq!(env.currect_scope(), 2);
    env.pop_scope();
    assert_eq!(env.currect_scope(), 1);
    assert!(matches!(env.get("x"), Some(Value::Scalar(Scalar::Int(1)))));
    assert!(!env.contains("y"));
    assert!(!env.contains("z"));
}

#[test]
fn reducing_a_reduced_expression_changes_nothing() {
    let a = float_ops;
    let env = env_with(&[("k", Value::Scalar(Scalar::Int(2)))]);
    let e = bin(bin(lv("k"), "+", lv("u")), "*", bin(Exp::Int(2), "**", lv("k")));
    let once = reduce_exp(e, &env, &a);
    let shown = format!("{:?}", once);
    let twice = reduce_exp(once, &env, &a);
    assert_eq!(format!("{:?}", twice), shown);
}
