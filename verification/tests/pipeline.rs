use lib::ast::{Declaration, Exp, Gate, Lval, ParameterDeclaration, Procedure, Program, QUpdate, Statement, Type};
use lib::env::Env;
use lib::interpret::ValueEnv;
use lib::part_eval::part_eval_program;
use lib::route::{route_circuit, t_hardware};
use lib::synth::{synth_program, Gate1, Gate2, Op};
use lib::typer::{check_program, type_program};
use lib::value::{Array, FloatOp, Scalar, Value};

fn float_ops(op: FloatOp) -> u64 {
    let f = f64::from_bits;
    match op {
        FloatOp::Add(x, y) => (f(x) + f(y)).to_bits(),
        FloatOp::Sub(x, y) => (f(x) - f(y)).to_bits(),
        FloatOp::Mul(x, y) => (f(x) * f(y)).to_bits(),
        FloatOp::Div(x, y) => (f(x) / f(y)).to_bits(),
        FloatOp::Pow(x, y) => f(x).powf(f(y)).to_bits(),
        FloatOp::Sin(x) => f(x).sin().to_bits(),
        FloatOp::Cos(x) => f(x).cos().to_bits(),
        FloatOp::Tan(x) => f(x).tan().to_bits(),
        FloatOp::Arcsin(x) => f(x).asin().to_bits(),
        FloatOp::Arccos(x) => f(x).acos().to_bits(),
        FloatOp::Exp(x) => f(x).exp().to_bits(),
        FloatOp::Sqrt(x) => f(x).sqrt().to_bits(),
        FloatOp::Atan2(y, x) => f(y).atan2(f(x)).to_bits(),
        FloatOp::FromInt(i) => (i as f64).to_bits(),
        FloatOp::ToInt(x) => (f(x) as i64) as u64,
        FloatOp::ToUsize(x) => (f(x) as usize) as u64,
    }
}

// Floats are written the way Rust writes an f64.

fn var(n: &str) -> Lval {
    Lval::Var(n.to_string())
}

fn elem(n: &str, i: Exp) -> Lval {
    Lval::Array(n.to_string(), Box::new(i))
}

fn lv(n: &str) -> Exp {
    Exp::Lval(var(n))
}

fn bin(a: Exp, op: &str, b: Exp) -> Exp {
    Exp::Binary(Box::new(a), op.to_string(), Box::new(b))
}

/// Rotates each of four qubits by an angle from `a`, then entangles
/// neighbouring pairs.
fn example_program() -> Program {
    let rotate = Procedure {
        name: "rotate".to_string(),
        params: vec![
            ParameterDeclaration::ArrayConst { ty: Type::Qbit, name: "q".to_string(), size: 4 },
            ParameterDeclaration::Scalar { ty: Type::Int, name: "k".to_string() },
            ParameterDeclaration::Scalar { ty: Type::Float, name: "theta".to_string() },
        ],
        body: Statement::Block(
            vec![],
            vec![
                Statement::QUpdate(QUpdate::Gate(Gate::H, elem("q", lv("k")))),
                Statement::QUpdate(QUpdate::Gate(Gate::Rz(lv("theta")), elem("q", lv("k")))),
            ],
        ),
    };
    let main = Procedure {
        name: "main".to_string(),
        params: vec![
            ParameterDeclaration::Scalar { ty: Type::Int, name: "d".to_string() },
            ParameterDeclaration::ArrayVar { ty: Type::Float, name: "a".to_string(), size: "d".to_string() },
        ],
        body: Statement::Block(
            vec![
                Declaration::Uninit { ty: Type::Qbit, lval: elem("q", Exp::Int(4)) },
                Declaration::InitScalar { ty: Type::Int, name: "i".to_string(), value: Exp::Int(0) },
            ],
            vec![
                Statement::While(
                    bin(lv("i"), "<", lv("d")),
                    Box::new(Statement::Block(
                        vec![],
                        vec![
                            Statement::ProcedureCall(
                                "rotate".to_string(),
                                vec![var("q"), var("i"), elem("a", lv("i"))],
                            ),
                            Statement::Assignment(var("i"), bin(lv("i"), "+", Exp::Int(1))),
                        ],
                    )),
                ),
                Statement::ConditionalQUpdate(
                    QUpdate::Gate(Gate::Not, elem("q", Exp::Int(2))),
                    elem("q", Exp::Int(0)),
                ),
                Statement::ConditionalQUpdate(
                    QUpdate::Gate(Gate::Not, elem("q", Exp::Int(3))),
                    elem("q", Exp::Int(1)),
                ),
            ],
        ),
    };
    Program { procedures: vec![main, rotate] }
}

fn static_env() -> ValueEnv {
    let mut env: ValueEnv = Env::new();
    env.insert("d".to_string(), Value::Scalar(Scalar::Int(4)));
    let angles = vec![0.1f64, 0.2, 0.3, 0.4].into_iter().map(f64::to_bits).collect();
    env.insert("a".to_string(), Value::Array(Array::Float(angles)));
    env
}

#[test]
fn example_program_is_well_typed() {
    assert_eq!(check_program(&example_program()), Ok(()));
    type_program(&example_program());
}

#[test]
fn example_pipeline_unrolls_inlines_synthesizes_and_routes() {
    let p = part_eval_program(example_program(), static_env(), &float_ops);
    assert_eq!(p.procedures.len(), 1);
    assert_eq!(check_program(&p), Ok(()));
    type_program(&p);
    let ops = synth_program(&p, static_env(), &float_ops);
    let pi = std::f64::consts::PI.to_bits();
    let mut expected = Vec::new();
    for (k, theta) in [0.1f64, 0.2, 0.3, 0.4].iter().enumerate() {
        expected.push(Op::Gate1(Gate1::Rz(pi), k));
        expected.push(Op::Gate1(Gate1::SX, k));
        expected.push(Op::Gate1(Gate1::Rz(pi), k));
        expected.push(Op::Gate1(Gate1::Rz(theta.to_bits()), k));
    }
    expected.push(Op::Gate2(Gate2::CX, 0, 2));
    expected.push(Op::Gate2(Gate2::CX, 1, 3));
    assert_eq!(ops, expected);
    let hw = t_hardware();
    let routed = route_circuit(ops, &hw);
    assert_eq!(routed.len(), 24);
    let cnots = routed.iter().filter(|o| matches!(o, Op::Gate2(Gate2::CX, _, _))).count();
    assert_eq!(cnots, 8);
    for op in &routed {
        if let Op::Gate2(Gate2::CX, a, b) = op {
            assert!(hw[a].contains(b));
        }
    }
}
