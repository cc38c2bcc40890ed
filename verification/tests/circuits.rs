use lib::ast::{Declaration, Exp, Gate, Lval, ParameterDeclaration, Procedure, Program, QUpdate, Statement, Type};
use lib::env::Env;
use lib::interpret::ValueEnv;
use lib::route::{find_path, line_hardware, route_circuit, route_cnot, t_hardware};
use lib::synth::{synth_parameter_declaration, synth_program, try_synth_parameter_declaration, try_synth_program, Bits, Gate1, Gate2, Op};
use lib::value::{EvalError, FloatOp, Scalar, Value};

fn float_ops(op: FloatOp) -> u64 {
    let f = f64::from_bits;
    match op {
        FloatOp::Add(x, y) => (f(x) + f(y)).to_bits(),
        FloatOp::Sub(x, y) => (f(x) - f(y)).to_bits(),
        FloatOp::Mul(x, y) => (f(x) * f(y)).to_bits(),
        FloatOp::Div(x, y) => (f(x) / f(y)).to_bits(),
        FloatOp::Pow(x, y) => f(x).powf(f(y)).to_bits(),
        FloatOp::Sin(x) => f(x).sin().to_bits(),
        FloatOp::Cos(x) => f(x).cos().to_bits(),
        FloatOp::Tan(x) => f(x).tan().to_bits(),
        FloatOp::Arcsin(x) => f(x).asin().to_bits(),
        FloatOp::Arccos(x) => f(x).acos().to_bits(),
        FloatOp::Exp(x) => f(x).exp().to_bits(),
        FloatOp::Sqrt(x) => f(x).sqrt().to_bits(),
        FloatOp::Atan2(y, x) => f(y).atan2(f(x)).to_bits(),
        FloatOp::FromInt(i) => (i as f64).to_bits(),
        FloatOp::ToInt(x) => (f(x) as i64) as u64,
        FloatOp::ToUsize(x) => (f(x) as usize) as u64,
    }
}

fn cx(a: usize, b: usize) -> Op {
    Op::Gate2(Gate2::CX, a, b)
}

fn rz(x: f64, q: usize) -> Op {
    Op::Gate1(Gate1::Rz(x.to_bits()), q)
}

fn var(n: &str) -> Lval {
    Lval::Var(n.to_string())
}

fn elem(n: &str, i: i64) -> Lval {
    Lval::Array(n.to_string(), Box::new(Exp::Int(i)))
}

#[test]
fn line_and_t_hardware_neighbours() {
    let line = line_hardware();
    assert_eq!(line.len(), 4);
    assert_eq!(line[&0], vec![1]);
    assert_eq!(line[&1], vec![0, 2]);
    assert_eq!(line[&2], vec![1, 3]);
    assert_eq!(line[&3], vec![2]);
    let t = t_hardware();
    assert_eq!(t[&2], vec![0, 1, 3]);
    assert_eq!(t[&1], vec![2]);
}

#[test]
fn find_path_gives_shortest_path() {
    let line = line_hardware();
    assert_eq!(find_path(0, 3, &line), Some(vec![0, 1, 2, 3]));
    assert_eq!(find_path(2, 2, &line), Some(vec![2]));
    let t = t_hardware();
    assert_eq!(find_path(0, 1, &t), Some(vec![0, 2, 1]));
    assert_eq!(find_path(3, 0, &t), Some(vec![3, 2, 0]));
}

fn square(first: Vec<usize>) -> std::collections::HashMap<usize, Vec<usize>> {
    let mut hw = std::collections::HashMap::new();
    hw.insert(0usize, first);
    hw.insert(1usize, vec![0usize, 3usize]);
    hw.insert(2usize, vec![0usize, 3usize]);
    hw.insert(3usize, vec![1usize, 2usize]);
    hw
}

#[test]
fn find_path_takes_earliest_listed_neighbour() {
    assert_eq!(find_path(0, 3, &square(vec![1, 2])), Some(vec![0, 1, 3]));
    assert_eq!(find_path(0, 3, &square(vec![2, 1])), Some(vec![0, 2, 3]));
}

#[test]
fn route_cnot_follows_earliest_listed_neighbour() {
    let via_two = route_cnot(0, 3, &square(vec![2, 1]));
    assert_eq!(
        via_two,
        vec![
            Op::Gate2(Gate2::CX, 0, 2),
            Op::Gate2(Gate2::CX, 2, 0),
            Op::Gate2(Gate2::CX, 0, 2),
            Op::Gate2(Gate2::CX, 2, 3),
            Op::Gate2(Gate2::CX, 0, 2),
            Op::Gate2(Gate2::CX, 2, 0),
            Op::Gate2(Gate2::CX, 0, 2),
        ]
    );
}

#[test]
fn qubits_searched_after_the_target_need_no_neighbour_list() {
    let mut hw = std::collections::HashMap::new();
    hw.insert(0usize, vec![1usize]);
    hw.insert(1usize, vec![0usize, 2usize, 9usize]);
    hw.insert(2usize, vec![1usize]);
    assert_eq!(find_path(0, 2, &hw), Some(vec![0, 1, 2]));
    assert_eq!(
        route_cnot(0, 2, &hw),
        vec![
            Op::Gate2(Gate2::CX, 0, 1),
            Op::Gate2(Gate2::CX, 1, 0),
            Op::Gate2(Gate2::CX, 0, 1),
            Op::Gate2(Gate2::CX, 1, 2),
            Op::Gate2(Gate2::CX, 0, 1),
            Op::Gate2(Gate2::CX, 1, 0),
            Op::Gate2(Gate2::CX, 0, 1),
        ]
    );
}

#[test]
fn find_path_to_itself_needs_no_neighbour_list() {
    let line = line_hardware();
    assert_eq!(find_path(7, 7, &line), Some(vec![7]));
}

#[test]
fn find_path_none_when_unreachable() {
    let mut hw = std::collections::HashMap::new();
    hw.insert(0usize, vec![1usize]);
    hw.insert(1usize, vec![0usize]);
    hw.insert(2usize, vec![]);
    assert_eq!(find_path(0, 2, &hw), None);
}

#[test]
fn route_cnot_between_neighbours_is_unchanged() {
    let line = line_hardware();
    assert_eq!(route_cnot(1, 2, &line), vec![cx(1, 2)]);
}

#[test]
fn route_cnot_swaps_along_path_and_back() {
    let line = line_hardware();
    let ops = route_cnot(0, 2, &line);
    assert_eq!(ops, vec![cx(0, 1), cx(1, 0), cx(0, 1), cx(1, 2), cx(0, 1), cx(1, 0), cx(0, 1)]);
    let ops = route_cnot(0, 3, &line);
    assert_eq!(ops.len(), 3 * 2 + 1 + 3 * 2);
    assert_eq!(ops[6], cx(2, 3));
}

#[test]
fn routed_cnots_act_on_neighbours() {
    let t = t_hardware();
    let circuit = vec![
        Op::Gate1(Gate1::X, 0),
        cx(0, 1),
        Op::Gate1(Gate1::Rz(1.0f64.to_bits()), 2),
        cx(1, 3),
        Op::Measure(0, 0),
    ];
    let routed = route_circuit(circuit, &t);
    assert_eq!(routed[0], Op::Gate1(Gate1::X, 0));
    assert_eq!(*routed.last().unwrap(), Op::Measure(0, 0));
    for op in &routed {
        if let Op::Gate2(Gate2::CX, a, b) = op {
            assert!(t[a].contains(b), "CX {} {} is not between neighbours", a, b);
        }
    }
    assert_eq!(routed.iter().filter(|o| matches!(o, Op::Gate2(..))).count(), 14);
}

#[test]
fn bits_are_allocated_consecutively() {
    let env: ValueEnv = Env::new();
    let mut qbits = Bits::new(&env);
    let a = float_ops;
    qbits.insert_scalar("a".to_string());
    qbits.insert_array("q".to_string(), 3);
    qbits.insert_scalar("b".to_string());
    assert_eq!(qbits.next_free(), 5);
    assert_eq!(qbits.get_lval(&var("a"), &a), 0);
    assert_eq!(qbits.get_lval(&elem("q", 2), &a), 3);
    assert_eq!(qbits.get_lval(&var("b"), &a), 4);
    assert_eq!(qbits.try_get_lval(&var("c"), &a), Err(EvalError::UnknownBit));
}

#[test]
fn parameter_declarations_allocate_bits() {
    let env: ValueEnv = Env::new();
    let a = float_ops;
    let mut qbits = Bits::new(&env);
    let mut cbits = Bits::new(&env);
    let p = ParameterDeclaration::ArrayConst { ty: Type::Qbit, name: "q".to_string(), size: 4 };
    synth_parameter_declaration(&p, &mut qbits, &mut cbits, &env, &a);
    let p = ParameterDeclaration::Scalar { ty: Type::Cbit, name: "c".to_string() };
    synth_parameter_declaration(&p, &mut qbits, &mut cbits, &env, &a);
    let p = ParameterDeclaration::Scalar { ty: Type::Int, name: "n".to_string() };
    synth_parameter_declaration(&p, &mut qbits, &mut cbits, &env, &a);
    assert_eq!(qbits.next_free(), 4);
    assert_eq!(cbits.next_free(), 1);
    let p = ParameterDeclaration::ArrayVar { ty: Type::Qbit, name: "r".to_string(), size: "n".to_string() };
    assert_eq!(try_synth_parameter_declaration(&p, &mut qbits, &mut cbits, &env, &a), Err(EvalError::UnknownConstant));
}

fn program(stats: Vec<Statement>) -> Program {
    Program {
        procedures: vec![Procedure {
            name: "main".to_string(),
            params: vec![],
            body: Statement::Block(
                vec![
                    Declaration::Uninit { ty: Type::Qbit, lval: Lval::Array("q".to_string(), Box::new(Exp::Int(2))) },
                    Declaration::Uninit { ty: Type::Cbit, lval: var("c") },
                ],
                stats,
            ),
        }],
    }
}

#[test]
fn synth_hadamard_and_swap() {
    let a = float_ops;
    let p = program(vec![
        Statement::QUpdate(QUpdate::Gate(Gate::H, elem("q", 1))),
        Statement::QUpdate(QUpdate::Swap(elem("q", 0), elem("q", 1))),
    ]);
    let ops = synth_program(&p, Env::new(), &a);
    let pi = std::f64::consts::PI;
    assert_eq!(ops, vec![rz(pi, 1), Op::Gate1(Gate1::SX, 1), rz(pi, 1), cx(0, 1), cx(1, 0), cx(0, 1)]);
}

#[test]
fn synth_controlled_rz_halves_angle() {
    let a = float_ops;
    let p = program(vec![Statement::ConditionalQUpdate(
        QUpdate::Gate(Gate::Rz(Exp::Float(1.0f64.to_bits())), elem("q", 1)),
        elem("q", 0),
    )]);
    let ops = synth_program(&p, Env::new(), &a);
    assert_eq!(ops, vec![rz(0.5, 1), cx(0, 1), rz(-0.5, 1), cx(0, 1)]);
}

#[test]
fn synth_rotation_uses_known_values() {
    let a = float_ops;
    let mut env: ValueEnv = Env::new();
    env.insert("theta".to_string(), Value::Scalar(Scalar::Int(2)));
    let p = program(vec![Statement::QUpdate(QUpdate::Gate(
        Gate::Ry(Exp::Lval(var("theta"))),
        elem("q", 0),
    ))]);
    let ops = synth_program(&p, env, &a);
    let pi = std::f64::consts::PI;
    let half = std::f64::consts::FRAC_PI_2;
    assert_eq!(
        ops,
        vec![
            rz(half, 0),
            rz(pi, 0),
            Op::Gate1(Gate1::SX, 0),
            rz(pi, 0),
            rz(2.0, 0),
            rz(pi, 0),
            Op::Gate1(Gate1::SX, 0),
            rz(pi, 0),
            rz(-half, 0),
        ]
    );
}

#[test]
fn synth_refuses_controlled_swap_and_unknown_angles() {
    let a = float_ops;
    let p = program(vec![Statement::ConditionalQUpdate(QUpdate::Swap(elem("q", 0), elem("q", 1)), elem("q", 0))]);
    assert_eq!(try_synth_program(&p, Env::new(), &a), Err(EvalError::ControlledSwap));
    let p = program(vec![Statement::QUpdate(QUpdate::Gate(Gate::Rz(Exp::Lval(var("theta"))), elem("q", 0)))]);
    assert_eq!(try_synth_program(&p, Env::new(), &a), Err(EvalError::MissingValue));
    let p = program(vec![Statement::QUpdate(QUpdate::Gate(Gate::Not, var("nowhere")))]);
    assert_eq!(try_synth_program(&p, Env::new(), &a), Err(EvalError::UnknownBit));
}

#[test]
fn synth_measure_uses_qubit_numbers() {
    let a = float_ops;
    let p = program(vec![Statement::Measure(elem("q", 1), elem("q", 0))]);
    assert_eq!(synth_program(&p, Env::new(), &a), vec![Op::Measure(1, 0)]);
}

#[test]
fn routes_example_circuit_on_line() {
    let circuit = vec![
        Op::Gate1(Gate1::X, 0),
        Op::Gate2(Gate2::CX, 0, 2),
        Op::Gate1(Gate1::Rz(1.0f64.to_bits()), 2),
        Op::Gate2(Gate2::CX, 1, 3),
    ];
    let swap = |a: usize, b: usize| vec![Op::Gate2(Gate2::CX, a, b), Op::Gate2(Gate2::CX, b, a), Op::Gate2(Gate2::CX, a, b)];
    let mut expected = vec![Op::Gate1(Gate1::X, 0)];
    expected.extend(swap(0, 1));
    expected.push(Op::Gate2(Gate2::CX, 1, 2));
    expected.extend(swap(0, 1));
    expected.push(Op::Gate1(Gate1::Rz(1.0f64.to_bits()), 2));
    expected.extend(swap(1, 2));
    expected.push(Op::Gate2(Gate2::CX, 2, 3));
    expected.extend(swap(1, 2));
    assert_eq!(route_circuit(circuit, &line_hardware()), expected);
}

#[test]
fn routing_a_joined_circuit_joins_the_routings() {
    let line = line_hardware();
    let a = vec![Op::Gate2(Gate2::CX, 0, 2), Op::Gate1(Gate1::X, 1)];
    let b = vec![Op::Measure(3, 0), Op::Gate2(Gate2::CX, 3, 1)];
    let mut ab = a.clone();
    ab.extend(b.clone());
    let mut joined = route_circuit(a, &line);
    joined.extend(route_circuit(b, &line));
    assert_eq!(route_circuit(ab, &line), joined);
}
