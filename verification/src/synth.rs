//! Synthesis of a program's quantum updates into a circuit of elementary
//! operations on numbered qubits.
use vstd::prelude::*;
use crate::ast::{
    Declaration,
    DeclarationV,
    Exp,
    Gate,
    GateV,
    Lval,
    LvalV,
    ParamV,
    ParameterDeclaration,
    Program,
    ProgramV,
    QUpdate,
    QUpdateV,
    Statement,
    StatementV,
    Type,
    decls_view,
    lemma_block_view,
    procs_view,
    stmts_view,
};
use crate::env::{Env, find_value, lookup};
use crate::interpret::{EnvV, ValueEnv, try_interpret_exp, spec_interp_exp};
use crate::part_eval::known;
use crate::value::{
    EvalError,
    FloatOp,
    FRAC_PI_2_BITS,
    PI_BITS,
    SIGN_BIT,
    TWO_BITS,
    arith_ok,
    float_call,
    float_of,
    scalar_to_f64,
    scalar_to_usize,
    spec_scalar_to_f64,
    spec_scalar_to_usize,
};

verus! {

/// Single-qubit gates of the target machine. The angle of `Rz` is held as
/// the bit pattern of an IEEE-754 double.
#[derive(Debug, Clone, Copy, PartialEq, Eq, Structural)]
pub enum Gate1 {
    X,
    SX,
    Rz(u64),
}

/// Two-qubit gates of the target machine.
#[derive(Debug, Clone, Copy, PartialEq, Eq, Structural)]
pub enum Gate2 {
    CX,
}

/// An operation of a circuit.
#[derive(Debug, Clone, Copy, PartialEq, Eq, Structural)]
pub enum Op {
    Gate1(Gate1, usize),
    Gate2(Gate2, usize, usize),
    Measure(usize, usize),
}

/// The bit pattern of `-pi / 2`.
pub const NEG_FRAC_PI_2_BITS: u64 = 0xBFF921FB54442D18;

// ---------------------------------------------------------------------------
// Bit allocation
// ---------------------------------------------------------------------------

/// The model of an allocation of bits: the first bit of each name, and the
/// next free bit.
pub struct BitsV {
    pub table: Map<Seq<char>, usize>,
    pub next: usize,
}

/// An allocation of consecutive bits to names; a name's bits start at the
/// number it maps to. Indices are evaluated in `env`.
pub struct Bits<'a> {
    bits: Env<usize>,
    next_bit: usize,
    env: &'a ValueEnv,
}

impl<'a> View for Bits<'a> {
    type V = BitsV;

    closed spec fn view(&self) -> BitsV {
        BitsV {
            table: Map::new(
                |k: Seq<char>| self.bits@[0].contains_key(k),
                |k: Seq<char>| self.bits@[0][k]->0,
            ),
            next: self.next_bit,
        }
    }
}

/// The allocation after giving `n` one bit.
pub open spec fn add_scalar(b: BitsV, n: Seq<char>) -> Result<BitsV, EvalError> {
    if b.next >= usize::MAX {
        Err(EvalError::Overflow)
    } else {
        Ok(BitsV { table: b.table.insert(n, b.next), next: (b.next + 1) as usize })
    }
}

/// The allocation after giving `n` `size` bits.
pub open spec fn add_array(b: BitsV, n: Seq<char>, size: usize) -> Result<BitsV, EvalError> {
    if b.next + size > usize::MAX {
        Err(EvalError::Overflow)
    } else {
        Ok(BitsV { table: b.table.insert(n, b.next), next: (b.next + size) as usize })
    }
}

/// The value of an expression that must be known.
pub open spec fn known_exp<A: Fn(FloatOp) -> u64>(a: &A, e: crate::ast::ExpV, m: EnvV) -> Result<
    crate::value::Scalar,
    EvalError,
> {
    known(spec_interp_exp(a, e, m))
}

/// The allocation after a declaration of `l`: a variable gets one bit, an
/// array as many as its size evaluates to.
pub open spec fn spec_insert_lval<A: Fn(FloatOp) -> u64>(a: &A, b: BitsV, l: LvalV, m: EnvV) -> Result<
    BitsV,
    EvalError,
> {
    match l {
        LvalV::Var(n) => add_scalar(b, n),
        LvalV::Array(n, e) => match known_exp(a, *e, m) {
            Err(x) => Err(x),
            Ok(v) => add_array(b, n, spec_scalar_to_usize(a, v)),
        },
    }
}

/// The bit of a location: a variable's first bit, or an array's first bit
/// plus the index.
pub open spec fn spec_get_lval<A: Fn(FloatOp) -> u64>(a: &A, b: BitsV, l: LvalV, m: EnvV) -> Result<
    usize,
    EvalError,
> {
    match l {
        LvalV::Var(n) => if b.table.contains_key(n) {
            Ok(b.table[n])
        } else {
            Err(EvalError::UnknownBit)
        },
        LvalV::Array(n, e) => match known_exp(a, *e, m) {
            Err(x) => Err(x),
            Ok(v) => if !b.table.contains_key(n) {
                Err(EvalError::UnknownBit)
            } else if b.table[n] + spec_scalar_to_usize(a, v) > usize::MAX {
                Err(EvalError::Overflow)
            } else {
                Ok((b.table[n] + spec_scalar_to_usize(a, v)) as usize)
            },
        },
    }
}

/// In an environment of one scope, a lookup reads that scope.
proof fn lemma_lookup_one_scope(m: Seq<Map<Seq<char>, Option<usize>>>, k: Seq<char>)
    requires
        m.len() == 1,
    ensures
        lookup(m, k) == if m[0].contains_key(k) {
            m[0][k]
        } else {
            None
        },
{
    reveal_with_fuel(find_value, 2);
}

impl<'a> Bits<'a> {
    pub closed spec fn wf(&self) -> bool {
        &&& self.bits.wf()
        &&& self.bits@.len() == 1
        &&& forall|k: Seq<char>| #[trigger] self.bits@[0].contains_key(k) ==> self.bits@[0][k] is Some
        &&& self.env.wf()
    }

    /// The environment in which indices and sizes are evaluated.
    pub closed spec fn values(&self) -> EnvV {
        self.env@
    }

    /// No bits allocated yet.
    pub fn new(env: &'a ValueEnv) -> (r: Self)
        requires
            env.wf(),
        ensures
            r.wf(),
            r@.table == Map::<Seq<char>, usize>::empty(),
            r@.next == 0,
            r.values() == env@,
    {
        let r = Bits { bits: Env::new(), next_bit: 0, env };
        assert(r@.table =~= Map::<Seq<char>, usize>::empty());
        r
    }

    /// The next free bit.
    pub fn next_free(&self) -> (r: usize)
        ensures
            r == self@.next,
    {
        self.next_bit
    }

    fn set_start(&mut self, name: String, b: usize)
        requires
            old(self).wf(),
        ensures
            final(self).wf(),
            final(self)@.table == old(self)@.table.insert(name@, b),
            final(self)@.next == old(self)@.next,
            final(self).values() == old(self).values(),
    {
        let ghost t0 = self@.table;
        self.bits.insert(name, b);
        assert(self@.table =~= t0.insert(name@, b));
    }

    /// Gives `name` the next bit.
    pub fn insert_scalar(&mut self, name: String)
        requires
            old(self).wf(),
            old(self)@.next < usize::MAX,
        ensures
            final(self).wf(),
            Ok::<BitsV, EvalError>(final(self)@) == add_scalar(old(self)@, name@),
            final(self).values() == old(self).values(),
    {
        let b = self.next_bit;
        self.next_bit = self.next_bit + 1;
        self.set_start(name, b);
    }

    /// Gives `name` the next `size` bits.
    pub fn insert_array(&mut self, name: String, size: usize)
        requires
            old(self).wf(),
            old(self)@.next + size <= usize::MAX,
        ensures
            final(self).wf(),
            Ok::<BitsV, EvalError>(final(self)@) == add_array(old(self)@, name@, size),
            final(self).values() == old(self).values(),
    {
        let b = self.next_bit;
        self.next_bit = self.next_bit + size;
        self.set_start(name, b);
    }

    /// Allocates the bits of a declared location; see [`spec_insert_lval`].
    pub fn try_insert_lval<A: Fn(FloatOp) -> u64>(&mut self, l: &Lval, a: &A) -> (r: Result<(), EvalError>)
        requires
            old(self).wf(),
            arith_ok(a),
        ensures
            final(self).wf(),
            final(self).values() == old(self).values(),
            match r {
                Ok(_) => spec_insert_lval(a, old(self)@, l@, old(self).values()) == Ok::<
                    BitsV,
                    EvalError,
                >(final(self)@),
                Err(x) => spec_insert_lval(a, old(self)@, l@, old(self).values()) == Err::<
                    BitsV,
                    EvalError,
                >(x),
            },
    {
        match l {
            Lval::Var(name) => {
                if self.next_bit == usize::MAX {
                    return Err(EvalError::Overflow);
                }
                self.insert_scalar(name.clone());
                Ok(())
            },
            Lval::Array(name, size) => {
                let v = match try_interpret_exp(size, self.env, a) {
                    Ok(Some(v)) => v,
                    Ok(None) => return Err(EvalError::MissingValue),
                    Err(x) => return Err(x),
                };
                let n = scalar_to_usize(v, a);
                if n > usize::MAX - self.next_bit {
                    return Err(EvalError::Overflow);
                }
                self.insert_array(name.clone(), n);
                Ok(())
            },
        }
    }

    /// The bit of a location; see [`spec_get_lval`].
    pub fn try_get_lval<A: Fn(FloatOp) -> u64>(&self, l: &Lval, a: &A) -> (r: Result<usize, EvalError>)
        requires
            self.wf(),
            arith_ok(a),
        ensures
            r == spec_get_lval(a, self@, l@, self.values()),
    {
        proof {
            lemma_lookup_one_scope(self.bits@, l@->Var_0);
            if l@ is Array {
                lemma_lookup_one_scope(self.bits@, l@->Array_0);
            }
        }
        match l {
            Lval::Var(name) => match self.bits.get(name.as_str()) {
                Some(b) => Ok(*b),
                None => Err(EvalError::UnknownBit),
            },
            Lval::Array(name, idx) => {
                let v = match try_interpret_exp(idx, self.env, a) {
                    Ok(Some(v)) => v,
                    Ok(None) => return Err(EvalError::MissingValue),
                    Err(x) => return Err(x),
                };
                let i = scalar_to_usize(v, a);
                match self.bits.get(name.as_str()) {
                    Some(start) => if *start > usize::MAX - i {
                        Err(EvalError::Overflow)
                    } else {
                        Ok(*start + i)
                    },
                    None => Err(EvalError::UnknownBit),
                }
            },
        }
    }
}

// ---------------------------------------------------------------------------
// Gates
// ---------------------------------------------------------------------------

pub open spec fn rz(theta: u64, q: usize) -> Op {
    Op::Gate1(Gate1::Rz(theta), q)
}

pub open spec fn cnot(c: usize, t: usize) -> Op {
    Op::Gate2(Gate2::CX, c, t)
}

/// A Hadamard gate: `Rz(pi) SX Rz(pi)`.
pub open spec fn h_ops(q: usize) -> Seq<Op> {
    seq![rz(PI_BITS, q), Op::Gate1(Gate1::SX, q), rz(PI_BITS, q)]
}

/// The angle an expression gives, as a float.
pub open spec fn angle<A: Fn(FloatOp) -> u64>(a: &A, e: crate::ast::ExpV, m: EnvV) -> Result<
    u64,
    EvalError,
> {
    match known_exp(a, e, m) {
        Err(x) => Err(x),
        Ok(v) => Ok(spec_scalar_to_f64(a, v)),
    }
}

/// The operations of a gate on qubit `q`.
pub open spec fn spec_gate_ops<A: Fn(FloatOp) -> u64>(a: &A, g: GateV, q: usize, m: EnvV) -> Result<
    Seq<Op>,
    EvalError,
> {
    match g {
        GateV::Not => Ok(seq![Op::Gate1(Gate1::X, q)]),
        GateV::H => Ok(h_ops(q)),
        GateV::Rz(e) | GateV::P(e) => match angle(a, e, m) {
            Err(x) => Err(x),
            Ok(v) => Ok(seq![rz(v, q)]),
        },
        GateV::Rx(e) => match angle(a, e, m) {
            Err(x) => Err(x),
            Ok(v) => Ok(h_ops(q) + seq![rz(v, q)] + h_ops(q)),
        },
        GateV::Ry(e) => match angle(a, e, m) {
            Err(x) => Err(x),
            Ok(v) => Ok(
                seq![rz(FRAC_PI_2_BITS, q)] + h_ops(q) + seq![rz(v, q)] + h_ops(q) + seq![
                    rz(NEG_FRAC_PI_2_BITS, q),
                ],
            ),
        },
    }
}

/// A controlled `Rz(theta)`: `Rz(theta / 2)`, CNOT, `Rz(-theta / 2)`, CNOT.
pub open spec fn crz_ops<A: Fn(FloatOp) -> u64>(a: &A, theta: u64, c: usize, t: usize) -> Seq<Op> {
    seq![
        rz(float_of(a, FloatOp::Div(theta, TWO_BITS)), t),
        cnot(c, t),
        rz(float_of(a, FloatOp::Div(theta ^ SIGN_BIT, TWO_BITS)), t),
        cnot(c, t),
    ]
}

/// The operations of a gate on qubit `t` controlled by qubit `c`.
pub open spec fn spec_cond_gate_ops<A: Fn(FloatOp) -> u64>(
    a: &A,
    g: GateV,
    c: usize,
    t: usize,
    m: EnvV,
) -> Result<Seq<Op>, EvalError> {
    match g {
        GateV::Not => Ok(seq![cnot(c, t)]),
        GateV::Rz(e) | GateV::P(e) => match angle(a, e, m) {
            Err(x) => Err(x),
            Ok(v) => Ok(crz_ops(a, v, c, t)),
        },
        GateV::Rx(e) => match angle(a, e, m) {
            Err(x) => Err(x),
            Ok(v) => Ok(h_ops(t) + crz_ops(a, v, c, t) + h_ops(t)),
        },
        GateV::Ry(e) => match angle(a, e, m) {
            Err(x) => Err(x),
            Ok(v) => Ok(
                seq![rz(FRAC_PI_2_BITS, t)] + h_ops(t) + crz_ops(a, v, c, t) + h_ops(t) + seq![
                    rz(NEG_FRAC_PI_2_BITS, t),
                ],
            ),
        },
        GateV::H => Ok(h_ops(t) + seq![cnot(c, t)] + h_ops(t)),
    }
}

/// Whether the operations appended (from `before` to `after`) are those
/// that `spec` gives, or the call failed with the error `spec` gives.
pub open spec fn emits(
    spec: Result<Seq<Op>, EvalError>,
    r: Result<(), EvalError>,
    before: Seq<Op>,
    after: Seq<Op>,
) -> bool {
    match r {
        Ok(_) => spec matches Ok(s) && after == before + s,
        Err(x) => spec == Err::<Seq<Op>, EvalError>(x),
    }
}

fn push_h(q: usize, ops: &mut Vec<Op>)
    ensures
        final(ops)@ == old(ops)@ + h_ops(q),
{
    ops.push(Op::Gate1(Gate1::Rz(PI_BITS), q));
    ops.push(Op::Gate1(Gate1::SX, q));
    ops.push(Op::Gate1(Gate1::Rz(PI_BITS), q));
    assert(final(ops)@ =~= old(ops)@ + h_ops(q));
}

fn eval_angle<A: Fn(FloatOp) -> u64>(e: &Exp, env: &ValueEnv, a: &A) -> (r: Result<u64, EvalError>)
    requires
        env.wf(),
        arith_ok(a),
    ensures
        r == angle(a, e@, env@),
{
    match try_interpret_exp(e, env, a) {
        Ok(Some(v)) => Ok(scalar_to_f64(v, a)),
        Ok(None) => Err(EvalError::MissingValue),
        Err(x) => Err(x),
    }
}

/// Appends the operations of a gate on qubit `q`; see [`spec_gate_ops`].
fn synth_gate<A: Fn(FloatOp) -> u64>(g: &Gate, q: usize, ops: &mut Vec<Op>, env: &ValueEnv, a: &A) -> (r: Result<
    (),
    EvalError,
>)
    requires
        env.wf(),
        arith_ok(a),
    ensures
        emits(spec_gate_ops(a, g@, q, env@), r, old(ops)@, final(ops)@),
{
    let ghost o0 = ops@;
    match g {
        Gate::Not => {
            ops.push(Op::Gate1(Gate1::X, q));
            assert(ops@ =~= o0 + seq![Op::Gate1(Gate1::X, q)]);
        },
        Gate::H => {
            push_h(q, ops);
        },
        Gate::Rz(theta) | Gate::P(theta) => {
            let val = match eval_angle(theta, env, a) {
                Ok(v) => v,
                Err(x) => return Err(x),
            };
            ops.push(Op::Gate1(Gate1::Rz(val), q));
            assert(ops@ =~= o0 + seq![rz(val, q)]);
        },
        Gate::Rx(theta) => {
            let val = match eval_angle(theta, env, a) {
                Ok(v) => v,
                Err(x) => return Err(x),
            };
            push_h(q, ops);
            ops.push(Op::Gate1(Gate1::Rz(val), q));
            push_h(q, ops);
            assert(ops@ =~= o0 + (h_ops(q) + seq![rz(val, q)] + h_ops(q)));
        },
        Gate::Ry(theta) => {
            let val = match eval_angle(theta, env, a) {
                Ok(v) => v,
                Err(x) => return Err(x),
            };
            ops.push(Op::Gate1(Gate1::Rz(FRAC_PI_2_BITS), q));
            push_h(q, ops);
            ops.push(Op::Gate1(Gate1::Rz(val), q));
            push_h(q, ops);
            ops.push(Op::Gate1(Gate1::Rz(NEG_FRAC_PI_2_BITS), q));
            assert(ops@ =~= o0 + (seq![rz(FRAC_PI_2_BITS, q)] + h_ops(q) + seq![rz(val, q)] + h_ops(q)
                + seq![rz(NEG_FRAC_PI_2_BITS, q)]));
        },
    }
    Ok(())
}

/// Appends a controlled `Rz(theta)`; see [`crz_ops`].
fn synth_crz<A: Fn(FloatOp) -> u64>(theta: u64, c: usize, t: usize, ops: &mut Vec<Op>, a: &A)
    requires
        arith_ok(a),
    ensures
        final(ops)@ == old(ops)@ + crz_ops(a, theta, c, t),
{
    let half = float_call(a, FloatOp::Div(theta, TWO_BITS));
    let neg_half = float_call(a, FloatOp::Div(theta ^ SIGN_BIT, TWO_BITS));
    ops.push(Op::Gate1(Gate1::Rz(half), t));
    ops.push(Op::Gate2(Gate2::CX, c, t));
    ops.push(Op::Gate1(Gate1::Rz(neg_half), t));
    ops.push(Op::Gate2(Gate2::CX, c, t));
    assert(final(ops)@ =~= old(ops)@ + crz_ops(a, theta, c, t));
}

/// The operations of a quantum update.
pub open spec fn spec_qupdate_ops<A: Fn(FloatOp) -> u64>(a: &A, q: QUpdateV, qb: BitsV, m: EnvV) -> Result<
    Seq<Op>,
    EvalError,
> {
    match q {
        QUpdateV::Gate(g, l) => match spec_get_lval(a, qb, l, m) {
            Err(x) => Err(x),
            Ok(b) => spec_gate_ops(a, g, b, m),
        },
        QUpdateV::Swap(x, y) => match spec_get_lval(a, qb, x, m) {
            Err(e) => Err(e),
            Ok(bx) => match spec_get_lval(a, qb, y, m) {
                Err(e) => Err(e),
                Ok(by) => Ok(seq![cnot(bx, by), cnot(by, bx), cnot(bx, by)]),
            },
        },
    }
}

/// The operations of a quantum update controlled by bit `c`; a controlled
/// swap is refused.
pub open spec fn spec_cond_qupdate_ops<A: Fn(FloatOp) -> u64>(
    a: &A,
    q: QUpdateV,
    c: usize,
    qb: BitsV,
    m: EnvV,
) -> Result<Seq<Op>, EvalError> {
    match q {
        QUpdateV::Gate(g, l) => match spec_get_lval(a, qb, l, m) {
            Err(x) => Err(x),
            Ok(t) => spec_cond_gate_ops(a, g, c, t, m),
        },
        QUpdateV::Swap(_, _) => Err(EvalError::ControlledSwap),
    }
}

fn synth_qupdate<A: Fn(FloatOp) -> u64>(q: &QUpdate, ops: &mut Vec<Op>, qbits: &Bits, env: &ValueEnv, a: &A) -> (r:
    Result<(), EvalError>)
    requires
        qbits.wf(),
        env.wf(),
        qbits.values() == env@,
        arith_ok(a),
    ensures
        emits(spec_qupdate_ops(a, q@, qbits@, env@), r, old(ops)@, final(ops)@),
{
    let ghost o0 = ops@;
    match q {
        QUpdate::Gate(g, l) => {
            let b = match qbits.try_get_lval(l, a) {
                Ok(b) => b,
                Err(x) => return Err(x),
            };
            synth_gate(g, b, ops, env, a)
        },
        QUpdate::Swap(x, y) => {
            let qa = match qbits.try_get_lval(x, a) {
                Ok(b) => b,
                Err(e) => return Err(e),
            };
            let qb = match qbits.try_get_lval(y, a) {
                Ok(b) => b,
                Err(e) => return Err(e),
            };
            ops.push(Op::Gate2(Gate2::CX, qa, qb));
            ops.push(Op::Gate2(Gate2::CX, qb, qa));
            ops.push(Op::Gate2(Gate2::CX, qa, qb));
            assert(ops@ =~= o0 + seq![cnot(qa, qb), cnot(qb, qa), cnot(qa, qb)]);
            Ok(())
        },
    }
}

fn synth_cond_qupdate<A: Fn(FloatOp) -> u64>(
    q: &QUpdate,
    c: usize,
    ops: &mut Vec<Op>,
    qbits: &Bits,
    env: &ValueEnv,
    a: &A,
) -> (r: Result<(), EvalError>)
    requires
        qbits.wf(),
        env.wf(),
        qbits.values() == env@,
        arith_ok(a),
    ensures
        emits(spec_cond_qupdate_ops(a, q@, c, qbits@, env@), r, old(ops)@, final(ops)@),
{
    let ghost o0 = ops@;
    match q {
        QUpdate::Gate(g, l) => {
            let t = match qbits.try_get_lval(l, a) {
                Ok(b) => b,
                Err(x) => return Err(x),
            };
            match g {
                Gate::Not => {
                    ops.push(Op::Gate2(Gate2::CX, c, t));
                    assert(ops@ =~= o0 + seq![cnot(c, t)]);
                },
                Gate::Rz(theta) | Gate::P(theta) => {
                    let v = match eval_angle(theta, env, a) {
                        Ok(v) => v,
                        Err(x) => return Err(x),
                    };
                    synth_crz(v, c, t, ops, a);
                },
                Gate::Rx(theta) => {
                    let v = match eval_angle(theta, env, a) {
                        Ok(v) => v,
                        Err(x) => return Err(x),
                    };
                    push_h(t, ops);
                    synth_crz(v, c, t, ops, a);
                    push_h(t, ops);
                    assert(ops@ =~= o0 + (h_ops(t) + crz_ops(a, v, c, t) + h_ops(t)));
                },
                Gate::Ry(theta) => {
                    let v = match eval_angle(theta, env, a) {
                        Ok(v) => v,
                        Err(x) => return Err(x),
                    };
                    ops.push(Op::Gate1(Gate1::Rz(FRAC_PI_2_BITS), t));
                    push_h(t, ops);
                    synth_crz(v, c, t, ops, a);
                    push_h(t, ops);
                    ops.push(Op::Gate1(Gate1::Rz(NEG_FRAC_PI_2_BITS), t));
                    assert(ops@ =~= o0 + (seq![rz(FRAC_PI_2_BITS, t)] + h_ops(t) + crz_ops(a, v, c, t)
                        + h_ops(t) + seq![rz(NEG_FRAC_PI_2_BITS, t)]));
                },
                Gate::H => {
                    push_h(t, ops);
                    ops.push(Op::Gate2(Gate2::CX, c, t));
                    push_h(t, ops);
                    assert(ops@ =~= o0 + (h_ops(t) + seq![cnot(c, t)] + h_ops(t)));
                },
            }
            Ok(())
        },
        QUpdate::Swap(_, _) => Err(EvalError::ControlledSwap),
    }
}

// ---------------------------------------------------------------------------
// Declarations
// ---------------------------------------------------------------------------

pub open spec fn with_q(r: Result<BitsV, EvalError>, cb: BitsV) -> Result<(BitsV, BitsV), EvalError> {
    match r {
        Ok(qb) => Ok((qb, cb)),
        Err(x) => Err(x),
    }
}

pub open spec fn with_c(qb: BitsV, r: Result<BitsV, EvalError>) -> Result<(BitsV, BitsV), EvalError> {
    match r {
        Ok(cb) => Ok((qb, cb)),
        Err(x) => Err(x),
    }
}

/// The allocations after a declaration: qbits and cbits get bits from
/// their own allocations, other types none.
pub open spec fn spec_synth_decl<A: Fn(FloatOp) -> u64>(
    a: &A,
    d: DeclarationV,
    qb: BitsV,
    cb: BitsV,
    m: EnvV,
) -> Result<(BitsV, BitsV), EvalError> {
    match d {
        DeclarationV::Uninit { ty, lval } => match ty {
            Type::Qbit => with_q(spec_insert_lval(a, qb, lval, m), cb),
            Type::Cbit => with_c(qb, spec_insert_lval(a, cb, lval, m)),
            _ => Ok((qb, cb)),
        },
        DeclarationV::InitScalar { ty, name, .. } => match ty {
            Type::Qbit => with_q(add_scalar(qb, name), cb),
            Type::Cbit => with_c(qb, add_scalar(cb, name)),
            _ => Ok((qb, cb)),
        },
        DeclarationV::InitArray { ty, name, size, .. } => match known_exp(a, size, m) {
            Err(x) => Err(x),
            Ok(v) => match ty {
                Type::Qbit => with_q(add_array(qb, name, spec_scalar_to_usize(a, v)), cb),
                Type::Cbit => with_c(qb, add_array(cb, name, spec_scalar_to_usize(a, v))),
                _ => Ok((qb, cb)),
            },
        },
    }
}

/// The allocations after a parameter declaration; the size of an array
/// whose size is a name is the value of that name as a named constant.
pub open spec fn spec_synth_param<A: Fn(FloatOp) -> u64>(
    a: &A,
    p: ParamV,
    qb: BitsV,
    cb: BitsV,
    m: EnvV,
) -> Result<(BitsV, BitsV), EvalError> {
    match p {
        ParamV::Scalar { ty, name } => match ty {
            Type::Qbit => with_q(add_scalar(qb, name), cb),
            Type::Cbit => with_c(qb, add_scalar(cb, name)),
            _ => Ok((qb, cb)),
        },
        ParamV::ArrayConst { ty, name, size } => match ty {
            Type::Qbit => with_q(add_array(qb, name, size as usize), cb),
            Type::Cbit => with_c(qb, add_array(cb, name, size as usize)),
            _ => Ok((qb, cb)),
        },
        ParamV::ArrayVar { ty, name, size } => match known_exp(
            a,
            crate::ast::ExpV::NamedConst(size),
            m,
        ) {
            Err(x) => Err(x),
            Ok(v) => match ty {
                Type::Qbit => with_q(add_array(qb, name, spec_scalar_to_usize(a, v)), cb),
                Type::Cbit => with_c(qb, add_array(cb, name, spec_scalar_to_usize(a, v))),
                _ => Ok((qb, cb)),
            },
        },
    }
}

/// Whether the allocations now match what `spec` gives, or the call failed
/// with the error `spec` gives.
pub open spec fn allocates(
    spec: Result<(BitsV, BitsV), EvalError>,
    r: Result<(), EvalError>,
    qb: BitsV,
    cb: BitsV,
) -> bool {
    match r {
        Ok(_) => spec == Ok::<(BitsV, BitsV), EvalError>((qb, cb)),
        Err(x) => spec == Err::<(BitsV, BitsV), EvalError>(x),
    }
}

fn alloc_scalar(bits: &mut Bits, name: String) -> (r: Result<(), EvalError>)
    requires
        old(bits).wf(),
    ensures
        final(bits).wf(),
        final(bits).values() == old(bits).values(),
        match r {
            Ok(_) => add_scalar(old(bits)@, name@) == Ok::<BitsV, EvalError>(final(bits)@),
            Err(x) => add_scalar(old(bits)@, name@) == Err::<BitsV, EvalError>(x),
        },
{
    if bits.next_free() == usize::MAX {
        return Err(EvalError::Overflow);
    }
    bits.insert_scalar(name);
    Ok(())
}

fn alloc_array(bits: &mut Bits, name: String, size: usize) -> (r: Result<(), EvalError>)
    requires
        old(bits).wf(),
    ensures
        final(bits).wf(),
        final(bits).values() == old(bits).values(),
        match r {
            Ok(_) => add_array(old(bits)@, name@, size) == Ok::<BitsV, EvalError>(final(bits)@),
            Err(x) => add_array(old(bits)@, name@, size) == Err::<BitsV, EvalError>(x),
        },
{
    if size > usize::MAX - bits.next_free() {
        return Err(EvalError::Overflow);
    }
    bits.insert_array(name, size);
    Ok(())
}

/// Allocates the bits a declaration declares; see [`spec_synth_decl`].
pub fn try_synth_declaration<A: Fn(FloatOp) -> u64>(
    d: &Declaration,
    qbits: &mut Bits,
    cbits: &mut Bits,
    env: &ValueEnv,
    a: &A,
) -> (r: Result<(), EvalError>)
    requires
        old(qbits).wf(),
        old(cbits).wf(),
        env.wf(),
        old(qbits).values() == env@,
        old(cbits).values() == env@,
        arith_ok(a),
    ensures
        final(qbits).wf(),
        final(cbits).wf(),
        final(qbits).values() == env@,
        final(cbits).values() == env@,
        allocates(spec_synth_decl(a, d@, old(qbits)@, old(cbits)@, env@), r, final(qbits)@, final(cbits)@),
{
    match d {
        Declaration::Uninit { ty, lval } => match ty {
            Type::Qbit => qbits.try_insert_lval(lval, a),
            Type::Cbit => cbits.try_insert_lval(lval, a),
            _ => Ok(()),
        },
        Declaration::InitScalar { ty, name, .. } => match ty {
            Type::Qbit => alloc_scalar(qbits, name.clone()),
            Type::Cbit => alloc_scalar(cbits, name.clone()),
            _ => Ok(()),
        },
        Declaration::InitArray { ty, name, size, .. } => {
            let v = match try_interpret_exp(size, env, a) {
                Ok(Some(v)) => v,
                Ok(None) => return Err(EvalError::MissingValue),
                Err(x) => return Err(x),
            };
            let n = scalar_to_usize(v, a);
            match ty {
                Type::Qbit => alloc_array(qbits, name.clone(), n),
                Type::Cbit => alloc_array(cbits, name.clone(), n),
                _ => Ok(()),
            }
        },
    }
}

/// Allocates the bits a parameter declares; see [`spec_synth_param`].
pub fn try_synth_parameter_declaration<A: Fn(FloatOp) -> u64>(
    p: &ParameterDeclaration,
    qbits: &mut Bits,
    cbits: &mut Bits,
    env: &ValueEnv,
    a: &A,
) -> (r: Result<(), EvalError>)
    requires
        old(qbits).wf(),
        old(cbits).wf(),
        env.wf(),
        arith_ok(a),
    ensures
        final(qbits).wf(),
        final(cbits).wf(),
        final(qbits).values() == old(qbits).values(),
        final(cbits).values() == old(cbits).values(),
        allocates(spec_synth_param(a, p@, old(qbits)@, old(cbits)@, env@), r, final(qbits)@, final(cbits)@),
{
    match p {
        ParameterDeclaration::Scalar { ty, name } => match ty {
            Type::Qbit => alloc_scalar(qbits, name.clone()),
            Type::Cbit => alloc_scalar(cbits, name.clone()),
            _ => Ok(()),
        },
        ParameterDeclaration::ArrayConst { ty, name, size } => match ty {
            Type::Qbit => alloc_array(qbits, name.clone(), *size as usize),
            Type::Cbit => alloc_array(cbits, name.clone(), *size as usize),
            _ => Ok(()),
        },
        ParameterDeclaration::ArrayVar { ty, name, size } => {
            let size_exp = Exp::NamedConst(size.clone());
            let v = match try_interpret_exp(&size_exp, env, a) {
                Ok(Some(v)) => v,
                Ok(None) => return Err(EvalError::MissingValue),
                Err(x) => return Err(x),
            };
            let n = scalar_to_usize(v, a);
            match ty {
                Type::Qbit => alloc_array(qbits, name.clone(), n),
                Type::Cbit => alloc_array(cbits, name.clone(), n),
                _ => Ok(()),
            }
        },
    }
}

// ---------------------------------------------------------------------------
// Statements and programs
// ---------------------------------------------------------------------------

/// The allocations after declarations in order, up to the first error.
pub open spec fn spec_synth_decls<A: Fn(FloatOp) -> u64>(
    a: &A,
    ds: Seq<DeclarationV>,
    qb: BitsV,
    cb: BitsV,
    m: EnvV,
) -> Result<(BitsV, BitsV), EvalError>
    decreases ds.len(),
{
    if ds.len() == 0 {
        Ok((qb, cb))
    } else {
        match spec_synth_decls(a, ds.drop_last(), qb, cb, m) {
            Err(x) => Err(x),
            Ok((q1, c1)) => spec_synth_decl(a, ds.last(), q1, c1, m),
        }
    }
}

/// The operations of a statement and the allocations after it: a block
/// allocates its declarations and synthesizes its statements; quantum
/// updates and measurements give operations; other statements none.
pub open spec fn spec_synth_stmt<A: Fn(FloatOp) -> u64>(
    a: &A,
    s: StatementV,
    qb: BitsV,
    cb: BitsV,
    m: EnvV,
) -> Result<(Seq<Op>, BitsV, BitsV), EvalError>
    decreases s,
{
    match s {
        StatementV::Block(ds, ss) => match spec_synth_decls(a, ds, qb, cb, m) {
            Err(x) => Err(x),
            Ok((q1, c1)) => spec_synth_stmts(a, ss, q1, c1, m),
        },
        StatementV::QUpdate(q) => match spec_qupdate_ops(a, q, qb, m) {
            Err(x) => Err(x),
            Ok(o) => Ok((o, qb, cb)),
        },
        StatementV::ConditionalQUpdate(q, c) => match spec_get_lval(a, qb, c, m) {
            Err(x) => Err(x),
            Ok(cbit) => match spec_cond_qupdate_ops(a, q, cbit, qb, m) {
                Err(x) => Err(x),
                Ok(o) => Ok((o, qb, cb)),
            },
        },
        StatementV::Measure(q, c) => match spec_get_lval(a, qb, q, m) {
            Err(x) => Err(x),
            Ok(qi) => match spec_get_lval(a, qb, c, m) {
                Err(x) => Err(x),
                Ok(ci) => Ok((seq![Op::Measure(qi, ci)], qb, cb)),
            },
        },
        _ => Ok((Seq::empty(), qb, cb)),
    }
}

/// The operations of statements in order, up to the first error.
pub open spec fn spec_synth_stmts<A: Fn(FloatOp) -> u64>(
    a: &A,
    ss: Seq<StatementV>,
    qb: BitsV,
    cb: BitsV,
    m: EnvV,
) -> Result<(Seq<Op>, BitsV, BitsV), EvalError>
    decreases ss,
{
    if ss.len() == 0 {
        Ok((Seq::empty(), qb, cb))
    } else {
        match spec_synth_stmts(a, ss.drop_last(), qb, cb, m) {
            Err(x) => Err(x),
            Ok((o1, q1, c1)) => match spec_synth_stmt(a, ss.last(), q1, c1, m) {
                Err(x) => Err(x),
                Ok((o2, q2, c2)) => Ok((o1 + o2, q2, c2)),
            },
        }
    }
}

/// Whether the operations appended and the allocations now match what
/// `spec` gives, or the call failed with the error `spec` gives.
pub open spec fn synthesizes(
    spec: Result<(Seq<Op>, BitsV, BitsV), EvalError>,
    r: Result<(), EvalError>,
    before: Seq<Op>,
    after: Seq<Op>,
    qb: BitsV,
    cb: BitsV,
) -> bool {
    match r {
        Ok(_) => spec matches Ok((o, q, c)) && after == before + o && q == qb && c == cb,
        Err(x) => spec == Err::<(Seq<Op>, BitsV, BitsV), EvalError>(x),
    }
}

proof fn lemma_synth_decls_prefix_err<A: Fn(FloatOp) -> u64>(
    a: &A,
    ds: Seq<DeclarationV>,
    qb: BitsV,
    cb: BitsV,
    m: EnvV,
    n: int,
    x: EvalError,
)
    requires
        0 <= n <= ds.len(),
        spec_synth_decls(a, ds.take(n), qb, cb, m) == Err::<(BitsV, BitsV), EvalError>(x),
    ensures
        spec_synth_decls(a, ds, qb, cb, m) == Err::<(BitsV, BitsV), EvalError>(x),
    decreases ds.len() - n,
{
    if n < ds.len() {
        assert(ds.take(n + 1).drop_last() =~= ds.take(n));
        lemma_synth_decls_prefix_err(a, ds, qb, cb, m, n + 1, x);
    } else {
        assert(ds.take(n) =~= ds);
    }
}

proof fn lemma_synth_stmts_prefix_err<A: Fn(FloatOp) -> u64>(
    a: &A,
    ss: Seq<StatementV>,
    qb: BitsV,
    cb: BitsV,
    m: EnvV,
    n: int,
    x: EvalError,
)
    requires
        0 <= n <= ss.len(),
        spec_synth_stmts(a, ss.take(n), qb, cb, m) == Err::<(Seq<Op>, BitsV, BitsV), EvalError>(x),
    ensures
        spec_synth_stmts(a, ss, qb, cb, m) == Err::<(Seq<Op>, BitsV, BitsV), EvalError>(x),
    decreases ss.len() - n,
{
    if n < ss.len() {
        assert(ss.take(n + 1).drop_last() =~= ss.take(n));
        lemma_synth_stmts_prefix_err(a, ss, qb, cb, m, n + 1, x);
    } else {
        assert(ss.take(n) =~= ss);
    }
}

fn synth_declarations<A: Fn(FloatOp) -> u64>(
    ds: &Vec<Declaration>,
    qbits: &mut Bits,
    cbits: &mut Bits,
    env: &ValueEnv,
    a: &A,
) -> (r: Result<(), EvalError>)
    requires
        old(qbits).wf(),
        old(cbits).wf(),
        env.wf(),
        old(qbits).values() == env@,
        old(cbits).values() == env@,
        arith_ok(a),
    ensures
        final(qbits).wf(),
        final(cbits).wf(),
        final(qbits).values() == env@,
        final(cbits).values() == env@,
        allocates(
            spec_synth_decls(a, decls_view(ds@), old(qbits)@, old(cbits)@, env@),
            r,
            final(qbits)@,
            final(cbits)@,
        ),
{
    let ghost all = decls_view(ds@);
    let ghost q0 = qbits@;
    let ghost c0 = cbits@;
    assert(all.take(0) =~= Seq::<DeclarationV>::empty());
    for k in 0..ds.len()
        invariant
            qbits.wf(),
            cbits.wf(),
            env.wf(),
            qbits.values() == env@,
            cbits.values() == env@,
            arith_ok(a),
            all == decls_view(ds@),
            q0 == old(qbits)@,
            c0 == old(cbits)@,
            spec_synth_decls(a, all.take(k as int), q0, c0, env@) == Ok::<(BitsV, BitsV), EvalError>(
                (qbits@, cbits@),
            ),
    {
        assert(all.take(k + 1).drop_last() =~= all.take(k as int));
        assert(all.take(k + 1).last() == ds@[k as int]@);
        match try_synth_declaration(&ds[k], qbits, cbits, env, a) {
            Ok(_) => {},
            Err(x) => {
                proof {
                    lemma_synth_decls_prefix_err(a, all, q0, c0, env@, k + 1, x);
                }
                return Err(x);
            },
        }
    }
    assert(all.take(ds.len() as int) =~= all);
    Ok(())
}

fn synth_statements<A: Fn(FloatOp) -> u64>(
    ss: &Vec<Statement>,
    ops: &mut Vec<Op>,
    qbits: &mut Bits,
    cbits: &mut Bits,
    env: &ValueEnv,
    a: &A,
) -> (r: Result<(), EvalError>)
    requires
        old(qbits).wf(),
        old(cbits).wf(),
        env.wf(),
        old(qbits).values() == env@,
        old(cbits).values() == env@,
        arith_ok(a),
    ensures
        final(qbits).wf(),
        final(cbits).wf(),
        final(qbits).values() == env@,
        final(cbits).values() == env@,
        synthesizes(
            spec_synth_stmts(a, stmts_view(ss@), old(qbits)@, old(cbits)@, env@),
            r,
            old(ops)@,
            final(ops)@,
            final(qbits)@,
            final(cbits)@,
        ),
    decreases ss,
{
    let ghost all = stmts_view(ss@);
    let ghost q0 = qbits@;
    let ghost c0 = cbits@;
    let ghost o0 = ops@;
    assert(all.take(0) =~= Seq::<StatementV>::empty());
    assert(ops@ =~= o0 + Seq::<Op>::empty());
    for k in 0..ss.len()
        invariant
            qbits.wf(),
            cbits.wf(),
            env.wf(),
            qbits.values() == env@,
            cbits.values() == env@,
            arith_ok(a),
            all == stmts_view(ss@),
            q0 == old(qbits)@,
            c0 == old(cbits)@,
            o0 == old(ops)@,
            spec_synth_stmts(a, all.take(k as int), q0, c0, env@) matches Ok((o, q, c)) && ops@ == o0 + o
                && q == qbits@ && c == cbits@,
    {
        assert(all.take(k + 1).drop_last() =~= all.take(k as int));
        assert(all.take(k + 1).last() == ss@[k as int]@);
        proof {
            assert(decreases_to!(ss => ss@));
            assert(decreases_to!(ss@ => ss@[k as int]));
        }
        let ghost o1 = ops@;
        match synth_statement(&ss[k], ops, qbits, cbits, env, a) {
            Ok(_) => {
                assert(ops@ =~= o0 + (o1.skip(o0.len() as int) + ops@.skip(o1.len() as int))) by {
                    assert(o1 =~= o0 + o1.skip(o0.len() as int));
                }
            },
            Err(x) => {
                proof {
                    lemma_synth_stmts_prefix_err(a, all, q0, c0, env@, k + 1, x);
                }
                return Err(x);
            },
        }
    }
    assert(all.take(ss.len() as int) =~= all);
    Ok(())
}

/// Synthesizes the operations of a statement; see [`spec_synth_stmt`].
fn synth_statement<A: Fn(FloatOp) -> u64>(
    s: &Statement,
    ops: &mut Vec<Op>,
    qbits: &mut Bits,
    cbits: &mut Bits,
    env: &ValueEnv,
    a: &A,
) -> (r: Result<(), EvalError>)
    requires
        old(qbits).wf(),
        old(cbits).wf(),
        env.wf(),
        old(qbits).values() == env@,
        old(cbits).values() == env@,
        arith_ok(a),
    ensures
        final(qbits).wf(),
        final(cbits).wf(),
        final(qbits).values() == env@,
        final(cbits).values() == env@,
        synthesizes(
            spec_synth_stmt(a, s@, old(qbits)@, old(cbits)@, env@),
            r,
            old(ops)@,
            final(ops)@,
            final(qbits)@,
            final(cbits)@,
        ),
    decreases s,
{
    let ghost o0 = ops@;
    match s {
        Statement::Block(decls, stmts) => {
            proof {
                lemma_block_view(decls@, stmts@, *s);
            }
            match synth_declarations(decls, qbits, cbits, env, a) {
                Ok(_) => {},
                Err(x) => return Err(x),
            }
            synth_statements(stmts, ops, qbits, cbits, env, a)
        },
        Statement::QUpdate(q) => {
            let r = synth_qupdate(q, ops, qbits, env, a);
            r
        },
        Statement::ConditionalQUpdate(q, c) => {
            let cbit = match qbits.try_get_lval(c, a) {
                Ok(b) => b,
                Err(x) => return Err(x),
            };
            synth_cond_qupdate(q, cbit, ops, qbits, env, a)
        },
        Statement::Measure(q, c) => {
            let qi = match qbits.try_get_lval(q, a) {
                Ok(b) => b,
                Err(x) => return Err(x),
            };
            let ci = match qbits.try_get_lval(c, a) {
                Ok(b) => b,
                Err(x) => return Err(x),
            };
            ops.push(Op::Measure(qi, ci));
            assert(ops@ =~= o0 + seq![Op::Measure(qi, ci)]);
            Ok(())
        },
        _ => {
            assert(ops@ =~= o0 + Seq::<Op>::empty());
            Ok(())
        },
    }
}

/// The operations of every procedure's body in turn, with the allocations
/// carried from one to the next.
pub open spec fn spec_synth_procs<A: Fn(FloatOp) -> u64>(
    a: &A,
    ps: Seq<crate::ast::ProcedureV>,
    qb: BitsV,
    cb: BitsV,
    m: EnvV,
) -> Result<(Seq<Op>, BitsV, BitsV), EvalError>
    decreases ps.len(),
{
    if ps.len() == 0 {
        Ok((Seq::empty(), qb, cb))
    } else {
        match spec_synth_procs(a, ps.drop_last(), qb, cb, m) {
            Err(x) => Err(x),
            Ok((o1, q1, c1)) => match spec_synth_stmt(a, ps.last().body, q1, c1, m) {
                Err(x) => Err(x),
                Ok((o2, q2, c2)) => Ok((o1 + o2, q2, c2)),
            },
        }
    }
}

/// No bits allocated.
pub open spec fn no_bits() -> BitsV {
    BitsV { table: Map::empty(), next: 0 }
}

/// The circuit of a program: its procedures' bodies, synthesized in turn
/// with qbits and cbits allocated from 0.
pub open spec fn spec_synth_program<A: Fn(FloatOp) -> u64>(a: &A, p: ProgramV, m: EnvV) -> Result<
    Seq<Op>,
    EvalError,
> {
    match spec_synth_procs(a, p.procedures, no_bits(), no_bits(), m) {
        Err(x) => Err(x),
        Ok((o, _, _)) => Ok(o),
    }
}

proof fn lemma_synth_procs_prefix_err<A: Fn(FloatOp) -> u64>(
    a: &A,
    ps: Seq<crate::ast::ProcedureV>,
    qb: BitsV,
    cb: BitsV,
    m: EnvV,
    n: int,
    x: EvalError,
)
    requires
        0 <= n <= ps.len(),
        spec_synth_procs(a, ps.take(n), qb, cb, m) == Err::<(Seq<Op>, BitsV, BitsV), EvalError>(x),
    ensures
        spec_synth_procs(a, ps, qb, cb, m) == Err::<(Seq<Op>, BitsV, BitsV), EvalError>(x),
    decreases ps.len() - n,
{
    if n < ps.len() {
        assert(ps.take(n + 1).drop_last() =~= ps.take(n));
        lemma_synth_procs_prefix_err(a, ps, qb, cb, m, n + 1, x);
    } else {
        assert(ps.take(n) =~= ps);
    }
}

/// Synthesizes the circuit of a program; see [`spec_synth_program`].
pub fn try_synth_program<A: Fn(FloatOp) -> u64>(p: &Program, env: ValueEnv, a: &A) -> (r: Result<
    Vec<Op>,
    EvalError,
>)
    requires
        env.wf(),
        arith_ok(a),
    ensures
        match r {
            Ok(ops) => spec_synth_program(a, p@, env@) == Ok::<Seq<Op>, EvalError>(ops@),
            Err(x) => spec_synth_program(a, p@, env@) == Err::<Seq<Op>, EvalError>(x),
        },
{
    let mut ops: Vec<Op> = Vec::new();
    let mut qbits = Bits::new(&env);
    let mut cbits = Bits::new(&env);
    let ghost all = procs_view(p.procedures@);
    let ghost m = env@;
    assert(all.take(0) =~= Seq::<crate::ast::ProcedureV>::empty());
    assert(ops@ =~= Seq::<Op>::empty());
    for k in 0..p.procedures.len()
        invariant
            qbits.wf(),
            cbits.wf(),
            env.wf(),
            arith_ok(a),
            qbits.values() == env@,
            cbits.values() == env@,
            m == env@,
            all == procs_view(p.procedures@),
            spec_synth_procs(a, all.take(k as int), no_bits(), no_bits(), m) matches Ok((o, q, c))
                && ops@ == o && q == qbits@ && c == cbits@,
    {
        assert(all.take(k + 1).drop_last() =~= all.take(k as int));
        assert(all.take(k + 1).last() == p.procedures@[k as int]@);
        match synth_statement(&p.procedures[k].body, &mut ops, &mut qbits, &mut cbits, &env, a) {
            Ok(_) => {},
            Err(x) => {
                proof {
                    lemma_synth_procs_prefix_err(a, all, no_bits(), no_bits(), m, k + 1, x);
                }
                return Err(x);
            },
        }
    }
    assert(all.take(p.procedures.len() as int) =~= all);
    Ok(ops)
}

} // verus!

verus! {

// ---------------------------------------------------------------------------
// Synthesis of input on which it succeeds
// ---------------------------------------------------------------------------
//
// A location that names no allocated bit, a value that is not known, or a
// controlled swap is a fatal error. The functions below take only input on
// which synthesis succeeds; the `try_` functions take any input.

impl<'a> Bits<'a> {
    /// Allocates the bits of a declared location; see [`spec_insert_lval`].
    pub fn insert_lval<A: Fn(FloatOp) -> u64>(&mut self, l: &Lval, a: &A)
        requires
            old(self).wf(),
            arith_ok(a),
            spec_insert_lval(a, old(self)@, l@, old(self).values()) is Ok,
        ensures
            final(self).wf(),
            final(self).values() == old(self).values(),
            spec_insert_lval(a, old(self)@, l@, old(self).values()) == Ok::<BitsV, EvalError>(final(self)@),
    {
        self.try_insert_lval(l, a).unwrap()
    }

    /// The bit of a location; see [`spec_get_lval`].
    pub fn get_lval<A: Fn(FloatOp) -> u64>(&self, l: &Lval, a: &A) -> (r: usize)
        requires
            self.wf(),
            arith_ok(a),
            spec_get_lval(a, self@, l@, self.values()) is Ok,
        ensures
            spec_get_lval(a, self@, l@, self.values()) == Ok::<usize, EvalError>(r),
    {
        self.try_get_lval(l, a).unwrap()
    }
}

/// Allocates the bits of a declaration; see [`spec_synth_decl`].
pub fn synth_declaration<A: Fn(FloatOp) -> u64>(
    d: &Declaration,
    qbits: &mut Bits,
    cbits: &mut Bits,
    env: &ValueEnv,
    a: &A,
)
    requires
        old(qbits).wf(),
        old(cbits).wf(),
        env.wf(),
        old(qbits).values() == env@,
        old(cbits).values() == env@,
        arith_ok(a),
        spec_synth_decl(a, d@, old(qbits)@, old(cbits)@, env@) is Ok,
    ensures
        final(qbits).wf(),
        final(cbits).wf(),
        final(qbits).values() == env@,
        final(cbits).values() == env@,
        spec_synth_decl(a, d@, old(qbits)@, old(cbits)@, env@) == Ok::<(BitsV, BitsV), EvalError>(
            (final(qbits)@, final(cbits)@),
        ),
{
    try_synth_declaration(d, qbits, cbits, env, a).unwrap()
}

/// Allocates the bits of a parameter; see [`spec_synth_param`].
pub fn synth_parameter_declaration<A: Fn(FloatOp) -> u64>(
    p: &ParameterDeclaration,
    qbits: &mut Bits,
    cbits: &mut Bits,
    env: &ValueEnv,
    a: &A,
)
    requires
        old(qbits).wf(),
        old(cbits).wf(),
        env.wf(),
        arith_ok(a),
        spec_synth_param(a, p@, old(qbits)@, old(cbits)@, env@) is Ok,
    ensures
        final(qbits).wf(),
        final(cbits).wf(),
        final(qbits).values() == old(qbits).values(),
        final(cbits).values() == old(cbits).values(),
        spec_synth_param(a, p@, old(qbits)@, old(cbits)@, env@) == Ok::<(BitsV, BitsV), EvalError>(
            (final(qbits)@, final(cbits)@),
        ),
{
    try_synth_parameter_declaration(p, qbits, cbits, env, a).unwrap()
}

/// Synthesizes the circuit of a program; see [`spec_synth_program`].
pub fn synth_program<A: Fn(FloatOp) -> u64>(p: &Program, env: ValueEnv, a: &A) -> (r: Vec<Op>)
    requires
        env.wf(),
        arith_ok(a),
        spec_synth_program(a, p@, env@) is Ok,
    ensures
        spec_synth_program(a, p@, env@) == Ok::<Seq<Op>, EvalError>(r@),
{
    try_synth_program(p, env, a).unwrap()
}

} // verus!

verus! {

// ---------------------------------------------------------------------------
// Laws of allocation
// ---------------------------------------------------------------------------

/// A scalar takes one bit: allocating it is allocating an array of size 1.
pub proof fn lemma_scalar_is_one_bit(b: BitsV, n: Seq<char>)
    ensures
        add_scalar(b, n) == add_array(b, n, 1),
{
}

/// The allocation after giving each name of `reqs` its number of bits, in
/// order (a scalar takes 1).
pub open spec fn alloc_all(b: BitsV, reqs: Seq<(Seq<char>, usize)>) -> Result<BitsV, EvalError>
    decreases reqs.len(),
{
    if reqs.len() == 0 {
        Ok(b)
    } else {
        match alloc_all(b, reqs.drop_last()) {
            Ok(b0) => add_array(b0, reqs.last().0, reqs.last().1),
            Err(x) => Err(x),
        }
    }
}

/// The number of bits that `reqs` asks for.
pub open spec fn total_bits(reqs: Seq<(Seq<char>, usize)>) -> nat
    decreases reqs.len(),
{
    if reqs.len() == 0 {
        0
    } else {
        total_bits(reqs.drop_last()) + reqs.last().1 as nat
    }
}

/// Allocating bits from nothing to distinct names, one after the other,
/// uses as many bits as are asked for, and gives each name its own range:
/// the ranges of two names do not meet, and every range lies below the next
/// free bit.
pub proof fn lemma_allocations_disjoint(reqs: Seq<(Seq<char>, usize)>)
    requires
        forall|i: int, j: int| 0 <= i < j < reqs.len() ==> reqs[i].0 != reqs[j].0,
    ensures
        alloc_all(no_bits(), reqs) matches Ok(b) ==> {
            &&& b.next == total_bits(reqs)
            &&& forall|i: int|
                0 <= i < reqs.len() ==> b.table.contains_key(#[trigger] reqs[i].0) && b.table[reqs[i].0]
                    + reqs[i].1 <= b.next
            &&& forall|i: int, j: int|
                0 <= i < j < reqs.len() ==> b.table[#[trigger] reqs[i].0] + reqs[i].1 <= b.table[
                    #[trigger] reqs[j].0]
        },
    decreases reqs.len(),
{
    if reqs.len() > 0 {
        let r0 = reqs.drop_last();
        lemma_allocations_disjoint(r0);
        if let Ok(b0) = alloc_all(no_bits(), r0) {
            if let Ok(b) = alloc_all(no_bits(), reqs) {
                let k = reqs.len() - 1;
                let (n, sz) = reqs.last();
                assert(b == BitsV { table: b0.table.insert(n, b0.next), next: (b0.next + sz) as usize });
                assert forall|i: int| 0 <= i < k implies #[trigger] reqs[i].0 != n && reqs[i] == r0[i] by {
                    assert(reqs[i].0 != reqs[k].0);
                }
                assert forall|i: int|
                    0 <= i < reqs.len() implies b.table.contains_key(#[trigger] reqs[i].0) && b.table[reqs[i].0]
                    + reqs[i].1 <= b.next by {
                    if i < k {
                        assert(r0[i] == reqs[i]);
                        assert(b0.table.contains_key(r0[i].0));
                    }
                }
                assert forall|i: int, j: int| 0 <= i < j < reqs.len() implies b.table[#[trigger] reqs[i].0]
                    + reqs[i].1 <= b.table[#[trigger] reqs[j].0] by {
                    assert(r0[i] == reqs[i]);
                    assert(b0.table.contains_key(r0[i].0));
                    if j < k {
                        assert(r0[j] == reqs[j]);
                    }
                }
            }
        }
    }
}

} // verus!

verus! {

/// A rotation under a control keeps everything but its rotation. Split the
/// operations of a rotation g on qubit t around its one `Rz` by the angle
/// of g; the controlled g has the same operations before and after, and the
/// controlled `Rz` from c to t in between. Where the angle cannot be had,
/// both fail with the same error.
pub proof fn lemma_controlled_rotation<A: Fn(FloatOp) -> u64>(
    a: &A,
    g: GateV,
    e: crate::ast::ExpV,
    c: usize,
    t: usize,
    m: EnvV,
)
    requires
        g == GateV::Rx(e) || g == GateV::Ry(e) || g == GateV::Rz(e) || g == GateV::P(e),
    ensures
        angle(a, e, m) matches Ok(v) ==> exists|before: Seq<Op>, after: Seq<Op>|
            spec_gate_ops(a, g, t, m) == Ok::<Seq<Op>, EvalError>(before + seq![rz(v, t)] + after)
                && spec_cond_gate_ops(a, g, c, t, m) == Ok::<Seq<Op>, EvalError>(
                before + crz_ops(a, v, c, t) + after,
            ),
        angle(a, e, m) matches Err(x) ==> spec_gate_ops(a, g, t, m) == Err::<Seq<Op>, EvalError>(x)
            && spec_cond_gate_ops(a, g, c, t, m) == Err::<Seq<Op>, EvalError>(x),
{
    if let Ok(v) = angle(a, e, m) {
        let (before, after) = match g {
            GateV::Rx(_) => (h_ops(t), h_ops(t)),
            GateV::Ry(_) => (
                seq![rz(FRAC_PI_2_BITS, t)] + h_ops(t),
                h_ops(t) + seq![rz(NEG_FRAC_PI_2_BITS, t)],
            ),
            _ => (Seq::<Op>::empty(), Seq::<Op>::empty()),
        };
        match g {
            GateV::Rx(_) => {},
            GateV::Ry(_) => {
                assert(seq![rz(FRAC_PI_2_BITS, t)] + h_ops(t) + seq![rz(v, t)] + h_ops(t) + seq![
                    rz(NEG_FRAC_PI_2_BITS, t),
                ] =~= before + seq![rz(v, t)] + after);
                assert(seq![rz(FRAC_PI_2_BITS, t)] + h_ops(t) + crz_ops(a, v, c, t) + h_ops(t) + seq![
                    rz(NEG_FRAC_PI_2_BITS, t),
                ] =~= before + crz_ops(a, v, c, t) + after);
            },
            _ => {
                assert(before + seq![rz(v, t)] + after =~= seq![rz(v, t)]);
                assert(before + crz_ops(a, v, c, t) + after =~= crz_ops(a, v, c, t));
            },
        }
        assert(spec_gate_ops(a, g, t, m) == Ok::<Seq<Op>, EvalError>(before + seq![rz(v, t)] + after)
            && spec_cond_gate_ops(a, g, c, t, m) == Ok::<Seq<Op>, EvalError>(
            before + crz_ops(a, v, c, t) + after,
        ));
    }
}

} // verus!
